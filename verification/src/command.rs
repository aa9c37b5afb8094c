//! Telling the commands apart, from the words of one input line.

use vstd::prelude::*;
use vstd::string::*;
use crate::protocol::{arguments_of, CommandSpec, DebuggerCommand};

verus! {

/// The words of a line, as plain values.
pub open spec fn words_of(tokens: Seq<&str>) -> Seq<Seq<char>> {
    Seq::new(tokens.len(), |i: int| tokens[i]@)
}

/// The command that the words of a line denote: the first word names it,
/// in full or by its short form. `run` takes all further words as the
/// target's arguments, `breakpoint` takes the next word as the address, and
/// needs one.
pub open spec fn command_of(words: Seq<Seq<char>>) -> Option<CommandSpec> {
    if words.len() == 0 {
        None
    } else if words[0] == "q"@ || words[0] == "quit"@ {
        Some(CommandSpec::Quit)
    } else if words[0] == "run"@ {
        Some(CommandSpec::Run(words.subrange(1, words.len() as int)))
    } else if words[0] == "c"@ || words[0] == "continue"@ {
        Some(CommandSpec::Continue)
    } else if words[0] == "bt"@ || words[0] == "backtrace"@ {
        Some(CommandSpec::BackTrace)
    } else if (words[0] == "b"@ || words[0] == "breakpoint"@) && words.len() >= 2 {
        Some(CommandSpec::Breakpoint(words[1]))
    } else {
        None
    }
}

/// `token` is the word `word`.
pub fn is_word(token: &str, word: &str) -> (same: bool)
    ensures
        same == (token@ == word@),
{
    let left = String::from_str(token);
    let right = String::from_str(word);
    left == right
}

impl DebuggerCommand {
    /// The command that the words of one line denote, if they denote one.
    pub fn from_tokens(tokens: &Vec<&str>) -> (command: Option<DebuggerCommand>)
        ensures
            match command {
                Some(c) => command_of(words_of(tokens@)) == Some(c@),
                None => command_of(words_of(tokens@)) is None,
            },
    {
        if tokens.len() == 0 {
            return None;
        }
        let ghost words = words_of(tokens@);
        let head: &str = tokens[0];
        assert(words[0] == head@);
        if is_word(head, "q") || is_word(head, "quit") {
            Some(DebuggerCommand::Quit)
        } else if is_word(head, "run") {
            let mut arguments: Vec<String> = Vec::new();
            let mut i: usize = 1;
            while i < tokens.len()
                invariant
                    1 <= i <= tokens.len(),
                    arguments@.len() == i - 1,
                    forall|k: int| 0 <= k < i - 1 ==> (#[trigger] arguments@[k])@ == tokens@[k + 1]@,
                decreases tokens.len() - i,
            {
                arguments.push(String::from_str(tokens[i]));
                i += 1;
            }
            assert(arguments_of(arguments@) =~= words.subrange(1, words.len() as int));
            Some(DebuggerCommand::Run(arguments))
        } else if is_word(head, "c") || is_word(head, "continue") {
            Some(DebuggerCommand::Continue)
        } else if is_word(head, "bt") || is_word(head, "backtrace") {
            Some(DebuggerCommand::BackTrace)
        } else if (is_word(head, "b") || is_word(head, "breakpoint")) && tokens.len() >= 2 {
            let address: &str = tokens[1];
            assert(words[1] == address@);
            Some(DebuggerCommand::Breakpoint(String::from_str(address)))
        } else {
            None
        }
    }
}

} // verus!
