//! Counting the lines, words and bytes of a text.

use vstd::prelude::*;
use vstd::string::*;

verus! {

/// The byte that parts two words.
pub const SPACE: u8 = 0x20;

/// How many of `bytes` are spaces.
pub open spec fn spaces(bytes: Seq<u8>) -> nat
    decreases bytes.len(),
{
    if bytes.len() == 0 {
        0
    } else {
        spaces(bytes.drop_last()) + if bytes.last() == SPACE {
            1nat
        } else {
            0nat
        }
    }
}

/// The words of a line: the pieces that its spaces part it into, empty
/// pieces counted too, so one more than it has spaces.
pub open spec fn words_in(line: Seq<u8>) -> nat {
    spaces(line) + 1
}

/// What was counted of a text.
#[derive(Clone, Copy, Debug, PartialEq, Eq)]
pub struct Counts {
    pub lines: usize,
    pub words: usize,
    pub chars: usize,
}

/// The words of one line, where their number fits a machine word.
pub fn count_words(line: &str) -> (words: Option<usize>)
    ensures
        words == if words_in(line.spec_bytes()) <= usize::MAX {
            Some(words_in(line.spec_bytes()) as usize)
        } else {
            None
        },
{
    let bytes = line.as_bytes();
    let mut found: usize = 0;
    let mut i: usize = 0;
    assert(bytes@.subrange(0, 0) =~= Seq::<u8>::empty());
    while i < bytes.len()
        invariant
            i <= bytes.len(),
            found <= i,
            found == spaces(bytes@.subrange(0, i as int)),
        decreases bytes.len() - i,
    {
        assert(bytes@.subrange(0, i + 1).drop_last() =~= bytes@.subrange(0, i as int));
        if bytes[i] == SPACE {
            found += 1;
        }
        i += 1;
    }
    assert(bytes@.subrange(0, i as int) =~= bytes@);
    if found == usize::MAX {
        None
    } else {
        Some(found + 1)
    }
}

impl Counts {
    /// Nothing counted yet.
    pub fn new() -> (counts: Counts)
        ensures
            counts == (Counts { lines: 0, words: 0, chars: 0 }),
    {
        Counts { lines: 0, words: 0, chars: 0 }
    }

    /// Counts one more line. `None` where a count no longer fits a machine
    /// word.
    pub fn add_line(self, line: &str) -> (counts: Option<Counts>)
        ensures
            counts == if self.lines + 1 <= usize::MAX && self.words + words_in(line.spec_bytes())
                <= usize::MAX && self.chars + line.spec_bytes().len() <= usize::MAX {
                Some(
                    Counts {
                        lines: (self.lines + 1) as usize,
                        words: (self.words + words_in(line.spec_bytes())) as usize,
                        chars: (self.chars + line.spec_bytes().len()) as usize,
                    },
                )
            } else {
                None
            },
    {
        let length = line.as_bytes().len();
        let words = match count_words(line) {
            Some(words) => words,
            None => {
                return None;
            },
        };
        if self.lines == usize::MAX || words > usize::MAX - self.words || length > usize::MAX
            - self.chars {
            return None;
        }
        Some(
            Counts {
                lines: self.lines + 1,
                words: self.words + words,
                chars: self.chars + length,
            },
        )
    }
}

} // verus!
