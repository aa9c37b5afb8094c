use deet::command::is_word;
use deet::protocol::DebuggerCommand;

#[test]
fn tells_the_commands_apart_by_their_first_word() {
    assert_eq!(DebuggerCommand::from_tokens(&vec!["quit"]), Some(DebuggerCommand::Quit));
    assert_eq!(DebuggerCommand::from_tokens(&vec!["q"]), Some(DebuggerCommand::Quit));
    assert_eq!(DebuggerCommand::from_tokens(&vec!["continue"]), Some(DebuggerCommand::Continue));
    assert_eq!(DebuggerCommand::from_tokens(&vec!["c"]), Some(DebuggerCommand::Continue));
    assert_eq!(DebuggerCommand::from_tokens(&vec!["backtrace"]), Some(DebuggerCommand::BackTrace));
    assert_eq!(DebuggerCommand::from_tokens(&vec!["bt"]), Some(DebuggerCommand::BackTrace));
}

#[test]
fn a_run_takes_all_further_words_as_arguments() {
    assert_eq!(
        DebuggerCommand::from_tokens(&vec!["run"]),
        Some(DebuggerCommand::Run(Vec::new()))
    );
    assert_eq!(
        DebuggerCommand::from_tokens(&vec!["run", "-v", "in put", "run"]),
        Some(DebuggerCommand::Run(vec![
            "-v".to_string(),
            "in put".to_string(),
            "run".to_string()
        ]))
    );
}

#[test]
fn a_breakpoint_takes_the_next_word_as_its_address() {
    assert_eq!(
        DebuggerCommand::from_tokens(&vec!["breakpoint", "0x401136"]),
        Some(DebuggerCommand::Breakpoint("0x401136".to_string()))
    );
    assert_eq!(
        DebuggerCommand::from_tokens(&vec!["b", "main", "more"]),
        Some(DebuggerCommand::Breakpoint("main".to_string()))
    );
    assert_eq!(DebuggerCommand::from_tokens(&vec!["b"]), None);
    assert_eq!(DebuggerCommand::from_tokens(&vec!["breakpoint"]), None);
}

#[test]
fn anything_else_is_no_command() {
    assert_eq!(DebuggerCommand::from_tokens(&Vec::new()), None);
    assert_eq!(DebuggerCommand::from_tokens(&vec![""]), None);
    assert_eq!(DebuggerCommand::from_tokens(&vec!["Quit"]), None);
    assert_eq!(DebuggerCommand::from_tokens(&vec!["quit "]), None);
    assert_eq!(DebuggerCommand::from_tokens(&vec!["next"]), None);
    assert_eq!(DebuggerCommand::from_tokens(&vec!["0x10", "b"]), None);
}

#[test]
fn compares_words_whole() {
    assert!(is_word("bt", "bt"));
    assert!(!is_word("b", "bt"));
    assert!(!is_word("bt", "b"));
    assert!(is_word("", ""));
}
