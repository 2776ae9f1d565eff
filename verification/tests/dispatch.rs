use std::cell::Cell;

use novus::command_parser::{handle_args, CommandHandler, DispatchOutcome};
use novus::errors::{CommandError, ParseError};

struct Recorder {
    parse_ok: bool,
    execute_ok: bool,
    parse_calls: usize,
    execute_calls: Cell<usize>,
    seen_args: Vec<String>,
    failure: Option<ParseError>,
}

impl Recorder {
    fn new(parse_ok: bool, execute_ok: bool) -> Recorder {
        Recorder {
            parse_ok,
            execute_ok,
            parse_calls: 0,
            execute_calls: Cell::new(0),
            seen_args: Vec::new(),
            failure: None,
        }
    }
}

impl CommandHandler for Recorder {
    fn parsed(&self) -> bool {
        self.parse_calls > 0 && self.parse_ok
    }

    fn parsed_args(&self) -> Vec<String> {
        self.seen_args.clone()
    }

    fn parse_failure(&self) -> Option<ParseError> {
        self.failure.clone()
    }

    fn parse(&mut self, args: &Vec<String>) -> Result<(), ParseError> {
        self.parse_calls += 1;
        self.seen_args = args.clone();
        if self.parse_ok {
            Ok(())
        } else {
            let e = ParseError::InvalidVersionNotation("bad requirement".to_string());
            self.failure = Some(e.clone());
            Err(e)
        }
    }

    fn execute(&self) -> Result<(), CommandError> {
        self.execute_calls.set(self.execute_calls.get() + 1);
        if self.execute_ok {
            Ok(())
        } else {
            Err(CommandError::InvalidVersion)
        }
    }
}

fn argv(tokens: &[&str]) -> Vec<String> {
    tokens.iter().map(|s| s.to_string()).collect()
}

#[test]
fn no_command_token_is_a_success() {
    let mut handler = Recorder::new(true, true);
    let r = handle_args(&argv(&["/usr/bin/novus"]), &mut handler);
    assert!(matches!(r, Ok(DispatchOutcome::NoCommand)));
    assert_eq!(handler.parse_calls, 0);
    assert_eq!(handler.execute_calls.get(), 0);
}

#[test]
fn unknown_command_keeps_original_case() {
    let mut handler = Recorder::new(true, true);
    let r = handle_args(&argv(&["/usr/bin/novus", "Remove"]), &mut handler);
    match r {
        Err(ParseError::CommandNotFound(name)) => assert_eq!(name, "Remove"),
        other => panic!("expected CommandNotFound, got {other:?}"),
    }
    assert_eq!(handler.parse_calls, 0);
}

#[test]
fn install_matches_case_insensitively() {
    let mut handler = Recorder::new(true, true);
    let r = handle_args(&argv(&["/usr/bin/novus", "INSTALL"]), &mut handler);
    assert!(matches!(r, Ok(DispatchOutcome::Completed)));
    assert_eq!(handler.parse_calls, 1);
    assert_eq!(handler.execute_calls.get(), 1);
}

#[test]
fn mixed_case_install_matches() {
    let mut handler = Recorder::new(true, true);
    let r = handle_args(&argv(&["/usr/bin/novus", "InStAlL"]), &mut handler);
    assert!(matches!(r, Ok(DispatchOutcome::Completed)));
}

#[test]
fn remaining_arguments_go_to_the_command() {
    let mut handler = Recorder::new(true, true);
    let r = handle_args(
        &argv(&["/usr/bin/novus", "install", "express@^1.2", "left-pad"]),
        &mut handler,
    );
    assert!(matches!(r, Ok(DispatchOutcome::Completed)));
    assert_eq!(handler.seen_args, argv(&["express@^1.2", "left-pad"]));
}

#[test]
fn failed_parse_aborts_and_skips_execute() {
    let mut handler = Recorder::new(false, true);
    let r = handle_args(&argv(&["/usr/bin/novus", "install", "x"]), &mut handler);
    assert!(matches!(r, Err(ParseError::InvalidVersionNotation(_))));
    assert_eq!(handler.parse_calls, 1);
    assert_eq!(handler.execute_calls.get(), 0);
}

#[test]
fn failed_execute_still_returns_success() {
    let mut handler = Recorder::new(true, false);
    let r = handle_args(&argv(&["/usr/bin/novus", "install"]), &mut handler);
    match r {
        Ok(DispatchOutcome::ExecutionFailed(e)) => assert_eq!(e, CommandError::InvalidVersion),
        other => panic!("expected ExecutionFailed, got {other:?}"),
    }
    assert_eq!(handler.execute_calls.get(), 1);
}
