use wasm_driver_utils::argproc::{process_invocation_args, ToolArg};
use wasm_driver_utils::table::{ArgAction, StateCheck, TableInvocation};

fn arg(name: &str, single: Option<&str>, split: Option<&str>, has_action: bool) -> ToolArg {
    ToolArg {
        name: name.to_string(),
        single: single.map(|s| s.to_string()),
        split: split.map(|s| s.to_string()),
        has_action,
        help: None,
    }
}

/// The test driver: one pass with a single-form, a split-form, a both-form
/// and an erroring argument, storing the captured value into text slot 0.
fn test_invocation(check_state: Option<&str>) -> TableInvocation {
    let pass = vec![
        arg("SINGLE", Some(r"^-?-single=(.+)$"), None, true),
        arg("SPLIT", None, Some(r"^-?-split"), true),
        arg(
            "BOTH",
            Some(r"^-(both|single_only)(.+)$"),
            Some(r"^-(both|split_only)$"),
            true,
        ),
        arg("ERROR", Some(r"^--error$"), None, true),
    ];
    let actions = vec![
        (
            "SINGLE".to_string(),
            ArgAction::SetText { slot: 0, single_group: 1, split_group: 1 },
        ),
        (
            "SPLIT".to_string(),
            ArgAction::SetText { slot: 0, single_group: 0, split_group: 0 },
        ),
        (
            "BOTH".to_string(),
            ArgAction::SetText { slot: 0, single_group: 2, split_group: 1 },
        ),
        ("ERROR".to_string(), ArgAction::Reject { message: "error".to_string() }),
    ];
    let checks = match check_state {
        Some(expected) => vec![StateCheck::TextEquals {
            slot: 0,
            expected: expected.to_string(),
            message: "invalid state".to_string(),
        }],
        None => vec![],
    };
    TableInvocation::new("test".to_string(), vec![pass], actions, checks, 1, 0, 0)
}

#[test]
fn single() {
    let args = vec!["--single=something".to_string()];
    let mut invocation = test_invocation(None);

    assert_eq!(process_invocation_args(&mut invocation, args), Ok(()));
    assert_eq!(invocation.text_slots[0], Some("something".to_string()));
}

#[test]
fn split() {
    let args = vec!["--split".to_string(), "something".to_string()];
    let mut invocation = test_invocation(None);

    assert_eq!(process_invocation_args(&mut invocation, args), Ok(()));
    assert_eq!(invocation.text_slots[0], Some("something".to_string()));
}

#[test]
fn both() {
    let args = vec!["-both".to_string(), "something".to_string()];
    let mut invocation = test_invocation(None);

    assert_eq!(process_invocation_args(&mut invocation, args), Ok(()));
    assert_eq!(invocation.text_slots[0], Some("something".to_string()));

    let args = vec!["-bothsomething".to_string()];
    let mut invocation = test_invocation(None);

    assert_eq!(process_invocation_args(&mut invocation, args), Ok(()));
    assert_eq!(invocation.text_slots[0], Some("something".to_string()));
}

#[test]
fn error() {
    let args = vec!["--error".to_string()];
    let mut invocation = test_invocation(None);

    assert_eq!(
        process_invocation_args(&mut invocation, args),
        Err("error on argument `--error`: `error`\n".to_string())
    );
    assert_eq!(invocation.text_slots[0], None);
}

#[test]
fn check_state() {
    let args = vec!["-bothsomething".to_string()];
    let mut invocation = test_invocation(Some("not something"));

    assert_eq!(
        process_invocation_args(&mut invocation, args),
        Err("invalid state".to_string())
    );
}

#[test]
fn lib_single() {
    let args = vec!["--single=something".to_string()];
    let mut invocation = test_invocation(None);

    assert_eq!(process_invocation_args(&mut invocation, args), Ok(()));
    assert_eq!(invocation.text_slots[0], Some("something".to_string()));
}

#[test]
fn lib_split() {
    let args = vec!["--split".to_string(), "something".to_string()];
    let mut invocation = test_invocation(None);

    assert_eq!(process_invocation_args(&mut invocation, args), Ok(()));
    assert_eq!(invocation.text_slots[0], Some("something".to_string()));
}

#[test]
fn lib_both() {
    let args = vec!["-both".to_string(), "something".to_string()];
    let mut invocation = test_invocation(None);

    assert_eq!(process_invocation_args(&mut invocation, args), Ok(()));
    assert_eq!(invocation.text_slots[0], Some("something".to_string()));

    let args = vec!["-bothsomething".to_string()];
    let mut invocation = test_invocation(None);

    assert_eq!(process_invocation_args(&mut invocation, args), Ok(()));
    assert_eq!(invocation.text_slots[0], Some("something".to_string()));
}

#[test]
fn lib_error() {
    let args = vec!["--error".to_string()];
    let mut invocation = test_invocation(None);

    assert_eq!(
        process_invocation_args(&mut invocation, args),
        Err("error on argument `--error`: `error`\n".to_string())
    );
    assert_eq!(invocation.text_slots[0], None);
}

#[test]
fn lib_check_state() {
    let args = vec!["-bothsomething".to_string()];
    let mut invocation = test_invocation(Some("not something"));

    assert_eq!(
        process_invocation_args(&mut invocation, args),
        Err("invalid state".to_string())
    );
}

/// A split-form flag as the very last token reports a missing value instead
/// of panicking.
#[test]
fn split_flag_as_final_token() {
    let args = vec!["--split".to_string()];
    let mut invocation = test_invocation(None);

    let err = process_invocation_args(&mut invocation, args).unwrap_err();
    assert_eq!(
        err,
        "error on argument `--split`: ``^-?-split` expects another argument`\n".to_string()
    );
    assert_eq!(invocation.text_slots[0], None);
}

/// Tokens no pattern claims stay available, in order, and matched tokens are
/// consumed: leftovers after the last pass are silently ignored.
#[test]
fn unmatched_tokens_are_left_alone() {
    let args = vec![
        "leftover0".to_string(),
        "--single=a".to_string(),
        "leftover1".to_string(),
    ];
    let mut invocation = test_invocation(None);

    assert_eq!(process_invocation_args(&mut invocation, args), Ok(()));
    assert_eq!(invocation.text_slots[0], Some("a".to_string()));
}

/// A catch-all pattern last in the pass reports every token earlier patterns
/// left unmatched, one line each in token order, rather than dropping it.
#[test]
fn catch_all_reports_unmatched() {
    let pass = vec![
        arg("KNOWN", Some(r"^--known$"), None, false),
        arg("UNSUPPORTED", Some(r"^(.*)$"), None, true),
    ];
    let actions = vec![(
        "UNSUPPORTED".to_string(),
        ArgAction::Reject { message: "unsupported argument".to_string() },
    )];
    let mut invocation =
        TableInvocation::new("catch-all".to_string(), vec![pass], actions, vec![], 0, 0, 0);

    let args = vec!["--known".to_string(), "-weird".to_string(), "stray".to_string()];
    let err = process_invocation_args(&mut invocation, args).unwrap_err();
    assert_eq!(
        err,
        "error on argument `-weird`: `unsupported argument`\n\
         error on argument `stray`: `unsupported argument`\n"
            .to_string()
    );
}
