use getopt::long_only::{getopt, LongOnlyOptions, PassedLongOnly};
use getopt::ArgKind;
use getopt::Handler;
use getopt::OptError;

struct IntHandler;

impl Handler<i32> for IntHandler {
    fn handle(&mut self, arg: &str) -> Result<i32, String> {
        arg.parse::<i32>().map_err(|_| "bad".to_string())
    }
}

fn args(v: &[&str]) -> Vec<String> {
    v.iter().map(|s| s.to_string()).collect()
}

fn unhandled(name: &str, kind: ArgKind) -> (String, ArgKind, Option<(i32, IntHandler)>) {
    (name.to_string(), kind, None)
}

#[test]
fn long_only_empty_args_yield_nothing() {
    let table: LongOnlyOptions<i32, IntHandler> =
        LongOnlyOptions::new(vec![unhandled("verbose", ArgKind::Nil)]);
    let mut p = getopt(args(&[]), table);
    assert_eq!(p.next_item(), None);
}

#[test]
fn long_only_one_or_two_dashes_match() {
    let table: LongOnlyOptions<i32, IntHandler> =
        LongOnlyOptions::new(vec![unhandled("verbose", ArgKind::Nil)]);
    let mut p = getopt(args(&["-verbose", "--verbose"]), table);
    assert_eq!(
        p.next_item(),
        Some(PassedLongOnly::Opt("verbose".to_string(), Ok(None)))
    );
    assert_eq!(
        p.next_item(),
        Some(PassedLongOnly::Opt("verbose".to_string(), Ok(None)))
    );
    assert_eq!(p.next_item(), None);
}

#[test]
fn long_only_unknown_name_is_invalid() {
    let table: LongOnlyOptions<i32, IntHandler> =
        LongOnlyOptions::new(vec![unhandled("verbose", ArgKind::Nil)]);
    let mut p = getopt(args(&["-nope"]), table);
    assert_eq!(
        p.next_item(),
        Some(PassedLongOnly::Opt(
            "nope".to_string(),
            Err(OptError::Invalid)
        ))
    );
    assert_eq!(p.next_item(), None);
}

#[test]
fn long_only_handler_round_trip() {
    let table = LongOnlyOptions::new(vec![(
        "count".to_string(),
        ArgKind::Required,
        Some((0i32, IntHandler)),
    )]);
    let mut p = getopt(args(&["-count=42"]), table);
    assert_eq!(
        p.next_item(),
        Some(PassedLongOnly::Opt(
            "count".to_string(),
            Ok(Some("42".to_string()))
        ))
    );
    assert_eq!(p.next_item(), None);
    let table = p.into_options();
    assert_eq!(table.target(0), Some(&42));
}

#[test]
fn long_only_handler_rejection_leaves_target() {
    let table = LongOnlyOptions::new(vec![(
        "count".to_string(),
        ArgKind::Required,
        Some((7i32, IntHandler)),
    )]);
    let mut p = getopt(args(&["--count=x"]), table);
    assert_eq!(
        p.next_item(),
        Some(PassedLongOnly::Opt(
            "count".to_string(),
            Err(OptError::HandleError("bad".to_string()))
        ))
    );
    let table = p.into_options();
    assert_eq!(table.target(0), Some(&7));
}

#[test]
fn long_only_required_takes_next_token() {
    let table: LongOnlyOptions<i32, IntHandler> =
        LongOnlyOptions::new(vec![unhandled("out", ArgKind::Required)]);
    let mut p = getopt(args(&["-out", "a.txt"]), table);
    assert_eq!(
        p.next_item(),
        Some(PassedLongOnly::Opt(
            "out".to_string(),
            Ok(Some("a.txt".to_string()))
        ))
    );
    assert_eq!(p.next_item(), None);
}

#[test]
fn long_only_required_without_value_fails() {
    let table = LongOnlyOptions::new(vec![(
        "out".to_string(),
        ArgKind::Required,
        Some((7i32, IntHandler)),
    )]);
    let mut p = getopt(args(&["-out"]), table);
    assert_eq!(
        p.next_item(),
        Some(PassedLongOnly::Opt(
            "out".to_string(),
            Err(OptError::ArgRequired)
        ))
    );
    let table = p.into_options();
    assert_eq!(table.target(0), Some(&7));
}

#[test]
fn long_only_nil_rejects_inline_value() {
    let table: LongOnlyOptions<i32, IntHandler> =
        LongOnlyOptions::new(vec![unhandled("flag", ArgKind::Nil)]);
    let mut p = getopt(args(&["-flag=x", "-flag"]), table);
    assert_eq!(
        p.next_item(),
        Some(PassedLongOnly::Opt(
            "flag".to_string(),
            Err(OptError::Invalid)
        ))
    );
    assert_eq!(
        p.next_item(),
        Some(PassedLongOnly::Opt("flag".to_string(), Ok(None)))
    );
    assert_eq!(p.next_item(), None);
}

#[test]
fn long_only_free_and_bare_dash_tokens() {
    let table: LongOnlyOptions<i32, IntHandler> =
        LongOnlyOptions::new(vec![unhandled("verbose", ArgKind::Nil)]);
    let mut p = getopt(args(&["plain", "-"]), table);
    assert_eq!(p.next_item(), Some(PassedLongOnly::Free("plain".to_string())));
    assert_eq!(p.next_item(), Some(PassedLongOnly::Free("-".to_string())));
    assert_eq!(p.next_item(), None);
}

#[test]
fn long_only_terminator_frees_everything_after() {
    let table: LongOnlyOptions<i32, IntHandler> =
        LongOnlyOptions::new(vec![unhandled("verbose", ArgKind::Nil)]);
    let mut p = getopt(args(&["--", "--verbose", "-x"]), table);
    assert_eq!(
        p.next_item(),
        Some(PassedLongOnly::Free("--verbose".to_string()))
    );
    assert_eq!(p.next_item(), Some(PassedLongOnly::Free("-x".to_string())));
    assert_eq!(p.next_item(), None);
}

#[test]
fn long_only_apply_ok_stores_target() {
    let mut d = getopt::long_only::LongOnlyOpt::Handled {
        long_name: "count".to_string(),
        argkind: ArgKind::Required,
        target: 0i32,
        handler: IntHandler,
    };
    assert_eq!(d.apply_handler_result(Ok(42)), None);
    match d {
        getopt::long_only::LongOnlyOpt::Handled { target, .. } => assert_eq!(target, 42),
        getopt::long_only::LongOnlyOpt::Unhandled { .. } => unreachable!(),
    }
}

#[test]
fn long_only_apply_err_returns_message_unmodified() {
    let mut d = getopt::long_only::LongOnlyOpt::Handled {
        long_name: "count".to_string(),
        argkind: ArgKind::Required,
        target: 7i32,
        handler: IntHandler,
    };
    assert_eq!(d.apply_handler_result(Err("bad".to_string())), Some("bad".to_string()));
    match d {
        getopt::long_only::LongOnlyOpt::Handled { target, .. } => assert_eq!(target, 7),
        getopt::long_only::LongOnlyOpt::Unhandled { .. } => unreachable!(),
    }
}
