use getopt::long::{getopt, LongName, LongOptions, PassedLong};
use getopt::ArgKind;
use getopt::Handler;
use getopt::OptError;

struct IntHandler;

impl Handler<i32> for IntHandler {
    fn handle(&mut self, arg: &str) -> Result<i32, String> {
        arg.parse::<i32>().map_err(|_| "bad".to_string())
    }
}

fn args(v: &[&str]) -> Vec<String> {
    v.iter().map(|s| s.to_string()).collect()
}

fn unhandled(
    c: char,
    name: &str,
    kind: ArgKind,
) -> (char, String, ArgKind, Option<(i32, IntHandler)>) {
    (c, name.to_string(), kind, None)
}

#[test]
fn long_empty_args_yield_nothing() {
    let table: LongOptions<i32, IntHandler> =
        LongOptions::new(vec![unhandled('v', "verbose", ArgKind::Nil)]);
    let mut p = getopt(args(&[]), table);
    assert_eq!(p.next_item(), None);
}

#[test]
fn long_name_and_alias_resolve_to_same_descriptor() {
    let table: LongOptions<i32, IntHandler> =
        LongOptions::new(vec![unhandled('v', "verbose", ArgKind::Nil)]);
    let mut p = getopt(args(&["--verbose", "-v"]), table);
    assert_eq!(
        p.next_item(),
        Some(PassedLong::Opt(LongName::Long("verbose".to_string()), Ok(None)))
    );
    assert_eq!(
        p.next_item(),
        Some(PassedLong::Opt(LongName::Short('v'), Ok(None)))
    );
    assert_eq!(p.next_item(), None);
}

#[test]
fn long_unknown_name_is_invalid() {
    let table: LongOptions<i32, IntHandler> =
        LongOptions::new(vec![unhandled('v', "verbose", ArgKind::Nil)]);
    let mut p = getopt(args(&["--nope", "-x"]), table);
    assert_eq!(
        p.next_item(),
        Some(PassedLong::Opt(
            LongName::Long("nope".to_string()),
            Err(OptError::Invalid)
        ))
    );
    assert_eq!(
        p.next_item(),
        Some(PassedLong::Opt(LongName::Short('x'), Err(OptError::Invalid)))
    );
    assert_eq!(p.next_item(), None);
}

#[test]
fn long_handler_round_trip() {
    let table = LongOptions::new(vec![(
        'c',
        "count".to_string(),
        ArgKind::Required,
        Some((0i32, IntHandler)),
    )]);
    let mut p = getopt(args(&["--count=42"]), table);
    assert_eq!(
        p.next_item(),
        Some(PassedLong::Opt(
            LongName::Long("count".to_string()),
            Ok(Some("42".to_string()))
        ))
    );
    assert_eq!(p.next_item(), None);
    let table = p.into_options();
    assert_eq!(table.target(0), Some(&42));
}

#[test]
fn long_handler_rejection_leaves_target() {
    let table = LongOptions::new(vec![(
        'c',
        "count".to_string(),
        ArgKind::Required,
        Some((7i32, IntHandler)),
    )]);
    let mut p = getopt(args(&["--count=x"]), table);
    assert_eq!(
        p.next_item(),
        Some(PassedLong::Opt(
            LongName::Long("count".to_string()),
            Err(OptError::HandleError("bad".to_string()))
        ))
    );
    let table = p.into_options();
    assert_eq!(table.target(0), Some(&7));
}

#[test]
fn long_required_takes_next_token() {
    let table: LongOptions<i32, IntHandler> =
        LongOptions::new(vec![unhandled('o', "out", ArgKind::Required)]);
    let mut p = getopt(args(&["--out", "a.txt", "-o", "b.txt"]), table);
    assert_eq!(
        p.next_item(),
        Some(PassedLong::Opt(
            LongName::Long("out".to_string()),
            Ok(Some("a.txt".to_string()))
        ))
    );
    assert_eq!(
        p.next_item(),
        Some(PassedLong::Opt(
            LongName::Short('o'),
            Ok(Some("b.txt".to_string()))
        ))
    );
    assert_eq!(p.next_item(), None);
}

#[test]
fn long_required_without_value_fails() {
    let table = LongOptions::new(vec![(
        'o',
        "out".to_string(),
        ArgKind::Required,
        Some((7i32, IntHandler)),
    )]);
    let mut p = getopt(args(&["--out"]), table);
    assert_eq!(
        p.next_item(),
        Some(PassedLong::Opt(
            LongName::Long("out".to_string()),
            Err(OptError::ArgRequired)
        ))
    );
    let table = p.into_options();
    assert_eq!(table.target(0), Some(&7));
}

#[test]
fn long_nil_rejects_inline_value() {
    let table: LongOptions<i32, IntHandler> =
        LongOptions::new(vec![unhandled('f', "flag", ArgKind::Nil)]);
    let mut p = getopt(args(&["--flag=x", "--flag"]), table);
    assert_eq!(
        p.next_item(),
        Some(PassedLong::Opt(
            LongName::Long("flag".to_string()),
            Err(OptError::Invalid)
        ))
    );
    assert_eq!(
        p.next_item(),
        Some(PassedLong::Opt(LongName::Long("flag".to_string()), Ok(None)))
    );
    assert_eq!(p.next_item(), None);
}

#[test]
fn long_optional_value_by_equals_only() {
    let table: LongOptions<i32, IntHandler> =
        LongOptions::new(vec![unhandled('l', "level", ArgKind::Optional)]);
    let mut p = getopt(args(&["--level=3", "--level", "free"]), table);
    assert_eq!(
        p.next_item(),
        Some(PassedLong::Opt(
            LongName::Long("level".to_string()),
            Ok(Some("3".to_string()))
        ))
    );
    assert_eq!(
        p.next_item(),
        Some(PassedLong::Opt(LongName::Long("level".to_string()), Ok(None)))
    );
    assert_eq!(p.next_item(), Some(PassedLong::Free("free".to_string())));
    assert_eq!(p.next_item(), None);
}

#[test]
fn long_single_dash_must_be_exact_alias() {
    let table: LongOptions<i32, IntHandler> =
        LongOptions::new(vec![unhandled('v', "verbose", ArgKind::Nil)]);
    let mut p = getopt(args(&["-verbose"]), table);
    // a single-dash token longer than `-c` never matches
    assert_eq!(
        p.next_item(),
        Some(PassedLong::Opt(LongName::Short('v'), Err(OptError::Invalid)))
    );
    assert_eq!(p.next_item(), None);
}

#[test]
fn long_terminator_frees_everything_after() {
    let table: LongOptions<i32, IntHandler> =
        LongOptions::new(vec![unhandled('v', "verbose", ArgKind::Nil)]);
    let mut p = getopt(args(&["--", "--verbose"]), table);
    assert_eq!(p.next_item(), Some(PassedLong::Free("--verbose".to_string())));
    assert_eq!(p.next_item(), None);
}

#[test]
fn long_empty_value_after_equals() {
    let table: LongOptions<i32, IntHandler> =
        LongOptions::new(vec![unhandled('o', "out", ArgKind::Required)]);
    let mut p = getopt(args(&["--out="]), table);
    assert_eq!(
        p.next_item(),
        Some(PassedLong::Opt(
            LongName::Long("out".to_string()),
            Ok(Some("".to_string()))
        ))
    );
    assert_eq!(p.next_item(), None);
}

#[test]
fn long_apply_ok_stores_target() {
    let mut d = getopt::long::LongOpt::Handled {
        short_name: 'c',
        long_name: "count".to_string(),
        argkind: ArgKind::Required,
        target: 0i32,
        handler: IntHandler,
    };
    assert_eq!(d.apply_handler_result(Ok(42)), None);
    match d {
        getopt::long::LongOpt::Handled { target, .. } => assert_eq!(target, 42),
        getopt::long::LongOpt::Unhandled { .. } => unreachable!(),
    }
}

#[test]
fn long_apply_err_returns_message_unmodified() {
    let mut d = getopt::long::LongOpt::Handled {
        short_name: 'c',
        long_name: "count".to_string(),
        argkind: ArgKind::Required,
        target: 7i32,
        handler: IntHandler,
    };
    assert_eq!(d.apply_handler_result(Err("bad".to_string())), Some("bad".to_string()));
    match d {
        getopt::long::LongOpt::Handled { target, .. } => assert_eq!(target, 7),
        getopt::long::LongOpt::Unhandled { .. } => unreachable!(),
    }
}
