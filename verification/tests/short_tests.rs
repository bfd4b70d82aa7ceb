use getopt::short::{getopt, PassedShort, ShortOptions};
use getopt::ArgKind;
use getopt::Handler;
use getopt::OptError;

struct IntHandler;

impl Handler<i32> for IntHandler {
    fn handle(&mut self, arg: &str) -> Result<i32, String> {
        arg.parse::<i32>().map_err(|_| "bad".to_string())
    }
}

fn args(v: &[&str]) -> Vec<String> {
    v.iter().map(|s| s.to_string()).collect()
}

fn nil(c: char) -> (char, ArgKind, Option<(i32, IntHandler)>) {
    (c, ArgKind::Nil, None)
}

#[test]
fn short_empty_args_yield_nothing() {
    let table: ShortOptions<i32, IntHandler> = ShortOptions::new(vec![nil('a')]);
    let mut p = getopt(args(&[]), table);
    assert_eq!(p.next_item(), None);
    assert_eq!(p.next_item(), None);
}

#[test]
fn short_bundling_with_required_tail() {
    let table: ShortOptions<i32, IntHandler> = ShortOptions::new(vec![
        nil('a'),
        nil('b'),
        ('c', ArgKind::Required, None),
    ]);
    let mut p = getopt(args(&["-abcvalue"]), table);
    assert_eq!(p.next_item(), Some(PassedShort::Opt('a', Ok(None))));
    assert_eq!(p.next_item(), Some(PassedShort::Opt('b', Ok(None))));
    assert_eq!(
        p.next_item(),
        Some(PassedShort::Opt('c', Ok(Some("value".to_string()))))
    );
    assert_eq!(p.next_item(), None);
}

#[test]
fn short_invalid_character_consumes_rest_of_token() {
    let table: ShortOptions<i32, IntHandler> = ShortOptions::new(vec![nil('a')]);
    let mut p = getopt(args(&["-axb", "-a"]), table);
    assert_eq!(p.next_item(), Some(PassedShort::Opt('a', Ok(None))));
    assert_eq!(p.next_item(), Some(PassedShort::Opt('x', Err(OptError::Invalid))));
    assert_eq!(p.next_item(), Some(PassedShort::Opt('a', Ok(None))));
    assert_eq!(p.next_item(), None);
}

#[test]
fn short_required_takes_next_token() {
    let table: ShortOptions<i32, IntHandler> =
        ShortOptions::new(vec![('o', ArgKind::Required, None)]);
    let mut p = getopt(args(&["-o", "out.txt"]), table);
    assert_eq!(
        p.next_item(),
        Some(PassedShort::Opt('o', Ok(Some("out.txt".to_string()))))
    );
    assert_eq!(p.next_item(), None);
}

#[test]
fn short_required_without_value_leaves_target_alone() {
    let table = ShortOptions::new(vec![('n', ArgKind::Required, Some((7i32, IntHandler)))]);
    let mut p = getopt(args(&["-n"]), table);
    assert_eq!(p.next_item(), Some(PassedShort::Opt('n', Err(OptError::ArgRequired))));
    assert_eq!(p.next_item(), None);
    let table = p.into_options();
    assert_eq!(table.target(0), Some(&7));
}

#[test]
fn short_handler_assigns_target() {
    let table = ShortOptions::new(vec![('n', ArgKind::Required, Some((0i32, IntHandler)))]);
    let mut p = getopt(args(&["-n42"]), table);
    assert_eq!(
        p.next_item(),
        Some(PassedShort::Opt('n', Ok(Some("42".to_string()))))
    );
    assert_eq!(p.next_item(), None);
    let table = p.into_options();
    assert_eq!(table.target(0), Some(&42));
}

#[test]
fn short_handler_error_leaves_target_alone() {
    let table = ShortOptions::new(vec![('n', ArgKind::Required, Some((7i32, IntHandler)))]);
    let mut p = getopt(args(&["-nx"]), table);
    assert_eq!(
        p.next_item(),
        Some(PassedShort::Opt(
            'n',
            Err(OptError::HandleError("bad".to_string()))
        ))
    );
    let table = p.into_options();
    assert_eq!(table.target(0), Some(&7));
}

#[test]
fn short_nil_never_takes_attached_text() {
    // `-fx`: the `f` flag is Nil, so `x` is classified as its own option.
    let table: ShortOptions<i32, IntHandler> = ShortOptions::new(vec![nil('f')]);
    let mut p = getopt(args(&["-fx"]), table);
    assert_eq!(p.next_item(), Some(PassedShort::Opt('f', Ok(None))));
    assert_eq!(p.next_item(), Some(PassedShort::Opt('x', Err(OptError::Invalid))));
    assert_eq!(p.next_item(), None);
}

#[test]
fn short_optional_takes_inline_value_only() {
    let table: ShortOptions<i32, IntHandler> = ShortOptions::new(vec![(
        'v',
        ArgKind::Optional,
        None,
    )]);
    let mut p = getopt(args(&["-v3", "-v", "free"]), table);
    assert_eq!(p.next_item(), Some(PassedShort::Opt('v', Ok(Some("3".to_string())))));
    assert_eq!(p.next_item(), Some(PassedShort::Opt('v', Ok(None))));
    assert_eq!(p.next_item(), Some(PassedShort::Free("free".to_string())));
    assert_eq!(p.next_item(), None);
}

#[test]
fn short_free_and_bare_dash_tokens() {
    let table: ShortOptions<i32, IntHandler> = ShortOptions::new(vec![nil('a')]);
    let mut p = getopt(args(&["plain", "-", "-a"]), table);
    assert_eq!(p.next_item(), Some(PassedShort::Free("plain".to_string())));
    assert_eq!(p.next_item(), Some(PassedShort::Free("-".to_string())));
    assert_eq!(p.next_item(), Some(PassedShort::Opt('a', Ok(None))));
    assert_eq!(p.next_item(), None);
}

#[test]
fn short_terminator_frees_everything_after() {
    let table: ShortOptions<i32, IntHandler> = ShortOptions::new(vec![nil('a')]);
    let mut p = getopt(args(&["--", "--verbose"]), table);
    assert_eq!(p.next_item(), Some(PassedShort::Free("--verbose".to_string())));
    assert_eq!(p.next_item(), None);
}

#[test]
fn short_first_match_wins_on_duplicates() {
    let table: ShortOptions<i32, IntHandler> = ShortOptions::new(vec![
        ('a', ArgKind::Nil, None),
        ('a', ArgKind::Required, None),
    ]);
    let mut p = getopt(args(&["-a"]), table);
    // the first (Nil) descriptor shadows the later Required one
    assert_eq!(p.next_item(), Some(PassedShort::Opt('a', Ok(None))));
    assert_eq!(p.next_item(), None);
}

#[test]
fn short_apply_ok_stores_target() {
    let mut d = getopt::short::ShortOpt::Handled {
        short_name: 'n',
        argkind: ArgKind::Required,
        target: 0i32,
        handler: IntHandler,
    };
    assert_eq!(d.apply_handler_result(Ok(42)), None);
    match d {
        getopt::short::ShortOpt::Handled { target, .. } => assert_eq!(target, 42),
        getopt::short::ShortOpt::Unhandled { .. } => unreachable!(),
    }
}

#[test]
fn short_apply_err_returns_message_unmodified() {
    let mut d = getopt::short::ShortOpt::Handled {
        short_name: 'n',
        argkind: ArgKind::Required,
        target: 7i32,
        handler: IntHandler,
    };
    assert_eq!(d.apply_handler_result(Err("bad".to_string())), Some("bad".to_string()));
    match d {
        getopt::short::ShortOpt::Handled { target, .. } => assert_eq!(target, 7),
        getopt::short::ShortOpt::Unhandled { .. } => unreachable!(),
    }
}
