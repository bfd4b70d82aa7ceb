use getopt::text::{find_char, split_value, str_eq, substring, token_shape};

#[test]
fn str_eq_compares_by_characters() {
    assert!(str_eq("", ""));
    assert!(str_eq("abc", "abc"));
    assert!(!str_eq("abc", "abd"));
    assert!(!str_eq("abc", "ab"));
    assert!(str_eq("naïve", "naïve"));
}

#[test]
fn find_char_reports_first_occurrence() {
    assert_eq!(find_char("a=b=c", '='), Some(1));
    assert_eq!(find_char("abc", '='), None);
    assert_eq!(find_char("", '='), None);
}

#[test]
fn substring_copies_a_character_range() {
    assert_eq!(substring("value", 1, 4), "alu".to_string());
    assert_eq!(substring("value", 0, 0), "".to_string());
}

#[test]
fn split_value_splits_on_first_equals() {
    assert_eq!(split_value("name=val"), ("name".to_string(), Some("val".to_string())));
    assert_eq!(split_value("name"), ("name".to_string(), None));
    assert_eq!(split_value("a=b=c"), ("a".to_string(), Some("b=c".to_string())));
    assert_eq!(split_value("="), ("".to_string(), Some("".to_string())));
}

#[test]
fn token_shape_classifies_dashes() {
    assert_eq!(token_shape("--"), (true, true));
    assert_eq!(token_shape("-a"), (false, true));
    assert_eq!(token_shape("--a"), (false, true));
    assert_eq!(token_shape("-"), (false, false));
    assert_eq!(token_shape("plain"), (false, false));
    assert_eq!(token_shape(""), (false, false));
}
