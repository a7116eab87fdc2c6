use surreal_migraine::name::{next_numeric_prefix, parse_numeric_prefix, sanitize_name};

#[test]
fn sanitize_basic() {
    assert_eq!(sanitize_name("Create Users"), "Create_Users");
    assert_eq!(sanitize_name("  space  test  "), "space_test");
    assert_eq!(sanitize_name("weird:/\\name"), "weirdname");
}

#[test]
fn parse_prefix_ok() {
    assert_eq!(parse_numeric_prefix("001_init.surql"), Some(1));
    assert_eq!(parse_numeric_prefix("000_foo.surql"), Some(0));
    assert_eq!(parse_numeric_prefix("10_bar.surql"), Some(10));
}

#[test]
fn parse_prefix_none() {
    assert_eq!(parse_numeric_prefix("init.surql"), None);
    assert_eq!(parse_numeric_prefix("abc_123.surql"), None);
}

#[test]
fn parse_prefix_overflow_is_none() {
    assert_eq!(parse_numeric_prefix("99999999999999999999_x.surql"), None);
    // Leading zeros do not overflow: the value is what the digits denote.
    assert_eq!(parse_numeric_prefix("00000000000000000000001_x.surql"), Some(1));
}

#[test]
fn parse_prefix_needs_underscore_after_digits() {
    assert_eq!(parse_numeric_prefix("001init.surql"), None);
    assert_eq!(parse_numeric_prefix("001"), None);
    assert_eq!(parse_numeric_prefix("001_"), Some(1));
}

#[test]
fn sanitize_empty_and_invalid_only() {
    assert_eq!(sanitize_name(""), "");
    assert_eq!(sanitize_name("\"<>|"), "");
    assert_eq!(sanitize_name("   "), "");
}

#[test]
fn sanitize_collapses_and_trims_underscores() {
    assert_eq!(sanitize_name("a  b"), "a_b");
    assert_eq!(sanitize_name("__x__"), "x");
    assert_eq!(sanitize_name("\tnew\nlines\t"), "new_lines");
}

#[test]
fn next_prefix_empty_dir_is_zero() {
    let names: Vec<String> = vec![];
    assert_eq!(next_numeric_prefix(&names), 0);
}

#[test]
fn next_prefix_increments_max() {
    let names = vec![
        "000_foo.surql".to_string(),
        "001_bar.surql".to_string(),
        "notes.txt".to_string(),
        "abc_x.surql".to_string(),
    ];
    assert_eq!(next_numeric_prefix(&names), 2);
}

#[test]
fn next_prefix_ignores_non_surql() {
    let names = vec!["010_big.sql".to_string(), "003_ok.surql".to_string()];
    assert_eq!(next_numeric_prefix(&names), 4);
}
