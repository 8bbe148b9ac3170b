use pisi_center::text::{first_token, parse_u32, parse_u64, split_lines, split_tokens, str_lt, trim};

#[test]
fn parse_u64_plain_and_signed() {
    assert_eq!(parse_u64("42"), Some(42));
    assert_eq!(parse_u64("+42"), Some(42));
    assert_eq!(parse_u64("007"), Some(7));
    assert_eq!(parse_u64("0"), Some(0));
}

#[test]
fn parse_u64_rejects_bad_input() {
    assert_eq!(parse_u64(""), None);
    assert_eq!(parse_u64("+"), None);
    assert_eq!(parse_u64("-1"), None);
    assert_eq!(parse_u64("12a"), None);
    assert_eq!(parse_u64(" 12"), None);
    assert_eq!(parse_u64("1 2"), None);
}

#[test]
fn parse_u64_boundary_values() {
    assert_eq!(parse_u64("18446744073709551615"), Some(u64::MAX));
    assert_eq!(parse_u64("18446744073709551616"), None);
}

#[test]
fn parse_u32_boundary_values() {
    assert_eq!(parse_u32("4294967295"), Some(u32::MAX));
    assert_eq!(parse_u32("4294967296"), None);
    assert_eq!(parse_u32("+3"), Some(3));
    assert_eq!(parse_u32("soon"), None);
}

#[test]
fn trim_strips_surrounding_whitespace() {
    assert_eq!(trim("  a b \t"), "a b");
    assert_eq!(trim("x"), "x");
    assert_eq!(trim("   "), "");
    assert_eq!(trim(""), "");
    assert_eq!(trim("\u{a0}y\u{a0}"), "y");
}

#[test]
fn first_token_skips_leading_whitespace() {
    assert_eq!(first_token("  firefox 115.0"), "firefox");
    assert_eq!(first_token("vlc"), "vlc");
    assert_eq!(first_token("   "), "");
    assert_eq!(first_token(""), "");
}

#[test]
fn split_tokens_yields_maximal_runs() {
    assert_eq!(split_tokens(" a  bb\tc "), vec!["a", "bb", "c"]);
    assert!(split_tokens("").is_empty());
    assert!(split_tokens(" \t ").is_empty());
}

#[test]
fn split_lines_matches_line_iteration() {
    assert_eq!(split_lines("a\nb\nc"), vec!["a", "b", "c"]);
    assert_eq!(split_lines("a\nb\n"), vec!["a", "b"]);
    assert_eq!(split_lines("a\r\nb"), vec!["a", "b"]);
    assert_eq!(split_lines("\n"), vec![""]);
    assert!(split_lines("").is_empty());
    assert_eq!(split_lines("tail\r"), vec!["tail\r"]);
}

#[test]
fn str_lt_orders_like_string_comparison() {
    assert!(str_lt("", "a"));
    assert!(str_lt("a", "b"));
    assert!(str_lt("a", "ab"));
    assert!(!str_lt("ab", "a"));
    assert!(!str_lt("a", "a"));
    assert_eq!(str_lt("System", "applications"), "System" < "applications");
}
