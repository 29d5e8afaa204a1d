use csv_render::error::{ErrorCategory, ValidationError};
use csv_render::text::{decimal, join_texts, parse_u64, split_text, str_eq, trim};

#[test]
fn parse_u64_accepts_plain_and_plus_prefixed_digits() {
    assert_eq!(parse_u64("0"), Some(0));
    assert_eq!(parse_u64("1713825600"), Some(1713825600));
    assert_eq!(parse_u64("+42"), Some(42));
    assert_eq!(parse_u64("18446744073709551615"), Some(u64::MAX));
}

#[test]
fn parse_u64_rejects_what_std_rejects() {
    assert_eq!(parse_u64(""), None);
    assert_eq!(parse_u64("+"), None);
    assert_eq!(parse_u64("-1"), None);
    assert_eq!(parse_u64("12a"), None);
    assert_eq!(parse_u64(" 12"), None);
    assert_eq!(parse_u64("18446744073709551616"), None);
    assert_eq!(parse_u64("not-a-timestamp"), None);
}

#[test]
fn parse_u64_agrees_with_std_on_samples() {
    for s in ["7", "+7", "007", "", "-0", "+-1", "99999999999999999999", "1 2", "٣"] {
        assert_eq!(parse_u64(s), s.parse::<u64>().ok(), "input {:?}", s);
    }
}

#[test]
fn trim_removes_surrounding_white_space() {
    assert_eq!(trim("  a b \t\n"), "a b");
    assert_eq!(trim(""), "");
    assert_eq!(trim("   "), "");
    assert_eq!(trim("\u{3000}x\u{00a0}"), "x");
}

#[test]
fn split_text_keeps_empty_pieces() {
    assert_eq!(split_text("a;;b", ';'), vec!["a", "", "b"]);
    assert_eq!(split_text("", ';'), vec![""]);
    assert_eq!(split_text(";", ';'), vec!["", ""]);
    assert_eq!(split_text("abc", ';'), vec!["abc"]);
}

#[test]
fn decimal_and_join_write_plain_text() {
    assert_eq!(decimal(0), "0");
    assert_eq!(decimal(1690000005), "1690000005");
    assert_eq!(decimal(u64::MAX), "18446744073709551615");
    assert_eq!(join_texts(&vec!["a".to_string(), "b".to_string(), "c".to_string()], "|"), "a|b|c");
    assert_eq!(join_texts(&vec![], "|"), "");
    assert!(str_eq("héllo", "héllo"));
    assert!(!str_eq("abc", "abd"));
}

#[test]
fn error_categories_have_report_names() {
    assert_eq!(ErrorCategory::Lexical.as_str(), "lexical");
    assert_eq!(ErrorCategory::Structure.as_str(), "structural");
    assert_eq!(ErrorCategory::Semantic.as_str(), "semantic");
    assert_eq!(ErrorCategory::Relational.as_str(), "relational");
    assert_eq!(ErrorCategory::Io.as_str(), "io");
}

#[test]
fn schema_errors_are_structural() {
    let e = ValidationError::Schema { code: "SCHEMA_LOAD_FAILED", message: "x".to_string() };
    assert_eq!(e.category(), ErrorCategory::Structure);
    assert_eq!(e.code(), "SCHEMA_LOAD_FAILED");
    let io = ValidationError::Io { code: "IO_RENAME_FAILED", path: None, message: "m".to_string() };
    assert_eq!(io.category(), ErrorCategory::Io);
    assert_eq!(io.code(), "IO_RENAME_FAILED");
}

#[test]
fn semantic_constructor_has_no_coordinates() {
    match ValidationError::semantic("TITAN_KERNEL_UNKNOWN", "msg".to_string()) {
        ValidationError::Semantic { code, row, column, message, details } => {
            assert_eq!(code, "TITAN_KERNEL_UNKNOWN");
            assert_eq!((row, column), (0, 0));
            assert_eq!(message, "msg");
            assert!(details.is_empty());
        }
        other => panic!("unexpected {:?}", other),
    }
}
