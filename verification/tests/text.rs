use seqr::chars::{lines, second_field, strip_prefix, trim, trim_matches};
use seqr::hexcode::{hex_decode, hex_encode, parse_u64};
use seqr::text::{path_join, sort_strings};

#[test]
fn trimming_and_prefixes() {
    assert_eq!(trim("\u{3000} a b \t\n"), "a b");
    assert_eq!(strip_prefix("seqr:ab", "seqr:"), Some("ab"));
    assert_eq!(strip_prefix("seq", "seqr:"), None);
    assert_eq!(trim_matches("\"\"x\"", '"'), "x");
    assert_eq!(second_field("a=b=c", '='), Some("b"));
    assert_eq!(second_field("a=b", '='), Some("b"));
    assert_eq!(second_field("ab", '='), None);
}

#[test]
fn line_splitting() {
    assert_eq!(lines("a\r\nb\n\nc"), vec!["a", "b", "", "c"]);
    assert_eq!(lines("a\n"), vec!["a"]);
    assert_eq!(lines("x\r"), vec!["x\r"]);
    assert!(lines("").is_empty());
}

#[test]
fn hex_and_numbers() {
    assert_eq!(hex_encode(&[0x00, 0xab, 0xff]), "00abff");
    assert_eq!(hex_decode("00ABff"), Some(vec![0x00, 0xab, 0xff]));
    assert_eq!(hex_decode("abc"), None);
    assert_eq!(parse_u64("+42"), Some(42));
    assert_eq!(parse_u64("18446744073709551616"), None);
    assert_eq!(parse_u64(""), None);
}

#[test]
fn paths_and_sorting() {
    assert_eq!(path_join("a/", "b"), "a/b");
    assert_eq!(path_join("a", "/b"), "/b");
    assert_eq!(path_join("", "b"), "b");
    assert_eq!(
        sort_strings(vec!["b".into(), "a".into(), "ab".into()]),
        vec!["a".to_string(), "ab".to_string(), "b".to_string()]
    );
}
