use actix_web::param::Params;
use actix_web::router::{is_blank_char, normalize};
use actix_web::text::{
    bytes_eq, chars_of, spells, starts_with, str_eq, str_from, string_of, substring, trim_range,
};

#[test]
fn test_equality_and_prefix() {
    assert!(str_eq("abc", "abc"));
    assert!(!str_eq("abc", "abd"));
    assert!(!str_eq("abc", "ab"));
    assert!(str_eq("", ""));
    assert!(bytes_eq(b"\x00\xff", b"\x00\xff"));
    assert!(starts_with(b"/test/x", b"/test"));
    assert!(starts_with(b"/test", b""));
    assert!(!starts_with(b"/tes", b"/test"));
    assert!(!starts_with(b"/tent", b"/test"));
}

#[test]
fn test_trimming() {
    assert_eq!(trim_range(b"  a b \t\r\n"), (2, 5));
    assert_eq!(trim_range(b"   "), (3, 3));
    assert_eq!(trim_range(b""), (0, 0));
    assert!(spells(b" GzIp", 1, 5, b"gzip"));
    assert!(!spells(b" GzIp", 0, 5, b"gzip"));
    assert!(!spells(b"gzi[", 0, 4, b"gzi{"));
    assert_eq!(normalize("  /app/// "), "/app");
    assert_eq!(normalize("\u{a0}/\u{3000}"), "");
    assert_eq!(normalize("/a /"), "/a ");
    assert!(is_blank_char('\u{2003}'));
    assert!(!is_blank_char('x'));
}

#[test]
fn test_chars_and_slices() {
    assert_eq!(chars_of("héllo"), vec!['h', 'é', 'l', 'l', 'o']);
    assert_eq!(string_of(&['h', 'é', 'l', 'l', 'o'], 1, 4), "éll");
    assert_eq!(string_of(&[], 0, 0), "");
    assert_eq!(str_from("/é/x", 3), "/x");
    assert_eq!(substring("/é/x", 1, 3), "é");
    assert_eq!(substring("abc", 2, 2), "");
}

#[test]
fn test_params() {
    let mut params = Params::new();
    assert!(params.is_empty());
    params.add("a", "1");
    params.add("b", "2");
    params.add("a", "3");
    assert_eq!(params.len(), 3);
    assert_eq!(params.get("a"), Some("1"));
    assert_eq!(params.get("b"), Some("2"));
    assert_eq!(params.get("c"), None);
    params.clear();
    assert!(params.is_empty());
}
