use rtrs::text::fmt_dec;
use rtrs::text::fmt_hex;
use rtrs::text::fmt_hex_byte;
use rtrs::text::parse_dec;
use rtrs::text::parse_hex;
use rtrs::text::str_eq;
use rtrs::text::tokenize;

#[test]
fn text_tokenize_splits_on_whitespace() {
    assert_eq!(
        tokenize("  a  bb\tc "),
        vec!["a".to_string(), "bb".to_string(), "c".to_string()]
    );
    assert_eq!(tokenize(""), Vec::<String>::new());
    assert_eq!(tokenize("   \t  "), Vec::<String>::new());
    assert_eq!(tokenize("one"), vec!["one".to_string()]);
}

#[test]
fn text_parse_dec_values() {
    assert_eq!(parse_dec("0"), Some(0));
    assert_eq!(parse_dec("123"), Some(123));
    assert_eq!(parse_dec("007"), Some(7));
    assert_eq!(parse_dec(""), None);
    assert_eq!(parse_dec("12a"), None);
    assert_eq!(parse_dec("-3"), None);
    assert_eq!(parse_dec("99999999999999999999999999"), None);
}

#[test]
fn text_parse_hex_values() {
    assert_eq!(parse_hex("ff"), Some(255));
    assert_eq!(parse_hex("FF"), Some(255));
    assert_eq!(parse_hex("0xff"), Some(255));
    assert_eq!(parse_hex("0X10"), Some(16));
    assert_eq!(parse_hex("1000"), Some(4096));
    assert_eq!(parse_hex("0x"), None);
    assert_eq!(parse_hex(""), None);
    assert_eq!(parse_hex("zz"), None);
}

#[test]
fn text_format_numbers() {
    assert_eq!(fmt_dec(0), "0".to_string());
    assert_eq!(fmt_dec(1234), "1234".to_string());
    assert_eq!(fmt_hex(255), "ff".to_string());
    assert_eq!(fmt_hex(4096), "1000".to_string());
    assert_eq!(fmt_hex(0), "0".to_string());
    assert_eq!(fmt_hex_byte(0x0a), "0a".to_string());
    assert_eq!(fmt_hex_byte(0xff), "ff".to_string());
}

#[test]
fn text_round_trips() {
    assert_eq!(parse_dec(&fmt_dec(98765)), Some(98765));
    assert_eq!(parse_hex(&fmt_hex(0xdead)), Some(0xdead));
}

#[test]
fn text_str_eq_compares_contents() {
    assert!(str_eq("abc", "abc"));
    assert!(!str_eq("abc", "abd"));
    assert!(!str_eq("abc", "ab"));
    assert!(str_eq("", ""));
}
