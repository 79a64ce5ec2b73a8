use r_os::text::chars_lt;
use r_os::text::chars_vec;
use r_os::text::i64_to_string;
use r_os::text::pad_right;
use r_os::text::split_ws;
use r_os::text::starts_with_str;
use r_os::text::str_eq;
use r_os::text::trim;
use r_os::text::u64_to_string;

#[test]
fn decimal_rendering_exact_values() {
    assert_eq!(u64_to_string(0), "0");
    assert_eq!(u64_to_string(7), "7");
    assert_eq!(u64_to_string(12345), "12345");
    assert_eq!(u64_to_string(u64::MAX), "18446744073709551615");
    assert_eq!(i64_to_string(-42), "-42");
    assert_eq!(i64_to_string(i64::MIN), "-9223372036854775808");
    assert_eq!(i64_to_string(0), "0");
}

#[test]
fn padding_fills_to_width_and_keeps_long_text() {
    assert_eq!(pad_right("ab", 5), "ab   ");
    assert_eq!(pad_right("abcdef", 3), "abcdef");
    assert_eq!(pad_right("", 2), "  ");
}

#[test]
fn whitespace_splitting() {
    assert_eq!(split_ws("  a  bb\tc "), vec!["a", "bb", "c"]);
    assert!(split_ws("   ").is_empty());
    assert_eq!(split_ws("one"), vec!["one"]);
}

#[test]
fn trimming_strips_both_ends_only() {
    assert_eq!(trim("  a b  "), "a b");
    assert_eq!(trim(""), "");
    assert_eq!(trim(" \t\r\n"), "");
}

#[test]
fn string_predicates() {
    assert!(str_eq("abc", "abc"));
    assert!(!str_eq("abc", "abd"));
    assert!(starts_with_str("mkdir /x", "mkdir"));
    assert!(!starts_with_str("mk", "mkdir"));
}

#[test]
fn lexicographic_order_on_characters() {
    assert!(chars_lt(&chars_vec("/a"), &chars_vec("/a/b")));
    assert!(chars_lt(&chars_vec("/a/b"), &chars_vec("/ab")));
    assert!(!chars_lt(&chars_vec("/b"), &chars_vec("/a")));
    assert!(!chars_lt(&chars_vec("x"), &chars_vec("x")));
}
