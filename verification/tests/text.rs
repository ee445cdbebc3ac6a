use sendme::text::{bytes_le_exec, contains_char, decimal_string, name_le_exec};
use sendme::vecs::reversed;

#[test]
fn byte_strings_are_ordered_like_words_in_a_dictionary() {
    assert!(bytes_le_exec(b"", b""));
    assert!(bytes_le_exec(b"", b"a"));
    assert!(!bytes_le_exec(b"a", b""));
    assert!(bytes_le_exec(b"abc", b"abc"));
    assert!(bytes_le_exec(b"ab", b"abc"));
    assert!(!bytes_le_exec(b"abc", b"ab"));
    assert!(bytes_le_exec(b"abc", b"abd"));
    assert!(!bytes_le_exec(b"abd", b"abc"));
    assert!(bytes_le_exec(b"a\x7f", b"a\x80"));
    assert!(bytes_le_exec(b"Z", b"a"));
    assert!(!bytes_le_exec(b"b", b"abc"));
}

#[test]
fn names_are_compared_by_their_bytes() {
    assert!(name_le_exec("a", "b"));
    assert!(!name_le_exec("b", "a"));
    assert!(name_le_exec("same", "same"));
    assert!(name_le_exec("z", "é"));
    assert!(!name_le_exec("é", "z"));
    assert!(name_le_exec("\u{ffff}", "\u{10000}"));
    for (a, b) in [("a", "B"), ("x/y", "x.y"), ("", "q"), ("ö", "o")] {
        assert_eq!(name_le_exec(a, b), a <= b);
        assert_eq!(name_le_exec(b, a), b <= a);
    }
}

#[test]
fn a_character_is_found_where_it_stands() {
    assert!(contains_char("a/b", '/'));
    assert!(contains_char("/", '/'));
    assert!(contains_char("ab\\", '\\'));
    assert!(!contains_char("a\\b", '/'));
    assert!(!contains_char("", '/'));
    assert!(contains_char("größe", 'ß'));
    assert!(!contains_char("größe", 's'));
}

#[test]
fn numbers_are_written_in_decimal_digits() {
    assert_eq!(decimal_string(0), "0");
    assert_eq!(decimal_string(7), "7");
    assert_eq!(decimal_string(10), "10");
    assert_eq!(decimal_string(1234567890), "1234567890");
    assert_eq!(decimal_string(1000), "1000");
    assert_eq!(decimal_string(u64::MAX), "18446744073709551615");
}

#[test]
fn a_reversed_vector_hands_out_its_elements_first_to_last() {
    assert_eq!(reversed(vec![1, 2, 3]), vec![3, 2, 1]);
    assert_eq!(reversed(Vec::<u8>::new()), Vec::<u8>::new());
    let mut rest = reversed(vec!["a", "b"]);
    assert_eq!(rest.pop(), Some("a"));
    assert_eq!(rest.pop(), Some("b"));
}
