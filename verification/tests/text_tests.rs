use vmasm::text::{chars_of, parse_unsigned, string_of, word_is};

fn chars(s: &str) -> Vec<char> {
    s.chars().collect()
}

#[test]
fn characters_of_a_text_and_back() {
    assert_eq!(chars_of("aé\n"), vec!['a', 'é', '\n']);
    assert_eq!(chars_of(""), Vec::<char>::new());
    assert_eq!(string_of(&['a', 'é', '1']), "aé1".to_string());
    assert_eq!(string_of(&[]), String::new());
}

#[test]
fn word_is_compares_every_character() {
    assert!(word_is(&chars("proc"), "proc"));
    assert!(!word_is(&chars("pro"), "proc"));
    assert!(!word_is(&chars("procs"), "proc"));
    assert!(!word_is(&chars("prac"), "proc"));
    assert!(word_is(&[], ""));
}

#[test]
fn parse_unsigned_reads_decimal() {
    assert_eq!(parse_unsigned(&chars("1234"), 0, 10), Some(1234));
    assert_eq!(parse_unsigned(&chars("+7"), 0, 10), Some(7));
    assert_eq!(parse_unsigned(&chars("x42"), 1, 10), Some(42));
    assert_eq!(parse_unsigned(&chars("18446744073709551615"), 0, 10), Some(u64::MAX));
    assert_eq!(parse_unsigned(&chars("18446744073709551616"), 0, 10), None);
    assert_eq!(parse_unsigned(&chars(""), 0, 10), None);
    assert_eq!(parse_unsigned(&chars("+"), 0, 10), None);
    assert_eq!(parse_unsigned(&chars("1a"), 0, 10), None);
    assert_eq!(parse_unsigned(&chars("12"), 2, 10), None);
}

#[test]
fn parse_unsigned_reads_other_bases() {
    assert_eq!(parse_unsigned(&chars("0xfF"), 2, 16), Some(255));
    assert_eq!(parse_unsigned(&chars("ffffffffffffffff"), 0, 16), Some(u64::MAX));
    assert_eq!(parse_unsigned(&chars("10000000000000000"), 0, 16), None);
    assert_eq!(parse_unsigned(&chars("g"), 0, 16), None);
    assert_eq!(parse_unsigned(&chars("101"), 0, 2), Some(5));
    assert_eq!(parse_unsigned(&chars("102"), 0, 2), None);
    assert_eq!(parse_unsigned(&chars("zz"), 0, 36), Some(35 * 36 + 35));
}
