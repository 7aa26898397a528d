use diet_manager::amount::Amount;
use diet_manager::decimal::{digit_of, push_nat, read_digits, read_nat};
use diet_manager::text::{
    copy_range, find_from, push_all, push_str, split_fields, split_lines, to_chars, to_text,
};

fn chars(text: &str) -> Vec<char> {
    text.chars().collect()
}

fn strings(parts: Vec<Vec<char>>) -> Vec<String> {
    parts.into_iter().map(|p| p.into_iter().collect()).collect()
}

#[test]
fn amounts_are_read_as_decimal_numbers() {
    assert_eq!(Amount::parse("155"), Some(Amount::from_millis(155_000)));
    assert_eq!(Amount::parse("1.5"), Some(Amount::from_millis(1_500)));
    assert_eq!(Amount::parse("-0.25"), Some(Amount::from_millis(-250)));
    assert_eq!(Amount::parse("+3"), Some(Amount::from_millis(3_000)));
    assert_eq!(Amount::parse("0"), Some(Amount::zero()));
    assert_eq!(Amount::parse("-0"), Some(Amount::zero()));
    assert_eq!(Amount::parse(".5"), Some(Amount::from_millis(500)));
    assert_eq!(Amount::parse("5."), Some(Amount::from_millis(5_000)));
    assert_eq!(Amount::parse("007.010"), Some(Amount::from_millis(7_010)));
    assert_eq!(Amount::parse("0.001"), Some(Amount::from_millis(1)));
    assert_eq!(Amount::parse("1"), Some(Amount::one()));
}

#[test]
fn fractional_digits_past_the_third_are_dropped() {
    assert_eq!(Amount::parse("1.23456"), Some(Amount::from_millis(1_234)));
    assert_eq!(Amount::parse("-1.9999"), Some(Amount::from_millis(-1_999)));
    assert_eq!(Amount::parse("0.0009"), Some(Amount::zero()));
}

#[test]
fn texts_that_are_no_numbers_are_refused() {
    for text in ["", ".", "-", "+", "abc", "1,5", "1.2.3", "1e3", " 1", "1 ", "--1", "1-", "1.x", "x.1", "+-1", "٣"] {
        assert_eq!(Amount::parse(text), None, "{:?}", text);
    }
}

#[test]
fn amounts_beyond_the_range_are_refused() {
    assert_eq!(Amount::parse("2147483.647"), Some(Amount::from_millis(i32::MAX)));
    assert_eq!(Amount::parse("2147483.648"), None);
    assert_eq!(Amount::parse("-2147483.648"), Some(Amount::from_millis(i32::MIN)));
    assert_eq!(Amount::parse("-2147483.649"), None);
    assert_eq!(Amount::parse("2147484"), None);
    assert_eq!(Amount::parse("99999999999999999999999999999999"), None);
    assert_eq!(Amount::parse("000000000000000000000000000000001"), Some(Amount::one()));
}

#[test]
fn parse_or_falls_back() {
    assert_eq!(Amount::parse_or("2.5", Amount::zero()), Amount::from_millis(2_500));
    assert_eq!(Amount::parse_or("two", Amount::zero()), Amount::zero());
    assert_eq!(Amount::parse_or("", Amount::one()), Amount::one());
}

#[test]
fn amounts_are_written_without_needless_zeros() {
    assert_eq!(Amount::from_millis(155_000).to_text(), "155");
    assert_eq!(Amount::from_millis(1_500).to_text(), "1.5");
    assert_eq!(Amount::from_millis(-250).to_text(), "-0.25");
    assert_eq!(Amount::from_millis(0).to_text(), "0");
    assert_eq!(Amount::from_millis(5).to_text(), "0.005");
    assert_eq!(Amount::from_millis(50).to_text(), "0.05");
    assert_eq!(Amount::from_millis(1_001).to_text(), "1.001");
    assert_eq!(Amount::from_millis(1_010).to_text(), "1.01");
    assert_eq!(Amount::from_millis(i32::MAX).to_text(), "2147483.647");
    assert_eq!(Amount::from_millis(i32::MIN).to_text(), "-2147483.648");
}

#[test]
fn written_amounts_are_read_back() {
    for millis in [0, 1, -1, 10, 100, 999, 1_000, 1_001, -1_010, 123_456, i32::MAX, i32::MIN, -999_999] {
        let a = Amount::from_millis(millis);
        assert_eq!(Amount::parse(&a.to_text()), Some(a));
        let mut out = vec!['x'];
        a.write(&mut out);
        assert_eq!(out[0], 'x');
        assert_eq!(Amount::read(&out[1..]), Some(a));
    }
}

#[test]
fn amount_sign() {
    assert!(Amount::from_millis(1).is_positive());
    assert!(!Amount::zero().is_positive());
    assert!(!Amount::from_millis(-1).is_positive());
}

#[test]
fn digits_and_naturals() {
    assert_eq!(digit_of(0), '0');
    assert_eq!(digit_of(9), '9');
    let mut out = vec!['#'];
    push_nat(&mut out, 0);
    push_nat(&mut out, 10_203);
    push_nat(&mut out, u64::MAX);
    assert_eq!(out.into_iter().collect::<String>(), "#01020318446744073709551615");
    let s = chars("ab0123x");
    assert_eq!(read_digits(&s, 2, 6, 1_000), Some(123));
    assert_eq!(read_digits(&s, 2, 6, 122), None);
    assert_eq!(read_digits(&s, 2, 7, 1_000), None);
    assert_eq!(read_digits(&s, 3, 3, 1_000), Some(0));
    assert_eq!(read_nat(&chars("42"), 100), Some(42));
    assert_eq!(read_nat(&chars("+42"), 100), Some(42));
    assert_eq!(read_nat(&chars("0042"), 42), Some(42));
    assert_eq!(read_nat(&chars("43"), 42), None);
    assert_eq!(read_nat(&chars(""), 42), None);
    assert_eq!(read_nat(&chars("+"), 42), None);
    assert_eq!(read_nat(&chars("-1"), 42), None);
    assert_eq!(read_nat(&chars("4 2"), 42), None);
    assert_eq!(read_nat(&chars("18446744073709551615"), u64::MAX), Some(u64::MAX));
    assert_eq!(read_nat(&chars("18446744073709551616"), u64::MAX), None);
}

#[test]
fn strings_and_characters() {
    assert_eq!(to_chars("aé,b"), vec!['a', 'é', ',', 'b']);
    assert_eq!(to_chars(""), Vec::<char>::new());
    assert_eq!(to_text(&['a', 'é', 'b']), "aéb");
    assert_eq!(to_text(&[]), "");
    let s = chars("a,b,,c");
    assert_eq!(find_from(&s, ',', 0), 1);
    assert_eq!(find_from(&s, ',', 2), 3);
    assert_eq!(find_from(&s, ',', 5), 6);
    assert_eq!(find_from(&s, ';', 0), 6);
    assert_eq!(copy_range(&s, 2, 5), chars("b,,"));
    let mut out = chars("x");
    push_all(&mut out, &chars("yz"));
    push_str(&mut out, "é!");
    assert_eq!(out, chars("xyzé!"));
}

#[test]
fn fields_are_the_parts_between_separators() {
    assert_eq!(strings(split_fields(&chars("a,b,,c"), ',')), vec!["a", "b", "", "c"]);
    assert_eq!(strings(split_fields(&chars(""), ',')), vec![""]);
    assert_eq!(strings(split_fields(&chars(","), ',')), vec!["", ""]);
    assert_eq!(strings(split_fields(&chars("abc"), ',')), vec!["abc"]);
    assert_eq!(strings(split_fields(&chars("a,"), ',')), vec!["a", ""]);
}

#[test]
fn lines_end_at_line_feeds() {
    assert_eq!(strings(split_lines(&chars("a\nb\n"))), vec!["a", "b"]);
    assert_eq!(strings(split_lines(&chars("a\nb"))), vec!["a", "b"]);
    assert_eq!(strings(split_lines(&chars("a\r\nb\r\n"))), vec!["a", "b"]);
    assert_eq!(strings(split_lines(&chars("a\n\nb"))), vec!["a", "", "b"]);
    assert_eq!(strings(split_lines(&chars(""))), Vec::<String>::new());
    assert_eq!(strings(split_lines(&chars("\n"))), vec![""]);
    assert_eq!(strings(split_lines(&chars("a\rb\r"))), vec!["a\rb\r"]);
    assert_eq!(strings(split_lines(&chars("a\r\r\n"))), vec!["a\r"]);
    for text in ["a\nb\n", "a\r\nb", "\n\n", "x", "", "a\r", "\r\n\r\n"] {
        let expected: Vec<String> = text.lines().map(|l| l.to_string()).collect();
        assert_eq!(strings(split_lines(&chars(text))), expected);
    }
}
