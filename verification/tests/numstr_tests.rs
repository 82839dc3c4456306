use tiddlystore::numstr::{parse_dec_u64, parse_dec_u64_plus, u64_to_dec};

fn chars(s: &str) -> Vec<char> {
    s.chars().collect()
}

fn string(v: Vec<char>) -> String {
    v.into_iter().collect()
}

#[test]
fn parses_plain_decimals() {
    assert_eq!(parse_dec_u64(&chars("0")), Some(0));
    assert_eq!(parse_dec_u64(&chars("123")), Some(123));
    assert_eq!(parse_dec_u64(&chars("18446744073709551615")), Some(u64::MAX));
}

#[test]
fn rejects_what_is_not_a_plain_decimal() {
    assert_eq!(parse_dec_u64(&chars("")), None);
    assert_eq!(parse_dec_u64(&chars("1.5")), None);
    assert_eq!(parse_dec_u64(&chars("-1")), None);
    assert_eq!(parse_dec_u64(&chars("+5")), None);
    assert_eq!(parse_dec_u64(&chars("12a")), None);
    assert_eq!(parse_dec_u64(&chars("18446744073709551616")), None);
    assert_eq!(parse_dec_u64(&chars("99999999999999999999999")), None);
}

#[test]
fn plus_form_matches_rust_parsing() {
    assert_eq!(parse_dec_u64_plus(&chars("+5")), Some(5));
    assert_eq!(parse_dec_u64_plus(&chars("5")), Some(5));
    assert_eq!(parse_dec_u64_plus(&chars("+")), None);
    assert_eq!(parse_dec_u64_plus(&chars("++5")), None);
    // The verified parser agrees with the standard library's.
    for s in ["0", "42", "+7", "", "x", "18446744073709551615", "18446744073709551616"] {
        assert_eq!(parse_dec_u64_plus(&chars(s)), s.parse::<u64>().ok(), "on {:?}", s);
    }
}

#[test]
fn formats_decimals() {
    assert_eq!(string(u64_to_dec(0)), "0");
    assert_eq!(string(u64_to_dec(7)), "7");
    assert_eq!(string(u64_to_dec(1234567890)), "1234567890");
    assert_eq!(string(u64_to_dec(u64::MAX)), "18446744073709551615");
}

#[test]
fn format_then_parse_is_identity() {
    for n in [0u64, 1, 9, 10, 99, 100, 4096, u64::MAX] {
        assert_eq!(parse_dec_u64(&u64_to_dec(n)), Some(n));
    }
}
