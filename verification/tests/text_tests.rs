use glow_station::number::{float_literal_chars, parse_u8_chars};
use glow_station::text::{chars_of, is_whitespace, trim_chars, u64_to_decimal};

fn chars(s: &str) -> Vec<char> {
    s.chars().collect()
}

#[test]
fn decimal_matches_display() {
    for n in [0u64, 7, 10, 99, 100, 40_000, 1_234_567_890, u64::MAX] {
        assert_eq!(u64_to_decimal(n), n.to_string());
    }
}

#[test]
fn float_literals_follow_f32_from_str() {
    let samples = [
        "3.14", "-3.14", "2.5E10", "2.5e10", "2.5E-10", "5.", ".5", "0.5", "7", "007", "inf", "-inf",
        "+infinity", "NaN", "nan", "InFiNiTy", "", ".", "+", "-", "+.", "e5", "1e", "1e+", "1e+5",
        "1.5e-3", "1..5", "1.5.5", "--1", "+-1", "1 ", " 1", "infinit", "infinityy", "na", "12a",
        "0x10", "1_000", "°5", "25.00", "-12.3", "+0", "1E5", ".e5", "5.e3",
    ];
    for s in samples {
        assert_eq!(
            float_literal_chars(&chars(s)),
            s.parse::<f32>().is_ok(),
            "disagreement on {:?}",
            s
        );
    }
}

#[test]
fn u8_literals_follow_u8_from_str() {
    let samples = [
        "0", "1", "255", "256", "+1", "+", "-1", "-0", "", "001", "0001", "1 ", "a", "12a", "999",
        "100000", "+255", "++1",
    ];
    for s in samples {
        assert_eq!(parse_u8_chars(&chars(s)), s.parse::<u8>().ok(), "disagreement on {:?}", s);
    }
}

#[test]
fn trim_follows_str_trim() {
    for s in ["  a b  ", "\t\r\nx\u{a0}", "", "   ", "no-space", "\u{2003}wide\u{2003}"] {
        let t: String = trim_chars(&chars(s)).into_iter().collect();
        assert_eq!(t, s.trim());
    }
}

#[test]
fn chars_of_keeps_every_character() {
    let s = "Tset=25.0 °C µ";
    assert_eq!(chars_of(s), chars(s));
}

#[test]
fn whitespace_follows_char_is_whitespace() {
    for c in (0u32..=0x10FFFF).filter_map(char::from_u32) {
        assert_eq!(is_whitespace(c), c.is_whitespace(), "disagreement on {:?}", c);
    }
}
