use remote_screen::fields::Fields;
use remote_screen::number::{
    decimal_text, hexadecimal_text, parse, parse_u16, parse_u32, parse_usize, NumberError,
};
use remote_screen::text::{
    chars_of, fields_of, has_prefix, has_suffix, lines_of, same_ignoring_case, split_at_char,
    split_at_crlf, text_of, to_lowercase, trimmed,
};

fn texts(parts: Vec<Vec<char>>) -> Vec<String> {
    parts.into_iter().map(|p| p.into_iter().collect()).collect()
}

#[test]
fn texts_are_split_as_std_splits_them() {
    for s in ["", "a", " a  b\t", "a,b,,c", "x\r\ny\n\nz", "\u{a0}ü\u{3000}", "\r\n\r\n", "a\n"] {
        let chars = chars_of(s);
        assert_eq!(text_of(&chars), s);
        assert_eq!(text_of(trimmed(&chars)), s.trim());
        let expected: Vec<String> = s.split(',').map(str::to_owned).collect();
        assert_eq!(texts(split_at_char(&chars, ',')), expected);
        let expected: Vec<String> = s.split("\r\n").map(str::to_owned).collect();
        assert_eq!(texts(split_at_crlf(&chars)), expected);
        let expected: Vec<String> = s.lines().map(str::to_owned).collect();
        assert_eq!(texts(lines_of(&chars)), expected);
        let expected: Vec<String> = s.split_whitespace().map(str::to_owned).collect();
        assert_eq!(texts(fields_of(&chars)), expected);
    }
}

#[test]
fn cases_differ_in_ascii_alone() {
    assert_eq!(text_of(&to_lowercase(&chars_of("CSeq Ü"))), "cseq Ü");
    assert!(same_ignoring_case(&chars_of("aB"), &chars_of("Ab")));
    assert!(!same_ignoring_case(&chars_of("ü"), &chars_of("Ü")));
    assert!(has_prefix(&chars_of("eDP-1"), "eDP-"));
    assert!(has_suffix(&chars_of("a RTSP/1.0"), " RTSP/1.0"));
    assert!(!has_suffix(&chars_of("0"), "1.0"));
}

#[test]
fn numbers_read_back() {
    for n in [0u64, 7, 10, 4711, u64::MAX] {
        assert_eq!(decimal_text(n), n.to_string());
        assert_eq!(parse(&chars_of(&decimal_text(n)), 10, u64::MAX), Ok(n));
    }
    assert_eq!(hexadecimal_text(0xab, 4), "00ab");
    assert_eq!(parse(&chars_of("ff"), 16, u64::MAX), Ok(255));
    assert_eq!(parse(&chars_of("+5"), 10, u64::MAX), Ok(5));
    assert_eq!(
        parse(&chars_of("18446744073709551616"), 10, u64::MAX),
        Err(NumberError::TooLarge)
    );
    assert_eq!(parse_u16(&chars_of("65536")), Err(NumberError::TooLarge));
    assert_eq!(parse_u16(&chars_of("-1")), Err(NumberError::InvalidDigit));
}

#[test]
fn numbers_are_refused_as_the_standard_library_refuses_them() {
    for text in [
        "",
        "+",
        "-",
        "-0",
        "+-1",
        "1 ",
        " 1",
        "x",
        "1x",
        "12345x",
        "65535x",
        "65536x",
        "99999x",
        "x99999",
        "065536",
        "0000000001",
        "4294967295",
        "4294967296",
        "4294967295x",
        "42949672960x",
        "18446744073709551615",
        "18446744073709551616",
        "18446744073709551615x",
        "184467440737095516150x",
        "\u{664}",
        "1\u{e9}",
        "1++",
        "\u{2b}7",
    ] {
        let chars = chars_of(text);
        let shown = |e: NumberError| e.text().to_owned();
        assert_eq!(
            parse_u16(&chars).map_err(shown),
            text.parse::<u16>().map_err(|e| e.to_string()),
            "{text}"
        );
        assert_eq!(
            parse_u32(&chars).map_err(shown),
            text.parse::<u32>().map_err(|e| e.to_string()),
            "{text}"
        );
        assert_eq!(
            parse_usize(&chars).map_err(shown),
            text.parse::<usize>().map_err(|e| e.to_string()),
            "{text}"
        );
        assert_eq!(
            parse(&chars, 10, u64::MAX).map_err(shown),
            text.parse::<u64>().map_err(|e| e.to_string()),
            "{text}"
        );
        assert_eq!(
            parse(&chars, 16, u64::MAX).map_err(shown),
            u64::from_str_radix(text, 16).map_err(|e| e.to_string()),
            "{text}"
        );
    }
}

#[test]
fn later_fields_take_the_place_of_earlier_ones() {
    let mut fields = Fields::new();
    fields.set("a".to_owned(), "1".to_owned());
    fields.set("a".to_owned(), "2".to_owned());
    assert_eq!(fields.get("a"), Some("2"));
    assert_eq!(fields.get("b"), None);
    assert!(fields.has("a"));
    assert_eq!(fields.copied().get("a"), Some("2"));
}
