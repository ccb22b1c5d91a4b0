use mass_raytrace::number::float_literal;
use mass_raytrace::text::{
    next_line, parse_usize, push_decimal, push_text, same_bytes, space, spells, split_on,
    split_words, trim,
};

fn strings(pieces: Vec<Vec<u8>>) -> Vec<String> {
    pieces.into_iter().map(|p| String::from_utf8(p).unwrap()).collect()
}

#[test]
fn trim_drops_white_space_at_both_ends() {
    assert_eq!(trim(b"  ply \r\n"), (2, 5));
    assert_eq!(trim(b"ply"), (0, 3));
    assert_eq!(trim(b"\t a b \x0b\x0c"), (2, 5));
    let (a, b) = trim(b" \n\t ");
    assert_eq!(a, b);
    let (a, b) = trim(b"");
    assert_eq!((a, b), (0, 0));
}

#[test]
fn trim_agrees_with_the_standard_library_on_ascii() {
    for text in ["", " ", "a", " a", "a ", "  a b  ", "\r\nx\r\n", "\x0bx\x0c", "x\ty"] {
        let (a, b) = trim(text.as_bytes());
        assert_eq!(&text[a..b], text.trim());
    }
}

#[test]
fn split_on_keeps_empty_pieces() {
    assert_eq!(strings(split_on(b"a b  c", b' ')), ["a", "b", "", "c"]);
    assert_eq!(strings(split_on(b"", b' ')), [""]);
    assert_eq!(strings(split_on(b" ", b' ')), ["", ""]);
    assert_eq!(strings(split_on(b"1/2/3", b'/')), ["1", "2", "3"]);
    assert_eq!(strings(split_on(b"1//3", b'/')), ["1", "", "3"]);
    for text in ["", "a", " a", "a ", "a  b", "  ", "a b c"] {
        let expected: Vec<&str> = text.split(' ').collect();
        assert_eq!(strings(split_on(text.as_bytes(), b' ')), expected);
    }
}

#[test]
fn split_words_drops_all_white_space() {
    assert_eq!(strings(split_words(b"  v 1.0\t2.0 \r\n")), ["v", "1.0", "2.0"]);
    assert!(split_words(b" \t\n").is_empty());
    assert!(split_words(b"").is_empty());
    for text in ["", "a", " a", "a ", "a  b", "  ", "f 1/2/3 4/5/6\n"] {
        let expected: Vec<&str> = text.split_whitespace().collect();
        assert_eq!(strings(split_words(text.as_bytes())), expected);
    }
}

#[test]
fn next_line_ends_after_the_line_feed() {
    let text = b"ab\ncd\n\nef";
    assert_eq!(next_line(text, 0), 3);
    assert_eq!(next_line(text, 3), 6);
    assert_eq!(next_line(text, 6), 7);
    assert_eq!(next_line(text, 7), 9);
    assert_eq!(next_line(text, 9), 9);
    assert_eq!(next_line(text, 1), 3);
}

#[test]
fn parse_usize_reads_unsigned_decimals_only() {
    assert_eq!(parse_usize(b"0"), Some(0));
    assert_eq!(parse_usize(b"007"), Some(7));
    assert_eq!(parse_usize(b"+12"), Some(12));
    assert_eq!(parse_usize(b"4294967295"), Some(4294967295));
    assert_eq!(parse_usize(b""), None);
    assert_eq!(parse_usize(b"+"), None);
    assert_eq!(parse_usize(b"-1"), None);
    assert_eq!(parse_usize(b"1.0"), None);
    assert_eq!(parse_usize(b" 1"), None);
    assert_eq!(parse_usize(b"12a"), None);
    assert_eq!(parse_usize(b"++1"), None);
}

#[test]
fn parse_usize_agrees_with_the_standard_library() {
    let max = usize::MAX.to_string();
    let over = format!("{}0", max);
    let next = format!("{}", usize::MAX as u128 + 1);
    for text in ["0", "1", "10", "+5", "-5", "", "+", "-", "x", "18446744073709551615",
        "18446744073709551616", "99999999999999999999999", "0000000000000000000000001",
        max.as_str(), over.as_str(), next.as_str()]
    {
        assert_eq!(parse_usize(text.as_bytes()), text.parse::<usize>().ok(), "{:?}", text);
    }
}

#[test]
fn spells_compares_with_a_word() {
    assert!(spells(b"vertex", "vertex"));
    assert!(!spells(b"vertex ", "vertex"));
    assert!(!spells(b"Vertex", "vertex"));
    assert!(spells(b"", ""));
    assert!(same_bytes(b"abc", b"abc"));
    assert!(!same_bytes(b"abc", b"abd"));
    assert!(!same_bytes(b"abc", b"ab"));
}

#[test]
fn space_is_ascii_white_space() {
    for b in 0..=255u8 {
        assert_eq!(space(b), b < 128 && (b as char).is_whitespace(), "{}", b);
    }
}

#[test]
fn decimals_are_written_and_padded() {
    let mut out = b"n=".to_vec();
    push_decimal(&mut out, 0, 0);
    push_text(&mut out, ",");
    push_decimal(&mut out, 1234567890123, 0);
    push_text(&mut out, ",");
    push_decimal(&mut out, 42, 5);
    push_text(&mut out, ",");
    push_decimal(&mut out, 123456, 5);
    assert_eq!(String::from_utf8(out).unwrap(), "n=0,1234567890123,00042,123456");
    for n in [0u64, 9, 10, 99, 100, 65535, u64::MAX] {
        let mut out = Vec::new();
        push_decimal(&mut out, n, 0);
        assert_eq!(String::from_utf8(out.clone()).unwrap(), n.to_string());
        assert_eq!(parse_usize(&out), Some(n as usize));
    }
}

#[test]
fn float_literal_agrees_with_the_standard_library() {
    let texts = [
        "0", "1", "-1", "+1", "1.", ".5", "-.5", "+.5", ".", "-", "+", "", "1.5", "1.5.5", "1e5",
        "1E5", "1e+5", "1e-5", "1e", "1e+", "e5", ".e5", "1.e5", ".5e5", "1.5e5x", "inf", "-inf",
        "+inf", "Inf", "INF", "infinity", "-Infinity", "iNfInItY", "infinit", "infinityy", "nan",
        "NaN", "-nan", "+NAN", "nane", " 1", "1 ", "1,5", "0x10", "1_000", "--1", "+-1", "1e5.5",
        "00012.500", "1e999", "1e-999", "123456789012345678901234567890", "١", "1.0f", "in",
        "na", "-", "+.", "-.e1", "1ee5", "1e5e5", "૧",
    ];
    for text in texts {
        assert_eq!(
            float_literal(text.as_bytes()),
            text.parse::<f32>().is_ok(),
            "{:?}",
            text
        );
        assert_eq!(
            float_literal(text.as_bytes()),
            text.parse::<f64>().is_ok(),
            "{:?}",
            text
        );
    }
}

#[test]
fn float_literal_agrees_on_every_short_text() {
    let alphabet = b"0+-.eEiInNfFaAtTyY ";
    let mut text: Vec<u8> = Vec::new();
    for a in alphabet.iter() {
        for b in alphabet.iter() {
            for c in alphabet.iter() {
                text.clear();
                text.extend_from_slice(&[*a, *b, *c]);
                for len in 0..=3 {
                    let t = std::str::from_utf8(&text[..len]).unwrap();
                    assert_eq!(float_literal(t.as_bytes()), t.parse::<f32>().is_ok(), "{:?}", t);
                }
            }
        }
    }
}
