use flowdmr::scan::{between_parts, find_part, len_upto, same_text, trim, two_words};
use flowdmr::text::{
    chars_of, parse_between, parse_u32, parse_u64, push_decimal, push_hex4, push_signed_decimal,
    string_of,
};

#[test]
fn numbers_are_written_and_read_back() {
    for n in [0u64, 7, 10, 4294967295, 4294967296, u64::MAX] {
        let mut s = String::new();
        push_decimal(&mut s, n);
        assert_eq!(s, n.to_string());
        assert_eq!(parse_u64(&s), Some(n));
        assert_eq!(parse_u32(&s), n.to_string().parse::<u32>().ok());
    }
    for n in [0i64, -1, 99, i32::MIN as i64, i64::MAX, i64::MIN] {
        let mut s = String::from("x");
        push_signed_decimal(&mut s, n);
        assert_eq!(s, format!("x{n}"));
    }
    let mut s = String::new();
    push_hex4(&mut s, 0x0AF9);
    assert_eq!(s, "0AF9");
}

#[test]
fn what_is_no_number_is_refused() {
    for s in ["", "+", "-", "-0", "1 ", " 1", "1a", "\u{0661}", "++1", "18446744073709551616", "+12", "007"] {
        assert_eq!(parse_u64(s), s.parse::<u64>().ok(), "{s}");
    }
    for s in ["", "+", "-", "-0", "-5", "+5", "--5", "32767", "32768", "-32768", "-32769", "00012"] {
        let got = parse_between(&chars_of(s), i16::MIN as i64, i16::MAX as i64);
        assert_eq!(got, s.parse::<i16>().ok().map(|n| n as i64), "{s}");
    }
}

#[test]
fn text_is_cut_like_std_cuts_it() {
    for s in ["", " ", "a", " a b ", "\u{a0}x\u{2003}y\u{3000}", "\u{200b}z", "one\ttwo\r\nthree", "\u{85}q\u{1680}"] {
        let cs = chars_of(s);
        assert_eq!(string_of(trim(&cs)), s.trim(), "{s:?}");
        let (a, b) = two_words(&cs);
        let mut words = s.split_whitespace();
        assert_eq!(a.map(string_of).as_deref(), words.next(), "{s:?}");
        assert_eq!(b.map(string_of).as_deref(), words.next(), "{s:?}");
    }
    for s in ["", "ab", "abab", "xabyabz", "aab", "xxabxx", "ababab"] {
        let cs = chars_of(s);
        let ab = chars_of("ab");
        assert_eq!(string_of(between_parts(&cs, &ab)), s.split("ab").nth(1).unwrap_or(""), "{s}");
        assert_eq!(find_part(&cs, &ab), s.find("ab"), "{s}");
        assert_eq!(len_upto(&cs, 'b'), s.find('b').unwrap_or(s.len()), "{s}");
    }
    assert!(same_text(&chars_of("abc"), "abc"));
    assert!(!same_text(&chars_of("abc"), "abd"));
    assert!(!same_text(&chars_of("abc"), "ab"));
}

#[test]
fn every_white_space_character_is_known() {
    for u in 0..=0x10FFFFu32 {
        if let Some(c) = char::from_u32(u) {
            let s = c.to_string();
            assert_eq!(trim(&chars_of(&s)).is_empty(), c.is_whitespace(), "{u:x}");
        }
    }
}
