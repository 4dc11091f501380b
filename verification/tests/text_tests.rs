use lib::text::{
    char_is_white, find_char, find_comment, parse_u16, str_eq, str_less, to_binary16,
};

#[test]
fn parse_u16_accepts_what_std_accepts() {
    let cases = [
        "0", "17", "123", "+5", "65535", "65536", "-1", "", "+", "12a", " 1", "007", "-0",
        "99999999999999999999", "0000000000000000000042", "١٢",
    ];
    for s in cases.iter() {
        assert_eq!(parse_u16(s), s.parse::<u16>().ok(), "parse {:?}", s);
    }
}

#[test]
fn parse_u16_values() {
    assert_eq!(parse_u16("123"), Some(123));
    assert_eq!(parse_u16("+5"), Some(5));
    assert_eq!(parse_u16("65536"), None);
    assert_eq!(parse_u16("R0"), None);
}

#[test]
fn binary16_matches_format() {
    for v in [0u16, 1, 2, 5, 16, 17, 255, 256, 16384, 24576, 32767, 32768, 65535].iter() {
        assert_eq!(to_binary16(*v), format!("{:016b}", v));
    }
    assert_eq!(to_binary16(17), "0000000000010001");
}

#[test]
fn binary16_denotes_value() {
    for v in 0u16..=2000 {
        let s = to_binary16(v);
        assert_eq!(s.len(), 16);
        assert_eq!(u16::from_str_radix(&s, 2).unwrap(), v);
    }
}

#[test]
fn white_space_is_unicode_white_space() {
    for c in ['\t', '\n', '\u{b}', '\u{c}', '\r', ' ', '\u{85}', '\u{a0}', '\u{1680}', '\u{2000}',
        '\u{200a}', '\u{2028}', '\u{2029}', '\u{202f}', '\u{205f}', '\u{3000}', 'a', '@', '\u{200b}',
        '\u{feff}', '\u{1f}'].iter() {
        assert_eq!(char_is_white(*c), c.is_whitespace(), "char {:?}", c);
    }
}

#[test]
fn searching() {
    assert_eq!(find_char("D=M;JGT", '='), 1);
    assert_eq!(find_char("D=M;JGT", ';'), 3);
    assert_eq!(find_char("0;JMP", '='), 5);
    assert_eq!(find_comment("@2 // x // y"), 3);
    assert_eq!(find_comment("a/b"), 3);
    assert_eq!(find_comment("///"), 0);
}

#[test]
fn comparisons() {
    assert!(str_eq("LOOP", "LOOP"));
    assert!(!str_eq("LOOP", "LOOP2"));
    assert!(!str_eq("", "a"));
    assert!(str_less("A", "B"));
    assert!(str_less("R1", "R10"));
    assert!(!str_less("R10", "R1"));
    assert!(!str_less("x", "x"));
    assert!(str_less("", "a"));
    assert!(str_less("Z", "a"));
}
