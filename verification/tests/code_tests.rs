use lib::code::{comp, dest, jump, lookup_comp, lookup_dest, lookup_jump};

#[test]
fn dest_table() {
    assert_eq!(dest(""), "000");
    assert_eq!(dest("M"), "001");
    assert_eq!(dest("D"), "010");
    assert_eq!(dest("MD"), "011");
    assert_eq!(dest("A"), "100");
    assert_eq!(dest("AM"), "101");
    assert_eq!(dest("AD"), "110");
    assert_eq!(dest("AMD"), "111");
}

#[test]
fn dest_alternative_spellings() {
    assert_eq!(dest("DM"), dest("MD"));
    assert_eq!(dest("ADM"), dest("AMD"));
    assert_eq!(dest("DM"), "011");
    assert_eq!(dest("ADM"), "111");
}

#[test]
fn comp_table() {
    let table = [
        ("0", "0101010"), ("1", "0111111"), ("-1", "0111010"), ("D", "0001100"),
        ("A", "0110000"), ("!D", "0001101"), ("!A", "0110001"), ("-D", "0001111"),
        ("-A", "0110011"), ("D+1", "0011111"), ("A+1", "0110111"), ("D-1", "0001110"),
        ("A-1", "0110010"), ("D+A", "0000010"), ("D-A", "0010011"), ("A-D", "0000111"),
        ("D&A", "0000000"), ("D|A", "0010101"), ("M", "1110000"), ("!M", "1110001"),
        ("-M", "1110011"), ("M+1", "1110111"), ("M-1", "1110010"), ("D+M", "1000010"),
        ("D-M", "1010011"), ("M-D", "1000111"), ("D&M", "1000000"), ("D|M", "1010101"),
    ];
    for (m, bits) in table.iter() {
        assert_eq!(comp(m), *bits, "comp {}", m);
        assert_eq!(bits.len(), 7);
    }
}

#[test]
fn comp_doc_examples() {
    assert_eq!(comp("0"), "0101010");
    assert_eq!(comp("D+A"), "0000010");
    assert_eq!(comp("D+M"), "1000010");
}

#[test]
fn jump_table() {
    assert_eq!(jump(""), "000");
    assert_eq!(jump("JGT"), "001");
    assert_eq!(jump("JEQ"), "010");
    assert_eq!(jump("JGE"), "011");
    assert_eq!(jump("JLT"), "100");
    assert_eq!(jump("JNE"), "101");
    assert_eq!(jump("JLE"), "110");
    assert_eq!(jump("JMP"), "111");
}

#[test]
fn unknown_mnemonics_have_no_code() {
    assert_eq!(lookup_dest("X"), None);
    assert_eq!(lookup_dest("MDA"), None);
    assert_eq!(lookup_comp("D+2"), None);
    assert_eq!(lookup_comp(""), None);
    assert_eq!(lookup_comp("A+D"), None);
    assert_eq!(lookup_jump("JUMP"), None);
    assert_eq!(lookup_jump("jmp"), None);
    assert_eq!(lookup_dest("AMD"), Some("111"));
    assert_eq!(lookup_comp("M-D"), Some("1000111"));
    assert_eq!(lookup_jump("JNE"), Some("101"));
}

#[test]
fn comp_codes_are_distinct() {
    let ms = [
        "0", "1", "-1", "D", "A", "!D", "!A", "-D", "-A", "D+1", "A+1", "D-1", "A-1", "D+A", "D-A",
        "A-D", "D&A", "D|A", "M", "!M", "-M", "M+1", "M-1", "D+M", "D-M", "M-D", "D&M", "D|M",
    ];
    for (i, a) in ms.iter().enumerate() {
        for (j, b) in ms.iter().enumerate() {
            if i != j {
                assert_ne!(comp(a), comp(b), "{} and {}", a, b);
            }
        }
    }
}
