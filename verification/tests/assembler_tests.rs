use lib::assembler::{assemble, first_pass, join_lines, second_pass, FaultKind};
use lib::symbol_table::SymbolTable;

fn lines(src: &[&str]) -> Vec<String> {
    src.iter().map(|s| s.to_string()).collect()
}

const MAX_ASM: &[&str] = &[
    "// Computes R2 = max(R0, R1)",
    "   @R0",
    "   D=M",
    "   @R1",
    "   D=D-M",
    "   @ITSR0",
    "   D;JGT",
    "   @R1",
    "   D=M",
    "   @R2",
    "   M=D",
    "   @END",
    "   0;JMP",
    "(ITSR0)",
    "   @R0",
    "   D=M",
    "   @R2",
    "   M=D",
    "(END)",
    "   @END",
    "   0;JMP",
];

const MAX_HACK: &str = "0000000000000000
1111110000010000
0000000000000001
1111010011010000
0000000000001100
1110001100000001
0000000000000001
1111110000010000
0000000000000010
1110001100001000
0000000000010000
1110101010000111
0000000000000000
1111110000010000
0000000000000010
1110001100001000
0000000000010000
1110101010000111";

#[test]
fn readme_max_program() {
    let out = assemble(&lines(MAX_ASM)).unwrap();
    assert_eq!(out, MAX_HACK);
    assert!(!out.ends_with('\n'));
}

#[test]
fn readme_instruction_examples() {
    assert_eq!(assemble(&lines(&["@17"])).unwrap(), "0000000000010001");
    assert_eq!(assemble(&lines(&["D=A"])).unwrap(), "1110110000010000");
    assert_eq!(assemble(&lines(&["D;JGT"])).unwrap(), "1110001100000001");
    assert_eq!(assemble(&lines(&["M=D+1"])).unwrap(), "1110011111001000");
}

#[test]
fn passes_one_at_a_time() {
    let src = lines(MAX_ASM);
    let mut table = SymbolTable::new();
    let (labels, instructions) = first_pass(&src, &mut table);
    assert_eq!(labels, 2);
    assert_eq!(instructions, 18);
    assert_eq!(table.get_address("ITSR0"), Some(12));
    assert_eq!(table.get_address("END"), Some(16));
    assert_eq!(table.size(), 25);
    let (words, vars) = second_pass(&src, &mut table);
    assert_eq!(vars, 0);
    assert_eq!(words.len(), 18);
    assert_eq!(join_lines(&words), MAX_HACK);
}

#[test]
fn variables_from_sixteen() {
    let src = lines(&["@i", "M=1", "@sum", "M=0", "@i", "D=M", "(LOOP)", "@LOOP", "@j", "@70000", "@-1"]);
    let out = assemble(&src).unwrap();
    let words: Vec<&str> = out.split('\n').collect();
    assert_eq!(words.len(), 10);
    assert_eq!(words[0], "0000000000010000");
    assert_eq!(words[2], "0000000000010001");
    assert_eq!(words[4], "0000000000010000");
    assert_eq!(words[6], "0000000000000110");
    assert_eq!(words[7], "0000000000010010");
    assert_eq!(words[8], "0000000000010011");
    assert_eq!(words[9], "0000000000010100");
    let mut table = SymbolTable::new();
    first_pass(&src, &mut table);
    let (_, vars) = second_pass(&src, &mut table);
    assert_eq!(vars, 5);
    assert_eq!(table.get_address("j"), Some(18));
    assert_eq!(table.get_address("70000"), Some(19));
}

#[test]
fn labels_take_no_room() {
    let out = assemble(&lines(&["(A)", "(B)", "@A", "@B", "(C)", "@C", "0;JMP"])).unwrap();
    assert_eq!(out, "0000000000000000\n0000000000000000\n0000000000000010\n1110101010000111");
}

#[test]
fn last_label_definition_wins() {
    let out = assemble(&lines(&["(X)", "@X", "(X)", "@X"])).unwrap();
    assert_eq!(out, "0000000000000001\n0000000000000001");
}

#[test]
fn every_word_is_sixteen_binary_digits() {
    let out = assemble(&lines(&["@32767", "AMD=D|M;JMP", "@0", "@x", "ADM=!A;JLE", "(L)", "@L"])).unwrap();
    for w in out.split('\n') {
        assert_eq!(w.len(), 16);
        assert!(w.chars().all(|c| c == '0' || c == '1'));
    }
    let words: Vec<&str> = out.split('\n').collect();
    assert_eq!(words.len(), 6);
    assert_eq!(words[0], "0111111111111111");
    assert!(words[1].starts_with("111"));
    assert!(words[4].starts_with("111"));
    for i in [0usize, 2, 3, 5].iter() {
        assert!(words[*i].starts_with('0'));
    }
}

#[test]
fn white_space_inside_instructions() {
    let spaced = assemble(&lines(&["  D = M  // store", "A M = M - 1 ; J G T", "@ 5", "( LOOP )", "@LOOP"])).unwrap();
    let plain = assemble(&lines(&["D=M", "AM=M-1;JGT", "@5", "(LOOP)", "@LOOP"])).unwrap();
    assert_eq!(spaced, plain);
}

#[test]
fn fault_constant_too_large() {
    for c in ["@32768", "@40000", "@65535"].iter() {
        let e = assemble(&lines(&["D=A", c])).unwrap_err();
        assert_eq!(e.kind, FaultKind::AddressTooLarge);
        assert_eq!(e.instruction, 1);
        assert_eq!(e.text, &c[1..]);
    }
    assert!(assemble(&lines(&["@32767"])).is_ok());
}

#[test]
fn empty_source() {
    assert_eq!(assemble(&lines(&[])).unwrap(), "");
    assert_eq!(assemble(&lines(&["// nothing", "   "])).unwrap(), "");
}

#[test]
fn fault_unknown_dest() {
    let e = assemble(&lines(&["@1", "X=D"])).unwrap_err();
    assert_eq!(e.kind, FaultKind::UnknownDest);
    assert_eq!(e.instruction, 1);
    assert_eq!(e.text, "X");
}

#[test]
fn fault_unknown_comp() {
    let e = assemble(&lines(&["D=D+2;JXX"])).unwrap_err();
    assert_eq!(e.kind, FaultKind::UnknownComp);
    assert_eq!(e.instruction, 0);
    assert_eq!(e.text, "D+2");
}

#[test]
fn fault_unknown_jump() {
    let e = assemble(&lines(&["(L)", "D;JXX"])).unwrap_err();
    assert_eq!(e.kind, FaultKind::UnknownJump);
    assert_eq!(e.instruction, 1);
    assert_eq!(e.text, "JXX");
}

#[test]
fn fault_dest_before_comp() {
    let e = assemble(&lines(&["Q=W;E"])).unwrap_err();
    assert_eq!(e.kind, FaultKind::UnknownDest);
    assert_eq!(e.text, "Q");
}

#[test]
fn fault_malformed_label() {
    let e = assemble(&lines(&["@1", "D=A", "(", "X=Y"])).unwrap_err();
    assert_eq!(e.kind, FaultKind::MalformedLabel);
    assert_eq!(e.instruction, 2);
    assert_eq!(e.text, "(");
    let e = assemble(&lines(&["(LOOPé"])).unwrap_err();
    assert_eq!(e.kind, FaultKind::MalformedLabel);
}

#[test]
fn fault_too_many_instructions() {
    let mut src: Vec<String> = Vec::new();
    for _ in 0..65535 {
        src.push("D".to_string());
    }
    assert!(assemble(&src).is_ok());
    src.push("(L)".to_string());
    src.push("@L".to_string());
    let e = assemble(&src).unwrap_err();
    assert_eq!(e.kind, FaultKind::TooManyInstructions);
    assert_eq!(e.instruction, 65536);
}

#[test]
fn fault_variable_address_too_large() {
    let mut src: Vec<String> = Vec::new();
    for i in 0..32752 {
        src.push(format!("@v{:05}", i));
    }
    let mut table = SymbolTable::new();
    first_pass(&src, &mut table);
    let (words, vars) = second_pass(&src, &mut table);
    assert_eq!(vars, 32752);
    assert_eq!(table.get_address("v32751"), Some(32767));
    assert_eq!(words[32751], "0111111111111111");
    src.push("@v00000".to_string());
    src.push("@last".to_string());
    let e = assemble(&src).unwrap_err();
    assert_eq!(e.kind, FaultKind::AddressTooLarge);
    assert_eq!(e.instruction, 32753);
    assert_eq!(e.text, "last");
}

#[test]
fn fault_label_address_too_large() {
    let mut src: Vec<String> = Vec::new();
    for _ in 0..32768 {
        src.push("D".to_string());
    }
    src.push("(FAR)".to_string());
    src.push("@FAR".to_string());
    let e = assemble(&src).unwrap_err();
    assert_eq!(e.kind, FaultKind::AddressTooLarge);
    assert_eq!(e.instruction, 32769);
    assert_eq!(e.text, "FAR");
}

#[test]
fn passes_that_report_faults() {
    let src = lines(MAX_ASM);
    let mut table = SymbolTable::new();
    let (labels, instructions) = lib::assembler::try_first_pass(&src, &mut table).unwrap();
    assert_eq!((labels, instructions), (2, 18));
    let (words, vars) = lib::assembler::try_second_pass(&src, &mut table).unwrap();
    assert_eq!(vars, 0);
    assert_eq!(join_lines(&words), MAX_HACK);

    let bad = lines(&["(OK)", "@OK", "("]);
    let mut table = SymbolTable::new();
    let e = lib::assembler::try_first_pass(&bad, &mut table).unwrap_err();
    assert_eq!(e.kind, FaultKind::MalformedLabel);
    assert_eq!(e.instruction, 2);

    let bad = lines(&["@1", "D=X"]);
    let mut table = SymbolTable::new();
    assert!(lib::assembler::try_first_pass(&bad, &mut table).is_ok());
    let e = lib::assembler::try_second_pass(&bad, &mut table).unwrap_err();
    assert_eq!(e.kind, FaultKind::UnknownComp);
    assert_eq!(e.text, "X");
}
