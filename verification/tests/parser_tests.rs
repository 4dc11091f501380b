use lib::parser::{InstructionType, Parser};

fn lines(src: &[&str]) -> Vec<String> {
    src.iter().map(|s| s.to_string()).collect()
}

#[test]
fn clean_line_doc_examples() {
    assert_eq!(Parser::clean_line("  @2  // Load 2  "), Some("@2".to_string()));
    assert_eq!(Parser::clean_line("  // Just a comment  "), None);
    assert_eq!(Parser::clean_line("   "), None);
    assert_eq!(Parser::clean_line("D=M//x"), Some("D=M".to_string()));
    assert_eq!(Parser::clean_line("\t(LOOP)\r"), Some("(LOOP)".to_string()));
    assert_eq!(Parser::clean_line("/ /"), Some("//".to_string()));
    assert_eq!(Parser::clean_line("  D = M  // store"), Some("D=M".to_string()));
    assert_eq!(Parser::clean_line("A M D = D | M ; J M P"), Some("AMD=D|M;JMP".to_string()));
    assert_eq!(Parser::clean_line("@\u{a0}x\u{3000}y"), Some("@xy".to_string()));
    assert_eq!(Parser::clean_line(""), None);
}

#[test]
fn advance_walks_the_instructions() {
    let mut p = Parser::from_lines(&lines(&["// header", "@2", "", "  D=A // c", "(END)"]));
    assert!(p.has_more_lines());
    assert!(p.advance());
    assert_eq!(p.instruction_type(), InstructionType::A);
    assert_eq!(p.symbol(), "2");
    assert!(p.advance());
    assert_eq!(p.instruction_type(), InstructionType::C);
    assert!(p.advance());
    assert_eq!(p.instruction_type(), InstructionType::L);
    assert_eq!(p.symbol(), "END");
    assert!(!p.has_more_lines());
    assert!(!p.advance());
    assert!(!p.advance());
}

#[test]
fn symbols() {
    let mut p = Parser::from_lines(&lines(&["@sum", "@123", "(LOOP)", "()", "(abc"]));
    p.advance();
    assert_eq!(p.symbol(), "sum");
    p.advance();
    assert_eq!(p.symbol(), "123");
    p.advance();
    assert_eq!(p.symbol(), "LOOP");
    p.advance();
    assert_eq!(p.symbol(), "");
    p.advance();
    assert_eq!(p.symbol(), "ab");
}

#[test]
fn c_instruction_fields() {
    let mut p = Parser::from_lines(&lines(&["D=A", "M=D+1", "D+1;JGT", "0;JMP", "D=D+1;JLE", "D;JGT", "M=D", "AM=M-1", "@x"]));
    p.advance();
    assert_eq!((p.dest(), p.comp(), p.jump()), (Some("D"), Some("A"), None));
    p.advance();
    assert_eq!((p.dest(), p.comp(), p.jump()), (Some("M"), Some("D+1"), None));
    p.advance();
    assert_eq!((p.dest(), p.comp(), p.jump()), (None, Some("D+1"), Some("JGT")));
    p.advance();
    assert_eq!((p.dest(), p.comp(), p.jump()), (None, Some("0"), Some("JMP")));
    p.advance();
    assert_eq!((p.dest(), p.comp(), p.jump()), (Some("D"), Some("D+1"), Some("JLE")));
    p.advance();
    assert_eq!((p.dest(), p.comp(), p.jump()), (None, Some("D"), Some("JGT")));
    p.advance();
    assert_eq!((p.dest(), p.comp(), p.jump()), (Some("M"), Some("D"), None));
    p.advance();
    assert_eq!((p.dest(), p.comp(), p.jump()), (Some("AM"), Some("M-1"), None));
    p.advance();
    assert_eq!((p.dest(), p.comp(), p.jump()), (None, None, None));
}

#[test]
fn odd_c_instructions() {
    let mut p = Parser::from_lines(&lines(&["0;J=X", "A=B=C"]));
    p.advance();
    assert_eq!((p.dest(), p.comp(), p.jump()), (Some("0;J"), Some("0"), Some("J=X")));
    p.advance();
    assert_eq!((p.dest(), p.comp(), p.jump()), (Some("A"), Some("B=C"), None));
}

#[test]
fn cleaned_lines_hold_no_white_space() {
    for line in ["  @2  // Load 2  ", "\tD\t=\tA", "(  LOOP  )", "0 ; JMP", "x\u{2009}y"].iter() {
        let c = Parser::clean_line(line).unwrap();
        assert!(!c.is_empty());
        assert!(!c.chars().any(char::is_whitespace));
    }
}

#[test]
fn advance_runs_once_per_cleaned_line() {
    let src = lines(&["// only a comment", "@1", "   ", "D = A", "(L)", "", "0;JMP // end"]);
    let mut p = Parser::from_lines(&src);
    let mut taken = 0;
    while p.advance() {
        taken += 1;
    }
    let cleaned = src.iter().filter(|l| Parser::clean_line(l).is_some()).count();
    assert_eq!(taken, cleaned);
    assert_eq!(taken, 4);
    assert!(!p.advance());
}

#[test]
fn fields_rebuild_the_instruction() {
    let src = ["D=A", "M=D+1", "D+1;JGT", "0;JMP", "AMD=D|M;JLE", "D", "A=B=C;J", "D;J=K"];
    let mut p = Parser::from_lines(&lines(&src));
    for s in src.iter() {
        p.advance();
        let d = p.dest().map_or(String::new(), |d| format!("{}=", d));
        let j = p.jump().map_or(String::new(), |j| format!(";{}", j));
        let rebuilt = d + p.comp().unwrap() + &j;
        let eq = s.find('=');
        let sc = s.find(';');
        let ordered = match (eq, sc) {
            (Some(e), Some(c)) => e < c,
            _ => true,
        };
        assert_eq!(rebuilt == *s, ordered, "{}", s);
    }
}

#[test]
fn has_more_lines_counts_down() {
    let src = lines(&["@1", "// x", "D=A", "(L)"]);
    let mut p = Parser::from_lines(&src);
    let mut k = 0;
    loop {
        assert_eq!(p.has_more_lines(), k < 3);
        let r = p.advance();
        assert_eq!(r, k < 3);
        if !r {
            break;
        }
        k += 1;
    }
    assert!(!p.advance());
    assert!(!p.has_more_lines());
}
