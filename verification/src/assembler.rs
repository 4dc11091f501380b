//! The two passes of the assembler, and the assembly of a whole source
//! into the text of a `.hack` file.
//!
//! The first pass gives each label the address of the instruction that
//! follows it; the second pass encodes every A- and C-instruction into a
//! 16-bit word, giving each new variable the next free RAM address from 16 on.
use vstd::prelude::*;
use vstd::string::*;
use crate::code::{
    comp_code, dest_code, is_binary, jump_code, lemma_field_widths, lookup_comp, lookup_dest,
    lookup_jump,
};
use crate::parser::{
    bracketed, lemma_bracketed_label, comp_field, dest_field, jump_field, kind_of, program, symbol_defined, symbol_of, views,
    InstructionType, Parser,
};
use crate::symbol_table::{predefined_symbols, SymbolTable};
use crate::text::{
    binary16, decimal_value, is_digit, lemma_binary16_value, lemma_parse_decimal, parse_u16,
    parse_u16_spec, to_binary16,
};

verus! {

/// What stops the assembly of a program.
#[derive(Debug, PartialEq, Eq, Structural, Clone, Copy)]
pub enum FaultKind {
    /// A label whose name cannot be cut out: it is a lone `(`, or its last
    /// character is not ASCII.
    MalformedLabel,
    /// The program has more A- and C-instructions than 16-bit ROM addresses can count.
    TooManyInstructions,
    /// An A-instruction whose address does not fit in the 15 bits that
    /// follow its leading `0`: a constant above 32767, or a label or new
    /// variable whose address would be above 32767.
    AddressTooLarge,
    /// A C-instruction whose dest mnemonic is unknown.
    UnknownDest,
    /// A C-instruction whose comp mnemonic is unknown.
    UnknownComp,
    /// A C-instruction whose jump mnemonic is unknown.
    UnknownJump,
}

/// A fault met while assembling a program.
#[derive(Debug)]
pub struct AsmError {
    /// What went wrong.
    pub kind: FaultKind,
    /// The position of the offending instruction among the program's instructions.
    pub instruction: usize,
    /// The offending text: the mnemonic for the unknown ones, the symbol for
    /// a variable, the whole instruction otherwise.
    pub text: String,
}

/// The dest mnemonic of a C-instruction, empty where it has none.
pub open spec fn dest_or_empty(ins: Seq<char>) -> Seq<char> {
    match dest_field(ins) {
        Some(d) => d,
        None => ""@,
    }
}

/// The jump mnemonic of a C-instruction, empty where it has none.
pub open spec fn jump_or_empty(ins: Seq<char>) -> Seq<char> {
    match jump_field(ins) {
        Some(j) => j,
        None => ""@,
    }
}

/// The comp mnemonic of a C-instruction.
pub open spec fn comp_of(ins: Seq<char>) -> Seq<char> {
    match comp_field(ins) {
        Some(c) => c,
        None => ""@,
    }
}

/// The word of a C-instruction whose mnemonics are all known: `111`, then
/// the comp, dest and jump fields.
pub open spec fn c_word(ins: Seq<char>) -> Seq<char> {
    "111"@ + comp_code(comp_of(ins))->0 + dest_code(dest_or_empty(ins))->0 + jump_code(
        jump_or_empty(ins),
    )->0
}

/// The text that an error carries for a fault of `kind` at instruction `ins`.
pub open spec fn fault_text(kind: FaultKind, ins: Seq<char>) -> Seq<char> {
    match kind {
        FaultKind::UnknownDest => dest_or_empty(ins),
        FaultKind::UnknownComp => comp_of(ins),
        FaultKind::UnknownJump => jump_or_empty(ins),
        FaultKind::AddressTooLarge => symbol_of(ins),
        _ => ins,
    }
}

/// The state after the first pass over `prog`, starting from the table
/// `t0`: the table, the number of A- and C-instructions (the next ROM
/// address) and the number of labels; or the first fault and where it is.
pub open spec fn label_pass(prog: Seq<Seq<char>>, t0: Map<Seq<char>, u16>) -> Result<
    (Map<Seq<char>, u16>, int, int),
    (FaultKind, int),
>
    decreases prog.len(),
{
    if prog.len() == 0 {
        Ok((t0, 0, 0))
    } else {
        match label_pass(prog.drop_last(), t0) {
            Err(f) => Err(f),
            Ok((t, rom, labels)) => {
                let i = prog.len() - 1;
                let ins = prog[i];
                if kind_of(ins) == InstructionType::L {
                    if symbol_defined(ins) {
                        Ok((t.insert(symbol_of(ins), rom as u16), rom, labels + 1))
                    } else {
                        Err((FaultKind::MalformedLabel, i))
                    }
                } else if rom >= 0xffff {
                    Err((FaultKind::TooManyInstructions, i))
                } else {
                    Ok((t, rom + 1, labels))
                }
            },
        }
    }
}

/// The address that an A-instruction's symbol `s` stands for, given the
/// table `t` and the next free variable address `v`.
pub open spec fn a_address(s: Seq<char>, t: Map<Seq<char>, u16>, v: int) -> u16 {
    match parse_u16_spec(s) {
        Some(x) => x,
        None => if t.contains_key(s) {
            t[s]
        } else {
            v as u16
        },
    }
}

/// The state after the second pass over `prog`, starting from the table
/// `t0`: the table, the next free variable address, and the words written
/// so far; or the first fault and where it is.
pub open spec fn code_pass(prog: Seq<Seq<char>>, t0: Map<Seq<char>, u16>) -> Result<
    (Map<Seq<char>, u16>, int, Seq<Seq<char>>),
    (FaultKind, int),
>
    decreases prog.len(),
{
    if prog.len() == 0 {
        Ok((t0, 16, Seq::empty()))
    } else {
        match code_pass(prog.drop_last(), t0) {
            Err(f) => Err(f),
            Ok((t, v, words)) => {
                let i = prog.len() - 1;
                let ins = prog[i];
                match kind_of(ins) {
                    InstructionType::A => {
                        let s = symbol_of(ins);
                        if a_address(s, t, v) >= 0x8000 {
                            Err((FaultKind::AddressTooLarge, i))
                        } else if parse_u16_spec(s) is Some || t.contains_key(s) {
                            Ok((t, v, words.push(binary16(a_address(s, t, v)))))
                        } else {
                            Ok((t.insert(s, v as u16), v + 1, words.push(binary16(v as u16))))
                        }
                    },
                    InstructionType::L => Ok((t, v, words)),
                    InstructionType::C => {
                        if dest_code(dest_or_empty(ins)) is None {
                            Err((FaultKind::UnknownDest, i))
                        } else if comp_code(comp_of(ins)) is None {
                            Err((FaultKind::UnknownComp, i))
                        } else if jump_code(jump_or_empty(ins)) is None {
                            Err((FaultKind::UnknownJump, i))
                        } else {
                            Ok((t, v, words.push(c_word(ins))))
                        }
                    },
                }
            },
        }
    }
}

/// The lines of `words` joined by newlines, with no newline at the end.
pub open spec fn joined_lines(words: Seq<Seq<char>>) -> Seq<char>
    decreases words.len(),
{
    if words.len() == 0 {
        Seq::empty()
    } else if words.len() == 1 {
        words[0]
    } else {
        joined_lines(words.drop_last()) + "\n"@ + words.last()
    }
}

/// What assembling `source` (one string per line) gives: the text of the
/// `.hack` file, or the first fault that stops it.
pub open spec fn assembled(source: Seq<Seq<char>>) -> Result<Seq<char>, (FaultKind, int)> {
    let prog = program(source);
    match label_pass(prog, predefined_symbols()) {
        Err(f) => Err(f),
        Ok((t, _, _)) => match code_pass(prog, t) {
            Err(f) => Err(f),
            Ok((_, _, words)) => Ok(joined_lines(words)),
        },
    }
}

/// Whether `e` describes the fault `f` of `prog`.
pub open spec fn describes(e: AsmError, f: (FaultKind, int), prog: Seq<Seq<char>>) -> bool {
    &&& e.kind == f.0
    &&& e.instruction == f.1
    &&& 0 <= f.1 < prog.len()
    &&& e.text@ == fault_text(f.0, prog[f.1])
}

proof fn lemma_label_pass_fault_in_range(prog: Seq<Seq<char>>, t0: Map<Seq<char>, u16>)
    ensures
        label_pass(prog, t0) matches Err(f) ==> 0 <= f.1 < prog.len(),
        label_pass(prog, t0) matches Ok((t, rom, labels)) ==> 0 <= rom <= 0xffff && 0 <= labels
            <= prog.len() && rom + labels == prog.len(),
    decreases prog.len(),
{
    if prog.len() > 0 {
        lemma_label_pass_fault_in_range(prog.drop_last(), t0);
    }
}

proof fn lemma_code_pass_fault_in_range(prog: Seq<Seq<char>>, t0: Map<Seq<char>, u16>)
    ensures
        code_pass(prog, t0) matches Err(f) ==> 0 <= f.1 < prog.len(),
        code_pass(prog, t0) matches Ok((t, v, words)) ==> 16 <= v <= 0x8000 && words.len()
            <= prog.len(),
    decreases prog.len(),
{
    if prog.len() > 0 {
        lemma_code_pass_fault_in_range(prog.drop_last(), t0);
    }
}

/// The first pass over `source`, stopping at the first fault instead of
/// needing a fault-free source: `Ok` exactly where `first_pass` may be
/// called, with what it gives; otherwise the first fault (the table is then
/// left part way through).
pub fn try_first_pass(source: &Vec<String>, table: &mut SymbolTable) -> (r: Result<(usize, u16), AsmError>)
    ensures
        ({
            let prog = program(views(source@));
            match r {
                Ok((labels, rom)) => label_pass(prog, old(table)@) == Ok::<_, (FaultKind, int)>(
                    (final(table)@, rom as int, labels as int),
                ),
                Err(e) => label_pass(prog, old(table)@) matches Err(f) && describes(e, f, prog),
            }
        }),
{
    let ghost prog = program(views(source@));
    let ghost t0 = table@;
    let mut parser = Parser::from_lines(source);
    let mut rom: u16 = 0;
    let mut labels: usize = 0;
    loop
        invariant
            prog == program(views(source@)),
            t0 == old(table)@,
            parser.lines() == prog,
            0 <= parser.position() <= prog.len(),
            label_pass(prog.take(parser.position() as int), t0) == Ok::<_, (FaultKind, int)>(
                (table@, rom as int, labels as int),
            ),
            labels <= parser.position(),
        decreases prog.len() - parser.position(),
    {
        let ghost i = parser.position() as int;
        if !parser.advance() {
            assert(prog.take(i) =~= prog);
            return Ok((labels, rom));
        }
        let ghost ins = prog[i];
        assert(prog.take(i + 1).drop_last() =~= prog.take(i));
        match parser.instruction_type() {
            InstructionType::L => {
                if !parser.symbol_is_defined() {
                    proof {
                        lemma_label_pass_fault_in_range(prog.take(i + 1), t0);
                        lemma_label_pass_fault_prefix(prog, t0, i + 1);
                    }
                    return Err(
                        AsmError {
                            kind: FaultKind::MalformedLabel,
                            instruction: parser.instruction_index(),
                            text: parser.current_text(),
                        },
                    );
                }
                let label = parser.symbol();
                table.add_entry(String::from_str(label), rom);
                labels = labels + 1;
            },
            _ => {
                if rom == 0xffff {
                    proof {
                        lemma_label_pass_fault_prefix(prog, t0, i + 1);
                    }
                    return Err(
                        AsmError {
                            kind: FaultKind::TooManyInstructions,
                            instruction: parser.instruction_index(),
                            text: parser.current_text(),
                        },
                    );
                }
                rom = rom + 1;
            },
        }
    }
}

/// Once the first pass over a prefix of `prog` has failed, it fails there
/// over all of `prog`.
proof fn lemma_label_pass_fault_prefix(prog: Seq<Seq<char>>, t0: Map<Seq<char>, u16>, k: int)
    requires
        0 <= k <= prog.len(),
        label_pass(prog.take(k), t0) is Err,
    ensures
        label_pass(prog, t0) == label_pass(prog.take(k), t0),
    decreases prog.len() - k,
{
    if k < prog.len() {
        assert(prog.take(k + 1).drop_last() =~= prog.take(k));
        lemma_label_pass_fault_prefix(prog, t0, k + 1);
    } else {
        assert(prog.take(k) =~= prog);
    }
}

/// Once the second pass over a prefix of `prog` has failed, it fails there
/// over all of `prog`.
proof fn lemma_code_pass_fault_prefix(prog: Seq<Seq<char>>, t0: Map<Seq<char>, u16>, k: int)
    requires
        0 <= k <= prog.len(),
        code_pass(prog.take(k), t0) is Err,
    ensures
        code_pass(prog, t0) == code_pass(prog.take(k), t0),
    decreases prog.len() - k,
{
    if k < prog.len() {
        assert(prog.take(k + 1).drop_last() =~= prog.take(k));
        lemma_code_pass_fault_prefix(prog, t0, k + 1);
    } else {
        assert(prog.take(k) =~= prog);
    }
}

/// The second pass over `source`, stopping at the first fault instead of
/// needing a fault-free source: `Ok` exactly where `second_pass` may be
/// called, with what it gives (the words written and the number of
/// variables given an address); otherwise the first fault.
pub fn try_second_pass(source: &Vec<String>, table: &mut SymbolTable) -> (r: Result<
    (Vec<String>, usize),
    AsmError,
>)
    ensures
        ({
            let prog = program(views(source@));
            match r {
                Ok((words, vars)) => code_pass(prog, old(table)@) == Ok::<_, (FaultKind, int)>(
                    (final(table)@, vars + 16, views(words@)),
                ),
                Err(e) => code_pass(prog, old(table)@) matches Err(f) && describes(e, f, prog),
            }
        }),
{
    let ghost prog = program(views(source@));
    let ghost t0 = table@;
    let mut parser = Parser::from_lines(source);
    let mut next_var: u16 = 16;
    let mut vars: usize = 0;
    let mut words: Vec<String> = Vec::new();
    assert(views(words@) =~= Seq::empty());
    loop
        invariant
            prog == program(views(source@)),
            t0 == old(table)@,
            parser.lines() == prog,
            0 <= parser.position() <= prog.len(),
            code_pass(prog.take(parser.position() as int), t0) == Ok::<_, (FaultKind, int)>(
                (table@, next_var as int, views(words@)),
            ),
            vars + 16 == next_var,
        decreases prog.len() - parser.position(),
    {
        let ghost i = parser.position() as int;
        if !parser.advance() {
            assert(prog.take(i) =~= prog);
            return Ok((words, vars));
        }
        let ghost ins = prog[i];
        let ghost before = views(words@);
        assert(prog.take(i + 1).drop_last() =~= prog.take(i));
        proof {
            lemma_code_pass_fault_in_range(prog.take(i + 1), t0);
        }
        match parser.instruction_type() {
            InstructionType::A => {
                let sym = parser.symbol();
                let (address, is_new): (u16, bool) = match parse_u16(sym) {
                    Some(x) => (x, false),
                    None => {
                        if table.contains(sym) {
                            match table.get_address(sym) {
                                Some(a) => (a, false),
                                None => (0, false),
                            }
                        } else {
                            (next_var, true)
                        }
                    },
                };
                if address > 0x7fff {
                    proof {
                        lemma_code_pass_fault_prefix(prog, t0, i + 1);
                    }
                    return Err(
                        AsmError {
                            kind: FaultKind::AddressTooLarge,
                            instruction: parser.instruction_index(),
                            text: String::from_str(sym),
                        },
                    );
                }
                if is_new {
                    table.add_entry(String::from_str(sym), next_var);
                    next_var = next_var + 1;
                    vars = vars + 1;
                }
                let word = to_binary16(address);
                words.push(word);
                assert(views(words@) =~= before.push(word@));
            },
            InstructionType::L => {},
            InstructionType::C => {
                let d = match parser.dest() {
                    Some(d) => d,
                    None => "",
                };
                let c = match parser.comp() {
                    Some(c) => c,
                    None => "",
                };
                let j = match parser.jump() {
                    Some(j) => j,
                    None => "",
                };
                let dest_bits = match lookup_dest(d) {
                    Some(b) => b,
                    None => {
                        proof {
                            lemma_code_pass_fault_prefix(prog, t0, i + 1);
                        }
                        return Err(
                            AsmError {
                                kind: FaultKind::UnknownDest,
                                instruction: parser.instruction_index(),
                                text: String::from_str(d),
                            },
                        );
                    },
                };
                let comp_bits = match lookup_comp(c) {
                    Some(b) => b,
                    None => {
                        proof {
                            lemma_code_pass_fault_prefix(prog, t0, i + 1);
                        }
                        return Err(
                            AsmError {
                                kind: FaultKind::UnknownComp,
                                instruction: parser.instruction_index(),
                                text: String::from_str(c),
                            },
                        );
                    },
                };
                let jump_bits = match lookup_jump(j) {
                    Some(b) => b,
                    None => {
                        proof {
                            lemma_code_pass_fault_prefix(prog, t0, i + 1);
                        }
                        return Err(
                            AsmError {
                                kind: FaultKind::UnknownJump,
                                instruction: parser.instruction_index(),
                                text: String::from_str(j),
                            },
                        );
                    },
                };
                let mut word = String::from_str("111");
                word.append(comp_bits);
                word.append(dest_bits);
                word.append(jump_bits);
                words.push(word);
                assert(views(words@) =~= before.push(word@));
            },
        }
    }
}

/// The first pass: gives each label in `source` the ROM address of the
/// instruction that follows it. Returns the number of labels and the number
/// of A- and C-instructions.
pub fn first_pass(source: &Vec<String>, symbol_table: &mut SymbolTable) -> (counts: (usize, u16))
    requires
        label_pass(program(views(source@)), old(symbol_table)@) is Ok,
    ensures
        label_pass(program(views(source@)), old(symbol_table)@) == Ok::<_, (FaultKind, int)>(
            (final(symbol_table)@, counts.1 as int, counts.0 as int),
        ),
{
    match try_first_pass(source, symbol_table) {
        Ok(counts) => counts,
        Err(_) => (0, 0),
    }
}

/// The second pass: encodes each A- and C-instruction of `source` into
/// a 16-bit word, giving each new variable the next free address from 16 on.
/// Returns the words and the number of variables that were given an address.
pub fn second_pass(source: &Vec<String>, symbol_table: &mut SymbolTable) -> (r: (Vec<String>, usize))
    requires
        code_pass(program(views(source@)), old(symbol_table)@) is Ok,
    ensures
        code_pass(program(views(source@)), old(symbol_table)@) == Ok::<_, (FaultKind, int)>(
            (final(symbol_table)@, r.1 + 16, views(r.0@)),
        ),
{
    match try_second_pass(source, symbol_table) {
        Ok(r) => r,
        Err(_) => (Vec::new(), 0),
    }
}

/// The lines of `words` joined by newlines, with no newline at the end.
pub fn join_lines(words: &Vec<String>) -> (r: String)
    ensures
        r@ == joined_lines(views(words@)),
{
    let mut r = String::new();
    let n = words.len();
    for i in 0..n
        invariant
            n == words@.len(),
            r@ == joined_lines(views(words@).take(i as int)),
    {
        let ghost w = views(words@);
        assert(w.take(i + 1).drop_last() =~= w.take(i as int));
        if i == 0 {
            r.append(words[i].as_str());
            assert(r@ =~= joined_lines(w.take(1)));
        } else {
            r.append("\n");
            r.append(words[i].as_str());
        }
    }
    assert(views(words@).take(n as int) =~= views(words@));
    r
}

/// Assembles `source`, the lines of a Hack assembly file, into the text of
/// the `.hack` file: one 16-character line per A- and C-instruction, joined
/// by newlines. Fails with the first fault met, in the order the two passes
/// meet them.
pub fn assemble(source: &Vec<String>) -> (r: Result<String, AsmError>)
    ensures
        match r {
            Ok(out) => assembled(views(source@)) == Ok::<_, (FaultKind, int)>(out@),
            Err(e) => assembled(views(source@)) matches Err(f) && describes(
                e,
                f,
                program(views(source@)),
            ),
        },
{
    let mut table = SymbolTable::new();
    match try_first_pass(source, &mut table) {
        Ok(_) => {},
        Err(e) => return Err(e),
    }
    match try_second_pass(source, &mut table) {
        Ok((words, _)) => Ok(join_lines(&words)),
        Err(e) => Err(e),
    }
}

/// How many instructions of `prog` are A- or C-instructions, the ones that take a ROM word.
pub open spec fn code_count(prog: Seq<Seq<char>>) -> int
    decreases prog.len(),
{
    if prog.len() == 0 {
        0
    } else {
        code_count(prog.drop_last()) + if kind_of(prog.last()) == InstructionType::L {
            0int
        } else {
            1int
        }
    }
}

proof fn lemma_code_count_take(prog: Seq<Seq<char>>, i: int)
    requires
        0 <= i < prog.len(),
    ensures
        code_count(prog.take(i + 1)) == code_count(prog.take(i)) + if kind_of(prog[i])
            == InstructionType::L {
            0int
        } else {
            1int
        },
        0 <= code_count(prog.take(i)) <= i,
    decreases i,
{
    assert(prog.take(i + 1).drop_last() =~= prog.take(i));
    if i > 0 {
        lemma_code_count_take(prog, i - 1);
    } else {
        assert(prog.take(0).len() == 0);
    }
}

/// The first pass counts every A- and C-instruction and every label, and
/// gives each label the address of the next A- or C-instruction: the number
/// of those that come before it. Where a name is defined as a label more
/// than once, the last definition holds.
pub proof fn lemma_label_addresses(prog: Seq<Seq<char>>, t0: Map<Seq<char>, u16>)
    ensures
        label_pass(prog, t0) matches Ok((t, rom, labels)) ==> {
            &&& rom == code_count(prog)
            &&& labels == prog.len() - code_count(prog)
            &&& forall|i: int|
                #![trigger prog[i]]
                0 <= i < prog.len() && kind_of(prog[i]) == InstructionType::L && (forall|j: int|
                    i < j < prog.len() && kind_of(prog[j]) == InstructionType::L ==> symbol_of(
                        #[trigger] prog[j],
                    ) != symbol_of(prog[i])) ==> t.contains_key(symbol_of(prog[i])) && t[symbol_of(
                    prog[i],
                )] == code_count(prog.take(i))
        },
    decreases prog.len(),
{
    if prog.len() > 0 {
        let n = prog.len() - 1;
        let pre = prog.drop_last();
        lemma_label_addresses(pre, t0);
        lemma_label_pass_fault_in_range(pre, t0);
        if let Ok((t, rom, labels)) = label_pass(prog, t0) {
            assert(prog.take(n) =~= pre);
            lemma_code_count_take(prog, n);
            assert(prog.take(n + 1) =~= prog);
            assert forall|i: int|
                #![trigger prog[i]]
                0 <= i < prog.len() && kind_of(prog[i]) == InstructionType::L && (forall|j: int|
                    i < j < prog.len() && kind_of(prog[j]) == InstructionType::L ==> symbol_of(
                        #[trigger] prog[j],
                    ) != symbol_of(prog[i])) implies t.contains_key(symbol_of(prog[i]))
                && t[symbol_of(prog[i])] == code_count(prog.take(i)) by {
                if i < n {
                    assert(pre[i] == prog[i]);
                    assert forall|j: int|
                        i < j < pre.len() && kind_of(pre[j]) == InstructionType::L implies symbol_of(
                        #[trigger] pre[j],
                    ) != symbol_of(pre[i]) by {
                        assert(pre[j] == prog[j]);
                    }
                    assert(pre.take(i) =~= prog.take(i));
                    if kind_of(prog[n]) == InstructionType::L {
                        assert(symbol_of(prog[n]) != symbol_of(prog[i]));
                    }
                } else {
                    assert(i == n);
                }
            }
        }
    }
}

proof fn lemma_code_count_mono(prog: Seq<Seq<char>>, i: int, j: int)
    requires
        0 <= i <= j <= prog.len(),
    ensures
        code_count(prog.take(i)) <= code_count(prog.take(j)),
    decreases j - i,
{
    if i < j {
        lemma_code_count_take(prog, j - 1);
        lemma_code_count_mono(prog, i, j - 1);
    }
}

/// The word that the second pass writes for the A- or C-instruction `ins`,
/// given the table `t` and the next free variable address `v`.
pub open spec fn word_of(ins: Seq<char>, t: Map<Seq<char>, u16>, v: int) -> Seq<char> {
    if kind_of(ins) == InstructionType::C {
        c_word(ins)
    } else {
        binary16(a_address(symbol_of(ins), t, v))
    }
}

proof fn lemma_code_pass_step(prog: Seq<Seq<char>>, t0: Map<Seq<char>, u16>)
    requires
        prog.len() > 0,
        code_pass(prog, t0) is Ok,
    ensures
        code_pass(prog.drop_last(), t0) matches Ok((t1, v1, words1)) && code_pass(
            prog,
            t0,
        ) matches Ok((t, v, words)) && (if kind_of(prog.last()) == InstructionType::L {
            words == words1
        } else {
            words == words1.push(word_of(prog.last(), t1, v1))
        }) && (kind_of(prog.last()) == InstructionType::A ==> a_address(
            symbol_of(prog.last()),
            t1,
            v1,
        ) < 0x8000),
{
}

proof fn lemma_leading_zero(a: u16)
    requires
        a < 0x8000,
    ensures
        binary16(a)[0] == '0',
{
    assert((a >> 15u16) & 1u16 == 0u16) by (bit_vector)
        requires
            a < 0x8000,
    ;
}

proof fn lemma_word_of_binary(ins: Seq<char>, t: Map<Seq<char>, u16>, v: int)
    requires
        kind_of(ins) != InstructionType::L,
        kind_of(ins) == InstructionType::C ==> {
            &&& dest_code(dest_or_empty(ins)) is Some
            &&& comp_code(comp_of(ins)) is Some
            &&& jump_code(jump_or_empty(ins)) is Some
        },
    ensures
        word_of(ins, t, v).len() == 16,
        is_binary(word_of(ins, t, v)),
{
    let w = word_of(ins, t, v);
    if kind_of(ins) == InstructionType::C {
        let c = comp_code(comp_of(ins))->0;
        let d = dest_code(dest_or_empty(ins))->0;
        let j = jump_code(jump_or_empty(ins))->0;
        lemma_field_widths(comp_of(ins));
        lemma_field_widths(dest_or_empty(ins));
        lemma_field_widths(jump_or_empty(ins));
        reveal_strlit("111");
        assert(w == "111"@ + c + d + j);
        assert forall|k: int| 0 <= k < w.len() implies (#[trigger] w[k] == '0' || w[k] == '1') by {
            if k < 3 {
                assert(w[k] == "111"@[k]);
            } else if k < 10 {
                assert(w[k] == c[k - 3]);
            } else if k < 13 {
                assert(w[k] == d[k - 10]);
            } else {
                assert(w[k] == j[k - 13]);
            }
        }
    } else {
        lemma_binary16_value(a_address(symbol_of(ins), t, v));
    }
}

/// The second pass writes one 16-digit binary word for each A- and
/// C-instruction, and nothing else.
pub proof fn lemma_code_words(prog: Seq<Seq<char>>, t0: Map<Seq<char>, u16>)
    ensures
        code_pass(prog, t0) matches Ok((t, v, words)) ==> {
            &&& words.len() == code_count(prog)
            &&& forall|k: int|
                0 <= k < words.len() ==> (#[trigger] words[k]).len() == 16 && is_binary(words[k])
        },
    decreases prog.len(),
{
    if prog.len() > 0 && code_pass(prog, t0) is Ok {
        let n = prog.len() - 1;
        let pre = prog.drop_last();
        lemma_code_words(pre, t0);
        lemma_code_pass_step(prog, t0);
        assert(prog.take(n) =~= pre);
        assert(prog.take(n + 1) =~= prog);
        lemma_code_count_take(prog, n);
        let (t1, v1, words1) = code_pass(pre, t0)->Ok_0;
        if kind_of(prog.last()) != InstructionType::L {
            lemma_word_of_binary(prog.last(), t1, v1);
        }
    }
}

/// The second pass writes the words in the order of the instructions: the
/// word of the `i`-th instruction, where it is an A- or C-instruction, comes
/// after those of the A- and C-instructions before it. For a C-instruction
/// it is `111` followed by its comp, dest and jump fields; for an
/// A-instruction with a number, that number in binary.
pub proof fn lemma_code_word_order(prog: Seq<Seq<char>>, t0: Map<Seq<char>, u16>)
    ensures
        code_pass(prog, t0) matches Ok((t, v, words)) ==> {
            &&& forall|i: int|
                #![trigger prog[i]]
                0 <= i < prog.len() && kind_of(prog[i]) == InstructionType::C ==> words[code_count(
                    prog.take(i),
                )] == c_word(prog[i])
            &&& forall|i: int|
                #![trigger prog[i]]
                0 <= i < prog.len() && kind_of(prog[i]) == InstructionType::A && parse_u16_spec(
                    symbol_of(prog[i]),
                ) is Some ==> words[code_count(prog.take(i))] == binary16(
                    parse_u16_spec(symbol_of(prog[i]))->0,
                )
        },
    decreases prog.len(),
{
    if prog.len() > 0 && code_pass(prog, t0) is Ok {
        let n = prog.len() - 1;
        let pre = prog.drop_last();
        lemma_code_word_order(pre, t0);
        lemma_code_words(pre, t0);
        lemma_code_pass_step(prog, t0);
        assert(prog.take(n) =~= pre);
        let (t, v, words) = code_pass(prog, t0)->Ok_0;
        let (t1, v1, words1) = code_pass(pre, t0)->Ok_0;
        assert forall|i: int|
            0 <= i < n && kind_of(prog[i]) != InstructionType::L implies #[trigger] words[code_count(
                prog.take(i),
            )] == words1[code_count(prog.take(i))] by {
            assert(pre.take(i) =~= prog.take(i));
            lemma_code_count_take(pre, i);
            lemma_code_count_mono(pre, i + 1, n);
            assert(pre.take(n) =~= pre);
        }
        assert forall|i: int|
            #![trigger prog[i]]
            0 <= i < n implies pre[i] == prog[i] && pre.take(i) =~= prog.take(i) by {}
    }
}

/// The second pass leaves every symbol of the starting table as it was, and
/// gives the variables it meets distinct addresses from 16 up to (not
/// including) the next free one.
pub proof fn lemma_variable_addresses(prog: Seq<Seq<char>>, t0: Map<Seq<char>, u16>)
    ensures
        code_pass(prog, t0) matches Ok((t, v, words)) ==> {
            &&& forall|k: Seq<char>| #[trigger] t0.contains_key(k) ==> t.contains_key(k) && t[k] == t0[k]
            &&& forall|k: Seq<char>|
                #[trigger] t.contains_key(k) && !t0.contains_key(k) ==> 16 <= t[k] < v
            &&& forall|k1: Seq<char>, k2: Seq<char>|
                #[trigger] t.contains_key(k1) && #[trigger] t.contains_key(k2) && !t0.contains_key(k1)
                    && !t0.contains_key(k2) && k1 != k2 ==> t[k1] != t[k2]
        },
    decreases prog.len(),
{
    if prog.len() > 0 {
        lemma_variable_addresses(prog.drop_last(), t0);
        lemma_code_pass_fault_in_range(prog.drop_last(), t0);
    }
}

/// Every A-instruction's word starts with `0`, so that it never reads as a
/// C-instruction: its address fits in the 15 bits after that `0`.
pub proof fn lemma_a_words_start_with_zero(prog: Seq<Seq<char>>, t0: Map<Seq<char>, u16>)
    ensures
        code_pass(prog, t0) matches Ok((t, v, words)) ==> forall|i: int|
            #![trigger prog[i]]
            0 <= i < prog.len() && kind_of(prog[i]) == InstructionType::A ==> words[code_count(
                prog.take(i),
            )][0] == '0',
    decreases prog.len(),
{
    if prog.len() > 0 && code_pass(prog, t0) is Ok {
        let n = prog.len() - 1;
        let pre = prog.drop_last();
        lemma_a_words_start_with_zero(pre, t0);
        lemma_code_words(pre, t0);
        lemma_code_pass_step(prog, t0);
        assert(prog.take(n) =~= pre);
        let (t, v, words) = code_pass(prog, t0)->Ok_0;
        let (t1, v1, words1) = code_pass(pre, t0)->Ok_0;
        if kind_of(prog.last()) == InstructionType::A {
            lemma_leading_zero(a_address(symbol_of(prog.last()), t1, v1));
        }
        assert forall|i: int|
            0 <= i < n && kind_of(prog[i]) != InstructionType::L implies #[trigger] words[code_count(
                prog.take(i),
            )] == words1[code_count(prog.take(i))] by {
            assert(pre.take(i) =~= prog.take(i));
            lemma_code_count_take(pre, i);
            lemma_code_count_mono(pre, i + 1, n);
            assert(pre.take(n) =~= pre);
        }
        assert forall|i: int|
            #![trigger prog[i]]
            0 <= i < n implies pre[i] == prog[i] && pre.take(i) =~= prog.take(i) by {}
    }
}

proof fn lemma_code_pass_unfold(prog: Seq<Seq<char>>, t0: Map<Seq<char>, u16>, i: int)
    requires
        0 <= i < prog.len(),
    ensures
        prog.take(i + 1).drop_last() == prog.take(i),
        prog.take(i + 1).last() == prog[i],
        prog.take(i + 1).len() == i + 1,
{
    assert(prog.take(i + 1).drop_last() =~= prog.take(i));
}

/// An A-instruction whose symbol is no decimal constant and is bound in the
/// table that the second pass starts from: where that address fits in 15
/// bits, the pass goes on past it and writes exactly that address in binary.
pub proof fn lemma_bound_symbol_word(prog: Seq<Seq<char>>, t0: Map<Seq<char>, u16>, i: int)
    requires
        0 <= i < prog.len(),
        kind_of(prog[i]) == InstructionType::A,
        parse_u16_spec(symbol_of(prog[i])) is None,
        t0.contains_key(symbol_of(prog[i])),
        t0[symbol_of(prog[i])] < 0x8000,
        code_pass(prog.take(i), t0) is Ok,
    ensures
        code_pass(prog.take(i + 1), t0) matches Ok((t, v, words)) && words.len() > 0
            && words.last() == binary16(t0[symbol_of(prog[i])]),
{
    lemma_code_pass_unfold(prog, t0, i);
    lemma_variable_addresses(prog.take(i), t0);
}

/// An A-instruction `@n` whose `n` is a numeral of ASCII digits with a value
/// below 32768: the second pass goes on past it and writes that value in binary.
pub proof fn lemma_constant_word(prog: Seq<Seq<char>>, t0: Map<Seq<char>, u16>, i: int)
    requires
        0 <= i < prog.len(),
        kind_of(prog[i]) == InstructionType::A,
        symbol_of(prog[i]).len() > 0,
        forall|k: int|
            0 <= k < symbol_of(prog[i]).len() ==> is_digit(#[trigger] symbol_of(prog[i])[k]),
        decimal_value(symbol_of(prog[i])) < 0x8000,
        code_pass(prog.take(i), t0) is Ok,
    ensures
        code_pass(prog.take(i + 1), t0) matches Ok((t, v, words)) && words.len() > 0
            && words.last() == binary16(decimal_value(symbol_of(prog[i])) as u16),
{
    lemma_code_pass_unfold(prog, t0, i);
    lemma_parse_decimal(symbol_of(prog[i]));
}

/// A C-instruction whose mnemonics are all known: the second pass goes on
/// past it and writes `111`, then the comp code of its comp field, the dest
/// code of its dest field (empty where it has none) and the jump code of its
/// jump field (empty where it has none).
pub proof fn lemma_c_instruction_word(prog: Seq<Seq<char>>, t0: Map<Seq<char>, u16>, i: int)
    requires
        0 <= i < prog.len(),
        kind_of(prog[i]) == InstructionType::C,
        comp_code(comp_field(prog[i])->0) is Some,
        dest_code(
            match dest_field(prog[i]) {
                Some(d) => d,
                None => Seq::empty(),
            },
        ) is Some,
        jump_code(
            match jump_field(prog[i]) {
                Some(j) => j,
                None => Seq::empty(),
            },
        ) is Some,
        code_pass(prog.take(i), t0) is Ok,
    ensures
        code_pass(prog.take(i + 1), t0) matches Ok((t, v, words)) && words.len() > 0
            && words.last() == seq!['1', '1', '1'] + comp_code(comp_field(prog[i])->0)->0 + dest_code(
            match dest_field(prog[i]) {
                Some(d) => d,
                None => Seq::empty(),
            },
        )->0 + jump_code(
            match jump_field(prog[i]) {
                Some(j) => j,
                None => Seq::empty(),
            },
        )->0,
{
    lemma_code_pass_unfold(prog, t0, i);
    reveal_strlit("");
    reveal_strlit("111");
    assert(""@ =~= Seq::<char>::empty());
    assert("111"@ =~= seq!['1', '1', '1']);
}

/// The first pass never stops on a program whose labels are all written
/// `(` name `)` and which has at most 65535 A- and C-instructions: it counts
/// them all, and binds each label to what stands between its brackets.
pub proof fn lemma_first_pass_succeeds(prog: Seq<Seq<char>>, t0: Map<Seq<char>, u16>)
    requires
        forall|i: int|
            0 <= i < prog.len() && kind_of(#[trigger] prog[i]) == InstructionType::L ==> bracketed(
                prog[i],
            ),
        code_count(prog) <= 0xffff,
    ensures
        label_pass(prog, t0) matches Ok((t, rom, labels)) && rom == code_count(prog),
        forall|i: int|
            0 <= i < prog.len() && kind_of(#[trigger] prog[i]) == InstructionType::L ==> symbol_of(
                prog[i],
            ) == prog[i].subrange(1, prog[i].len() - 1),
    decreases prog.len(),
{
    if prog.len() > 0 {
        let n = prog.len() - 1;
        let pre = prog.drop_last();
        assert(prog.take(n) =~= pre);
        assert(prog.take(n + 1) =~= prog);
        lemma_code_count_take(prog, n);
        assert forall|i: int|
            0 <= i < pre.len() && kind_of(#[trigger] pre[i]) == InstructionType::L implies bracketed(
            pre[i],
        ) by {
            assert(pre[i] == prog[i]);
        }
        lemma_first_pass_succeeds(pre, t0);
        lemma_label_addresses(pre, t0);
        lemma_bracketed_label(prog.last());
    }
    assert forall|i: int|
        0 <= i < prog.len() && kind_of(#[trigger] prog[i]) == InstructionType::L implies symbol_of(
        prog[i],
    ) == prog[i].subrange(1, prog[i].len() - 1) by {
        lemma_bracketed_label(prog[i]);
    }
}

/// The second pass adds one name to the table for each variable it gives
/// an address, and nothing else: the next free address is always 16 plus
/// the number of names it has added.
pub proof fn lemma_variable_count(prog: Seq<Seq<char>>, t0: Map<Seq<char>, u16>)
    requires
        t0.dom().finite(),
    ensures
        code_pass(prog, t0) matches Ok((t, v, words)) ==> t.dom().finite() && t.len() == t0.len()
            + v - 16,
    decreases prog.len(),
{
    if prog.len() > 0 {
        lemma_variable_count(prog.drop_last(), t0);
    }
}

/// An A-instruction whose symbol is no decimal constant and is not yet in
/// the table: the next variable address is 16 plus the number of names the
/// second pass has added so far; where it fits in 15 bits, the pass binds
/// the symbol to it and writes it in binary, and otherwise it stops there.
pub proof fn lemma_new_variable_word(prog: Seq<Seq<char>>, t0: Map<Seq<char>, u16>, i: int)
    requires
        t0.dom().finite(),
        0 <= i < prog.len(),
        kind_of(prog[i]) == InstructionType::A,
        parse_u16_spec(symbol_of(prog[i])) is None,
        code_pass(prog.take(i), t0) matches Ok((t, v, w)) && !t.contains_key(symbol_of(prog[i])),
    ensures
        code_pass(prog.take(i), t0) matches Ok((t, v, w)) && {
            let next = 16 + t.len() - t0.len();
            &&& next < 0x8000 ==> (code_pass(prog.take(i + 1), t0) matches Ok((t2, v2, w2)) && t2
                == t.insert(symbol_of(prog[i]), next as u16) && w2 == w.push(binary16(next as u16)))
            &&& next >= 0x8000 ==> code_pass(prog.take(i + 1), t0) == Err::<
                (Map<Seq<char>, u16>, int, Seq<Seq<char>>),
                _,
            >((FaultKind::AddressTooLarge, i))
        },
{
    lemma_code_pass_unfold(prog, t0, i);
    lemma_variable_count(prog.take(i), t0);
    lemma_code_pass_fault_in_range(prog.take(i), t0);
}

/// The `.hack` text puts the 16-digit words one after the other, each but
/// the last followed by a newline: word `k` fills positions `17k` to
/// `17k + 15`, a newline stands at `17k + 16` between words, and nothing
/// follows the last word.
pub proof fn lemma_joined_words(words: Seq<Seq<char>>)
    requires
        forall|k: int| 0 <= k < words.len() ==> (#[trigger] words[k]).len() == 16,
    ensures
        joined_lines(words).len() == if words.len() == 0 {
            0
        } else {
            17 * words.len() - 1
        },
        forall|k: int, j: int|
            0 <= k < words.len() && 0 <= j < 16 ==> joined_lines(words)[17 * k + j] == #[trigger] words[k][j],
        forall|k: int| 0 <= k < words.len() - 1 ==> #[trigger] joined_lines(words)[17 * k + 16] == '\n',
    decreases words.len(),
{
    if words.len() > 1 {
        let pre = words.drop_last();
        lemma_joined_words(pre);
        reveal_strlit("\n");
        assert("\n"@ =~= seq!['\n']);
        let n = words.len();
        let s = joined_lines(words);
        assert(s == joined_lines(pre) + "\n"@ + words.last());
        assert forall|k: int, j: int| 0 <= k < words.len() && 0 <= j < 16 implies s[17 * k + j]
            == #[trigger] words[k][j] by {
            if k < n - 1 {
                assert(pre[k] == words[k]);
            }
        }
        assert forall|k: int| 0 <= k < words.len() - 1 implies #[trigger] s[17 * k + 16] == '\n' by {
            if k < n - 2 {
                assert(s[17 * k + 16] == joined_lines(pre)[17 * k + 16]);
            }
        }
    } else if words.len() == 1 {
        assert forall|k: int, j: int| 0 <= k < words.len() && 0 <= j < 16 implies joined_lines(
            words,
        )[17 * k + j] == #[trigger] words[k][j] by {
            assert(k == 0);
        }
    }
}

/// Assembling a source is the first pass from the predefined symbols (the
/// table that `SymbolTable::new` gives), then the second pass from the
/// table that the first leaves, then the words joined by newlines; the
/// first fault of either pass stops it.
pub proof fn lemma_assemble_is_two_passes(source: Seq<Seq<char>>)
    ensures
        assembled(source) == match label_pass(program(source), predefined_symbols()) {
            Err(f) => Err(f),
            Ok((t, rom, labels)) => match code_pass(program(source), t) {
                Err(f) => Err(f),
                Ok((t2, v, words)) => Ok(joined_lines(words)),
            },
        },
{
}

} // verus!
