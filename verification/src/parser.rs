//! Reading Hack assembly: cleaning source lines, and taking each instruction
//! apart into its type and fields.
use vstd::prelude::*;
use vstd::string::*;
use crate::text::{
    char_is_white, comment_from, find_char, find_comment, index_from, is_white,
    lemma_comment_from_first, lemma_index_from_first, lemma_without_white,
    lemma_without_white_is_filter, without_white,
};

verus! {

/// The three kinds of line in Hack assembly.
#[derive(Debug, PartialEq, Eq, Structural, Clone, Copy)]
pub enum InstructionType {
    /// An A-instruction, `@value` or `@symbol`.
    A,
    /// A C-instruction, `dest=comp;jump` where dest and jump may be left out.
    C,
    /// A label, `(LABEL)`: it marks an address and produces no code.
    L,
}

/// What a source line holds once its comment (from the first `//` on) and
/// all its white space are removed; `None` where nothing is left.
pub open spec fn clean(line: Seq<char>) -> Option<Seq<char>> {
    let code = without_white(line.take(comment_from(line, 0)));
    if code.len() == 0 {
        None
    } else {
        Some(code)
    }
}

/// The instructions of a source: each line cleaned, empty ones dropped, in order.
pub open spec fn program(source: Seq<Seq<char>>) -> Seq<Seq<char>>
    decreases source.len(),
{
    if source.len() == 0 {
        Seq::empty()
    } else {
        let rest = program(source.drop_last());
        match clean(source.last()) {
            Some(code) => rest.push(code),
            None => rest,
        }
    }
}

/// The kind of an instruction, told by its first character.
pub open spec fn kind_of(ins: Seq<char>) -> InstructionType {
    if ins.len() > 0 && ins[0] == '@' {
        InstructionType::A
    } else if ins.len() > 0 && ins[0] == '(' {
        InstructionType::L
    } else {
        InstructionType::C
    }
}

/// Whether the symbol of an A-instruction or label can be cut out of `ins`:
/// a label needs at least two characters, and its last one must be ASCII.
pub open spec fn symbol_defined(ins: Seq<char>) -> bool {
    match kind_of(ins) {
        InstructionType::A => true,
        InstructionType::L => ins.len() >= 2 && (ins.last() as u32) < 128,
        InstructionType::C => false,
    }
}

/// The symbol of an A-instruction (all after `@`) or a label (all between the
/// first and the last character).
pub open spec fn symbol_of(ins: Seq<char>) -> Seq<char> {
    if kind_of(ins) == InstructionType::A {
        ins.subrange(1, ins.len() as int)
    } else {
        ins.subrange(1, ins.len() - 1)
    }
}

/// The dest field of a C-instruction: what stands before its first `=`.
pub open spec fn dest_field(ins: Seq<char>) -> Option<Seq<char>> {
    let i = index_from(ins, '=', 0);
    if kind_of(ins) != InstructionType::C || i >= ins.len() {
        None
    } else {
        Some(ins.take(i))
    }
}

/// The comp field of a C-instruction: what stands before its first `;`, less
/// all up to and including the first `=` there.
pub open spec fn comp_field(ins: Seq<char>) -> Option<Seq<char>> {
    let before = ins.take(index_from(ins, ';', 0));
    let i = index_from(before, '=', 0);
    if kind_of(ins) != InstructionType::C {
        None
    } else if i < before.len() {
        Some(before.skip(i + 1))
    } else {
        Some(before)
    }
}

/// The jump field of a C-instruction: what stands after its first `;`.
pub open spec fn jump_field(ins: Seq<char>) -> Option<Seq<char>> {
    let j = index_from(ins, ';', 0);
    if kind_of(ins) != InstructionType::C || j >= ins.len() {
        None
    } else {
        Some(ins.skip(j + 1))
    }
}

/// The characters of each string in `v`.
pub open spec fn views(v: Seq<String>) -> Seq<Seq<char>> {
    v.map_values(|s: String| s@)
}

/// The characters of an optional string slice.
pub open spec fn opt_view(o: Option<&str>) -> Option<Seq<char>> {
    match o {
        Some(s) => Some(s@),
        None => None,
    }
}

/// What one call of `advance` does, taking the parser from `before` to
/// `after` and returning `r`: where an instruction is left, it takes it and
/// returns `true`; otherwise it clears the current instruction and returns
/// `false`. The instructions never change.
pub open spec fn advance_step(before: Parser, after: Parser, r: bool) -> bool {
    &&& after.lines() == before.lines()
    &&& r == (before.position() < before.lines().len())
    &&& r ==> after.position() == before.position() + 1
    &&& r ==> after.current() == Some(before.lines()[before.position() as int])
    &&& !r ==> after.position() == before.position()
    &&& !r ==> after.current() is None
}

/// Steps through the instructions of a program, one at a time.
pub struct Parser {
    lines: Vec<String>,
    current_line: usize,
    current_instruction: Option<String>,
}

impl Parser {
    /// The instructions, in order.
    pub closed spec fn lines(&self) -> Seq<Seq<char>> {
        views(self.lines@)
    }

    /// How many instructions have been taken so far.
    pub closed spec fn position(&self) -> usize {
        self.current_line
    }

    /// The instruction taken last, if any.
    pub closed spec fn current(&self) -> Option<Seq<char>> {
        match self.current_instruction {
            Some(s) => Some(s@),
            None => None,
        }
    }

    /// Removes the comment (from the first `//` on) and all white space from
    /// a line; `None` where nothing is left.
    pub fn clean_line(line: &str) -> (r: Option<String>)
        ensures
            match r {
                Some(s) => clean(line@) == Some(s@),
                None => clean(line@) is None,
            },
    {
        let end = find_comment(line);
        let ghost code = line@.take(end as int);
        let mut out = String::new();
        let mut count: usize = 0;
        let mut i: usize = 0;
        while i < end
            invariant
                end <= line@.len(),
                code == line@.take(end as int),
                i <= end,
                out@ == without_white(code.take(i as int)),
                count == out@.len(),
                count <= i,
            decreases end - i,
        {
            let c = line.get_char(i);
            assert(code.take(i + 1).drop_last() =~= code.take(i as int));
            if !char_is_white(c) {
                let piece = line.substring_char(i, i + 1);
                out.append(piece);
                count = count + 1;
            }
            i = i + 1;
        }
        assert(code.take(end as int) =~= code);
        if count == 0 {
            None
        } else {
            Some(out)
        }
    }

    /// A parser over the instructions of `source`, one string per line, before
    /// the first of them.
    pub fn from_lines(source: &Vec<String>) -> (p: Parser)
        ensures
            p.lines() == program(views(source@)),
            p.position() == 0,
            p.current() is None,
    {
        let mut cleaned: Vec<String> = Vec::new();
        let n = source.len();
        for i in 0..n
            invariant
                n == source@.len(),
                views(cleaned@) == program(views(source@).take(i as int)),
        {
            let ghost before = cleaned@;
            assert(views(source@).take(i + 1).drop_last() =~= views(source@).take(i as int));
            match Self::clean_line(source[i].as_str()) {
                Some(code) => {
                    cleaned.push(code);
                    assert(views(cleaned@) =~= views(before).push(code@));
                },
                None => {},
            }
        }
        assert(views(source@).take(n as int) =~= views(source@));
        Parser { lines: cleaned, current_line: 0, current_instruction: None }
    }

    /// Whether instructions are left to take.
    pub fn has_more_lines(&self) -> (r: bool)
        ensures
            r == (self.position() < self.lines().len()),
    {
        self.current_line < self.lines.len()
    }

    /// Takes the next instruction and makes it the current one; where none is
    /// left, clears the current instruction and returns `false`.
    pub fn advance(&mut self) -> (r: bool)
        ensures
            advance_step(*old(self), *final(self), r),
    {
        if self.current_line < self.lines.len() {
            self.current_instruction = Some(self.lines[self.current_line].clone());
            self.current_line = self.current_line + 1;
            true
        } else {
            self.current_instruction = None;
            false
        }
    }

    /// The kind of the current instruction.
    pub fn instruction_type(&self) -> (t: InstructionType)
        requires
            self.current() is Some,
        ensures
            t == kind_of(self.current()->0),
    {
        match &self.current_instruction {
            Some(ins) => {
                let s = ins.as_str();
                if s.unicode_len() == 0 {
                    InstructionType::C
                } else {
                    let c = s.get_char(0);
                    if c == '@' {
                        InstructionType::A
                    } else if c == '(' {
                        InstructionType::L
                    } else {
                        InstructionType::C
                    }
                }
            },
            None => InstructionType::C,
        }
    }

    /// The symbol or number of the current A-instruction (after `@`), or the
    /// name of the current label (between the brackets).
    pub fn symbol(&self) -> (sym: &str)
        requires
            self.current() is Some,
            symbol_defined(self.current()->0),
        ensures
            sym@ == symbol_of(self.current()->0),
    {
        let t = self.instruction_type();
        match &self.current_instruction {
            Some(ins) => {
                let s = ins.as_str();
                let n = s.unicode_len();
                match t {
                    InstructionType::A => s.substring_char(1, n),
                    _ => s.substring_char(1, n - 1),
                }
            },
            None => "",
        }
    }

    /// The position of the current instruction among all instructions.
    pub(crate) fn instruction_index(&self) -> (i: usize)
        requires
            self.position() > 0,
        ensures
            i == self.position() - 1,
    {
        self.current_line - 1
    }

    /// A copy of the current instruction.
    pub(crate) fn current_text(&self) -> (s: String)
        requires
            self.current() is Some,
        ensures
            s@ == self.current()->0,
    {
        match &self.current_instruction {
            Some(ins) => ins.clone(),
            None => String::new(),
        }
    }

    /// Whether the symbol of the current instruction can be cut out of it.
    pub(crate) fn symbol_is_defined(&self) -> (r: bool)
        requires
            self.current() is Some,
        ensures
            r == symbol_defined(self.current()->0),
            kind_of(self.current()->0) == InstructionType::A ==> r,
            bracketed(self.current()->0) ==> r,
    {
        proof {
            lemma_bracketed_label(self.current()->0);
        }
        let t = self.instruction_type();
        match &self.current_instruction {
            Some(ins) => {
                let s = ins.as_str();
                let n = s.unicode_len();
                match t {
                    InstructionType::A => true,
                    InstructionType::L => n >= 2 && (s.get_char(n - 1) as u32) < 128,
                    InstructionType::C => false,
                }
            },
            None => false,
        }
    }

    /// The dest mnemonic of the current C-instruction, where it has one.
    pub fn dest(&self) -> (d: Option<&str>)
        requires
            self.current() is Some,
        ensures
            opt_view(d) == dest_field(self.current()->0),
    {
        match self.instruction_type() {
            InstructionType::C => {},
            _ => return None,
        }
        match &self.current_instruction {
            Some(ins) => {
                let s = ins.as_str();
                let i = find_char(s, '=');
                if i < s.unicode_len() {
                    Some(s.substring_char(0, i))
                } else {
                    None
                }
            },
            None => None,
        }
    }

    /// The comp mnemonic of the current C-instruction; `None` for other kinds.
    pub fn comp(&self) -> (c: Option<&str>)
        requires
            self.current() is Some,
        ensures
            opt_view(c) == comp_field(self.current()->0),
    {
        match self.instruction_type() {
            InstructionType::C => {},
            _ => return None,
        }
        match &self.current_instruction {
            Some(ins) => {
                let s = ins.as_str();
                let j = find_char(s, ';');
                let before = s.substring_char(0, j);
                let i = find_char(before, '=');
                let n = before.unicode_len();
                if i < n {
                    Some(before.substring_char(i + 1, n))
                } else {
                    Some(before)
                }
            },
            None => None,
        }
    }

    /// The jump mnemonic of the current C-instruction, where it has one.
    pub fn jump(&self) -> (j: Option<&str>)
        requires
            self.current() is Some,
        ensures
            opt_view(j) == jump_field(self.current()->0),
    {
        match self.instruction_type() {
            InstructionType::C => {},
            _ => return None,
        }
        match &self.current_instruction {
            Some(ins) => {
                let s = ins.as_str();
                let j = find_char(s, ';');
                let n = s.unicode_len();
                if j < n {
                    Some(s.substring_char(j + 1, n))
                } else {
                    None
                }
            },
            None => None,
        }
    }
}

/// A cleaned line is never empty and holds no white space.
pub proof fn lemma_clean_shape(line: Seq<char>)
    ensures
        clean(line) matches Some(c) ==> c.len() > 0 && forall|i: int|
            0 <= i < c.len() ==> !is_white(#[trigger] c[i]),
{
    lemma_without_white(line.take(comment_from(line, 0)));
}

/// Cleaning keeps, in order, exactly the characters that are not white
/// space among those before the first `//` (the whole line where it has
/// none), and gives `None` where none is kept.
pub proof fn lemma_clean_keeps(line: Seq<char>)
    ensures
        ({
            let k = comment_from(line, 0);
            let kept = line.take(k).filter(|c: char| !is_white(c));
            &&& 0 <= k <= line.len()
            &&& k < line.len() ==> line[k] == '/' && line[k + 1] == '/'
            &&& forall|j: int| 0 <= j < k && j + 1 < line.len() ==> !(#[trigger] line[j] == '/'
                && line[j + 1] == '/')
            &&& clean(line) == if kept.len() == 0 {
                None
            } else {
                Some(kept)
            }
        }),
{
    lemma_comment_from_first(line, 0);
    lemma_without_white_is_filter(line.take(comment_from(line, 0)));
}

/// Every instruction of a program is a cleaned line: not empty, and without
/// white space.
pub proof fn lemma_program_shape(source: Seq<Seq<char>>)
    ensures
        forall|i: int|
            0 <= i < program(source).len() ==> {
                let c = #[trigger] program(source)[i];
                &&& c.len() > 0
                &&& forall|j: int| 0 <= j < c.len() ==> !is_white(#[trigger] c[j])
            },
    decreases source.len(),
{
    if source.len() > 0 {
        lemma_program_shape(source.drop_last());
        lemma_clean_shape(source.last());
        let rest = program(source.drop_last());
        assert forall|i: int| 0 <= i < program(source).len() implies {
            let c = #[trigger] program(source)[i];
            &&& c.len() > 0
            &&& forall|j: int| 0 <= j < c.len() ==> !is_white(#[trigger] c[j])
        } by {
            if i < rest.len() {
                assert(program(source)[i] == rest[i]);
            }
        }
    }
}

proof fn lemma_advance_positions(source: Seq<Seq<char>>, states: Seq<Parser>, results: Seq<bool>, k: int)
    requires
        states.len() == results.len() + 1,
        states[0].lines() == program(source),
        states[0].position() == 0,
        forall|j: int|
            0 <= j < results.len() ==> advance_step(states[j], states[j + 1], #[trigger] results[j]),
        0 <= k < states.len(),
    ensures
        states[k].lines() == program(source),
        states[k].position() == if k < program(source).len() {
            k
        } else {
            program(source).len() as int
        },
    decreases k,
{
    if k > 0 {
        lemma_advance_positions(source, states, results, k - 1);
        assert(advance_step(states[k - 1], states[k], results[k - 1]));
    }
}

/// A parser fresh from `from_lines` over `source` takes its instructions one
/// by one. Of a run of `advance` calls, the `j`-th (counting from 0) returns
/// `true` exactly when `j` is below the number `n` of cleaned lines, and
/// then makes the `j`-th of them current; every call after the first `n`
/// returns `false` and leaves no current instruction. After `j` calls the
/// parser stands at `min(j, n)`, so `has_more_lines` there is `j < n`, and
/// `while parser.advance() { .. }` runs its body exactly `n` times.
pub proof fn lemma_advance_run(source: Seq<Seq<char>>, states: Seq<Parser>, results: Seq<bool>)
    requires
        states.len() == results.len() + 1,
        states[0].lines() == program(source),
        states[0].position() == 0,
        forall|j: int|
            0 <= j < results.len() ==> advance_step(states[j], states[j + 1], #[trigger] results[j]),
    ensures
        forall|j: int|
            0 <= j < states.len() ==> (#[trigger] states[j]).lines() == program(source)
                && states[j].position() == if j < program(source).len() {
                j
            } else {
                program(source).len() as int
            } && (states[j].position() < states[j].lines().len()) == (j < program(source).len()),
        forall|j: int|
            0 <= j < results.len() ==> #[trigger] results[j] == (j < program(source).len()),
        forall|j: int|
            0 <= j < results.len() && j < program(source).len() ==> #[trigger] states[j + 1].current()
                == Some(program(source)[j]),
        forall|j: int|
            0 <= j < results.len() && j >= program(source).len() ==> #[trigger] states[j
                + 1].current() is None,
{
    let n = program(source).len();
    assert forall|j: int| 0 <= j < states.len() implies (#[trigger] states[j]).lines() == program(
        source,
    ) && states[j].position() == (if j < n {
        j
    } else {
        n as int
    }) && (states[j].position() < states[j].lines().len()) == (j < n) by {
        lemma_advance_positions(source, states, results, j);
    }
    assert forall|j: int| 0 <= j < results.len() implies #[trigger] results[j] == (j < n) by {
        lemma_advance_positions(source, states, results, j);
        assert(advance_step(states[j], states[j + 1], results[j]));
    }
    assert forall|j: int| 0 <= j < results.len() && j < n implies #[trigger] states[j + 1].current()
        == Some(program(source)[j]) by {
        lemma_advance_positions(source, states, results, j);
        assert(advance_step(states[j], states[j + 1], results[j]));
    }
    assert forall|j: int| 0 <= j < results.len() && j >= n implies #[trigger] states[j
        + 1].current() is None by {
        lemma_advance_positions(source, states, results, j);
        assert(advance_step(states[j], states[j + 1], results[j]));
    }
}

proof fn lemma_index_from_take(s: Seq<char>, c: char, k: int, m: int)
    requires
        0 <= m <= k <= s.len(),
    ensures
        index_from(s.take(k), c, m) == if index_from(s, c, m) < k {
            index_from(s, c, m)
        } else {
            k
        },
    decreases k - m,
{
    lemma_index_from_first(s, c, m);
    if m < k {
        assert(s.take(k)[m] == s[m]);
        if s[m] != c {
            lemma_index_from_take(s, c, k, m + 1);
        }
    }
}

/// A C-instruction whose first `=` (if any) comes before its first `;` is
/// taken apart without loss: `dest=comp;jump`, with `dest=` and `;jump`
/// left out where there is no dest or jump, gives back the instruction.
pub proof fn lemma_fields_rebuild(ins: Seq<char>)
    requires
        kind_of(ins) == InstructionType::C,
        index_from(ins, '=', 0) < ins.len() ==> index_from(ins, '=', 0) < index_from(ins, ';', 0),
    ensures
        (match dest_field(ins) {
            Some(d) => d + seq!['='],
            None => Seq::empty(),
        }) + comp_field(ins)->0 + (match jump_field(ins) {
            Some(j) => seq![';'] + j,
            None => Seq::empty(),
        }) == ins,
{
    let ie = index_from(ins, '=', 0);
    let is = index_from(ins, ';', 0);
    lemma_index_from_first(ins, '=', 0);
    lemma_index_from_first(ins, ';', 0);
    lemma_index_from_take(ins, '=', is, 0);
    let before = ins.take(is);
    let d: Seq<char> = match dest_field(ins) {
        Some(d) => d + seq!['='],
        None => Seq::empty(),
    };
    let j: Seq<char> = match jump_field(ins) {
        Some(j) => seq![';'] + j,
        None => Seq::empty(),
    };
    if ie < ins.len() {
        assert(d =~= ins.take(ie + 1));
        assert(comp_field(ins)->0 =~= ins.subrange(ie + 1, is));
    } else {
        assert(d =~= Seq::<char>::empty());
        assert(comp_field(ins)->0 =~= ins.take(is));
    }
    if is < ins.len() {
        assert(j =~= ins.skip(is));
    } else {
        assert(j =~= Seq::<char>::empty());
    }
    assert(d + comp_field(ins)->0 + j =~= ins);
}

/// Whether `ins` is a label written `(` name `)`, the name being anything.
pub open spec fn bracketed(ins: Seq<char>) -> bool {
    ins.len() >= 2 && ins[0] == '(' && ins.last() == ')'
}

/// A label written `(` name `)` is a label whose name can be cut out, and
/// that name is what stands between the brackets.
pub proof fn lemma_bracketed_label(ins: Seq<char>)
    ensures
        bracketed(ins) ==> {
            &&& kind_of(ins) == InstructionType::L
            &&& symbol_defined(ins)
            &&& symbol_of(ins) == ins.subrange(1, ins.len() - 1)
            &&& seq!['('] + symbol_of(ins) + seq![')'] == ins
        },
{
    if bracketed(ins) {
        assert(seq!['('] + ins.subrange(1, ins.len() - 1) + seq![')'] =~= ins);
    }
}

/// The kind of an instruction is told by its first character, and the
/// symbol of an A-instruction is all that follows its `@`.
pub proof fn lemma_a_symbol(ins: Seq<char>)
    ensures
        (kind_of(ins) == InstructionType::A) == (ins.len() > 0 && ins[0] == '@'),
        (kind_of(ins) == InstructionType::L) == (ins.len() > 0 && ins[0] == '('),
        kind_of(ins) == InstructionType::A ==> seq!['@'] + symbol_of(ins) == ins,
{
    if kind_of(ins) == InstructionType::A {
        assert(seq!['@'] + symbol_of(ins) =~= ins);
    }
}

} // verus!
