//! Encoding of C-instruction mnemonics into their binary fields.
//!
//! A C-instruction is laid out as `111a cccccc ddd jjj`: the comp field
//! (seven bits, the `a` bit first), then the dest field (three bits: A, D, M)
//! and the jump field (three bits: less than, equal to, greater than zero).
use vstd::prelude::*;
use crate::text::str_eq;

verus! {

/// The 3-bit dest field for a dest mnemonic, or `None` where the mnemonic is unknown.
/// `DM` and `ADM` are accepted as other spellings of `MD` and `AMD`.
pub open spec fn dest_code(m: Seq<char>) -> Option<Seq<char>> {
    if m == ""@ { Some("000"@) }
    else if m == "M"@ { Some("001"@) }
    else if m == "D"@ { Some("010"@) }
    else if m == "MD"@ { Some("011"@) }
    else if m == "A"@ { Some("100"@) }
    else if m == "AM"@ { Some("101"@) }
    else if m == "AD"@ { Some("110"@) }
    else if m == "AMD"@ { Some("111"@) }
    else if m == "DM"@ { Some("011"@) }
    else if m == "ADM"@ { Some("111"@) }
    else { None }
}

/// The 7-bit comp field (the `a` bit, then c1..c6) for a comp mnemonic,
/// or `None` where the mnemonic is unknown.
pub open spec fn comp_code(m: Seq<char>) -> Option<Seq<char>> {
    if m == "0"@ { Some("0101010"@) }
    else if m == "1"@ { Some("0111111"@) }
    else if m == "-1"@ { Some("0111010"@) }
    else if m == "D"@ { Some("0001100"@) }
    else if m == "A"@ { Some("0110000"@) }
    else if m == "!D"@ { Some("0001101"@) }
    else if m == "!A"@ { Some("0110001"@) }
    else if m == "-D"@ { Some("0001111"@) }
    else if m == "-A"@ { Some("0110011"@) }
    else if m == "D+1"@ { Some("0011111"@) }
    else if m == "A+1"@ { Some("0110111"@) }
    else if m == "D-1"@ { Some("0001110"@) }
    else if m == "A-1"@ { Some("0110010"@) }
    else if m == "D+A"@ { Some("0000010"@) }
    else if m == "D-A"@ { Some("0010011"@) }
    else if m == "A-D"@ { Some("0000111"@) }
    else if m == "D&A"@ { Some("0000000"@) }
    else if m == "D|A"@ { Some("0010101"@) }
    else if m == "M"@ { Some("1110000"@) }
    else if m == "!M"@ { Some("1110001"@) }
    else if m == "-M"@ { Some("1110011"@) }
    else if m == "M+1"@ { Some("1110111"@) }
    else if m == "M-1"@ { Some("1110010"@) }
    else if m == "D+M"@ { Some("1000010"@) }
    else if m == "D-M"@ { Some("1010011"@) }
    else if m == "M-D"@ { Some("1000111"@) }
    else if m == "D&M"@ { Some("1000000"@) }
    else if m == "D|M"@ { Some("1010101"@) }
    else { None }
}

/// The 3-bit jump field for a jump mnemonic, or `None` where the mnemonic is unknown.
pub open spec fn jump_code(m: Seq<char>) -> Option<Seq<char>> {
    if m == ""@ { Some("000"@) }
    else if m == "JGT"@ { Some("001"@) }
    else if m == "JEQ"@ { Some("010"@) }
    else if m == "JGE"@ { Some("011"@) }
    else if m == "JLT"@ { Some("100"@) }
    else if m == "JNE"@ { Some("101"@) }
    else if m == "JLE"@ { Some("110"@) }
    else if m == "JMP"@ { Some("111"@) }
    else { None }
}

/// The dest field for a dest mnemonic, or `None` where the mnemonic is unknown.
pub fn lookup_dest(mnemonic: &str) -> (bits: Option<&'static str>)
    ensures
        match bits {
            Some(b) => dest_code(mnemonic@) == Some(b@),
            None => dest_code(mnemonic@) is None,
        },
{
    if str_eq(mnemonic, "") { Some("000") }
    else if str_eq(mnemonic, "M") { Some("001") }
    else if str_eq(mnemonic, "D") { Some("010") }
    else if str_eq(mnemonic, "MD") { Some("011") }
    else if str_eq(mnemonic, "A") { Some("100") }
    else if str_eq(mnemonic, "AM") { Some("101") }
    else if str_eq(mnemonic, "AD") { Some("110") }
    else if str_eq(mnemonic, "AMD") { Some("111") }
    else if str_eq(mnemonic, "DM") { Some("011") }
    else if str_eq(mnemonic, "ADM") { Some("111") }
    else { None }
}

/// Encodes a dest mnemonic (such as `D`, `AM` or the empty mnemonic) into its 3-bit code.
pub fn dest(mnemonic: &str) -> (bits: &str)
    requires
        dest_code(mnemonic@) is Some,
    ensures
        Some(bits@) == dest_code(mnemonic@),
{
    match lookup_dest(mnemonic) {
        Some(b) => b,
        None => "",
    }
}

/// The comp field for a comp mnemonic, or `None` where the mnemonic is unknown.
pub fn lookup_comp(mnemonic: &str) -> (bits: Option<&'static str>)
    ensures
        match bits {
            Some(b) => comp_code(mnemonic@) == Some(b@),
            None => comp_code(mnemonic@) is None,
        },
{
    if str_eq(mnemonic, "0") { Some("0101010") }
    else if str_eq(mnemonic, "1") { Some("0111111") }
    else if str_eq(mnemonic, "-1") { Some("0111010") }
    else if str_eq(mnemonic, "D") { Some("0001100") }
    else if str_eq(mnemonic, "A") { Some("0110000") }
    else if str_eq(mnemonic, "!D") { Some("0001101") }
    else if str_eq(mnemonic, "!A") { Some("0110001") }
    else if str_eq(mnemonic, "-D") { Some("0001111") }
    else if str_eq(mnemonic, "-A") { Some("0110011") }
    else if str_eq(mnemonic, "D+1") { Some("0011111") }
    else if str_eq(mnemonic, "A+1") { Some("0110111") }
    else if str_eq(mnemonic, "D-1") { Some("0001110") }
    else if str_eq(mnemonic, "A-1") { Some("0110010") }
    else if str_eq(mnemonic, "D+A") { Some("0000010") }
    else if str_eq(mnemonic, "D-A") { Some("0010011") }
    else if str_eq(mnemonic, "A-D") { Some("0000111") }
    else if str_eq(mnemonic, "D&A") { Some("0000000") }
    else if str_eq(mnemonic, "D|A") { Some("0010101") }
    else if str_eq(mnemonic, "M") { Some("1110000") }
    else if str_eq(mnemonic, "!M") { Some("1110001") }
    else if str_eq(mnemonic, "-M") { Some("1110011") }
    else if str_eq(mnemonic, "M+1") { Some("1110111") }
    else if str_eq(mnemonic, "M-1") { Some("1110010") }
    else if str_eq(mnemonic, "D+M") { Some("1000010") }
    else if str_eq(mnemonic, "D-M") { Some("1010011") }
    else if str_eq(mnemonic, "M-D") { Some("1000111") }
    else if str_eq(mnemonic, "D&M") { Some("1000000") }
    else if str_eq(mnemonic, "D|M") { Some("1010101") }
    else { None }
}

/// Encodes a comp mnemonic (such as `D+1` or `M`) into its 7-bit code, `a` bit first.
pub fn comp(mnemonic: &str) -> (bits: &str)
    requires
        comp_code(mnemonic@) is Some,
    ensures
        Some(bits@) == comp_code(mnemonic@),
{
    match lookup_comp(mnemonic) {
        Some(b) => b,
        None => "",
    }
}

/// The jump field for a jump mnemonic, or `None` where the mnemonic is unknown.
pub fn lookup_jump(mnemonic: &str) -> (bits: Option<&'static str>)
    ensures
        match bits {
            Some(b) => jump_code(mnemonic@) == Some(b@),
            None => jump_code(mnemonic@) is None,
        },
{
    if str_eq(mnemonic, "") { Some("000") }
    else if str_eq(mnemonic, "JGT") { Some("001") }
    else if str_eq(mnemonic, "JEQ") { Some("010") }
    else if str_eq(mnemonic, "JGE") { Some("011") }
    else if str_eq(mnemonic, "JLT") { Some("100") }
    else if str_eq(mnemonic, "JNE") { Some("101") }
    else if str_eq(mnemonic, "JLE") { Some("110") }
    else if str_eq(mnemonic, "JMP") { Some("111") }
    else { None }
}

/// Encodes a jump mnemonic (such as `JGT` or the empty mnemonic) into its 3-bit code.
pub fn jump(mnemonic: &str) -> (bits: &str)
    requires
        jump_code(mnemonic@) is Some,
    ensures
        Some(bits@) == jump_code(mnemonic@),
{
    match lookup_jump(mnemonic) {
        Some(b) => b,
        None => "",
    }
}

/// Whether every character of `s` is `0` or `1`.
pub open spec fn is_binary(s: Seq<char>) -> bool {
    forall|i: int| 0 <= i < s.len() ==> (#[trigger] s[i] == '0' || s[i] == '1')
}

/// `DM` is another spelling of `MD`, and `ADM` of `AMD`: each pair gets the same code.
pub proof fn lemma_dest_aliases()
    ensures
        dest_code("DM"@) == dest_code("MD"@),
        dest_code("ADM"@) == dest_code("AMD"@),
        dest_code("DM"@) is Some,
        dest_code("ADM"@) is Some,
{
    reveal_strlit("");
    assert(""@ =~= Seq::<char>::empty());
    reveal_strlit("M");
    assert("M"@ =~= seq!['M']);
    reveal_strlit("D");
    assert("D"@ =~= seq!['D']);
    reveal_strlit("MD");
    assert("MD"@ =~= seq!['M', 'D']);
    reveal_strlit("A");
    assert("A"@ =~= seq!['A']);
    reveal_strlit("AM");
    assert("AM"@ =~= seq!['A', 'M']);
    reveal_strlit("AD");
    assert("AD"@ =~= seq!['A', 'D']);
    reveal_strlit("AMD");
    assert("AMD"@ =~= seq!['A', 'M', 'D']);
    reveal_strlit("DM");
    assert("DM"@ =~= seq!['D', 'M']);
    reveal_strlit("ADM");
    assert("ADM"@ =~= seq!['A', 'D', 'M']);
}

/// Every dest and jump code is three binary digits, and every comp code seven.
pub proof fn lemma_field_widths(m: Seq<char>)
    ensures
        dest_code(m) matches Some(b) ==> b.len() == 3 && is_binary(b),
        jump_code(m) matches Some(b) ==> b.len() == 3 && is_binary(b),
        comp_code(m) matches Some(b) ==> b.len() == 7 && is_binary(b),
{
    reveal_strlit("000");
    reveal_strlit("001");
    reveal_strlit("010");
    reveal_strlit("011");
    reveal_strlit("100");
    reveal_strlit("101");
    reveal_strlit("110");
    reveal_strlit("111");
    reveal_strlit("0101010");
    reveal_strlit("0111111");
    reveal_strlit("0111010");
    reveal_strlit("0001100");
    reveal_strlit("0110000");
    reveal_strlit("0001101");
    reveal_strlit("0110001");
    reveal_strlit("0001111");
    reveal_strlit("0110011");
    reveal_strlit("0011111");
    reveal_strlit("0110111");
    reveal_strlit("0001110");
    reveal_strlit("0110010");
    reveal_strlit("0000010");
    reveal_strlit("0010011");
    reveal_strlit("0000111");
    reveal_strlit("0000000");
    reveal_strlit("0010101");
    reveal_strlit("1110000");
    reveal_strlit("1110001");
    reveal_strlit("1110011");
    reveal_strlit("1110111");
    reveal_strlit("1110010");
    reveal_strlit("1000010");
    reveal_strlit("1010011");
    reveal_strlit("1000111");
    reveal_strlit("1000000");
    reveal_strlit("1010101");
}

/// No two comp mnemonics share a code: the comp field tells the computation.
pub proof fn lemma_comp_codes_distinct(m1: Seq<char>, m2: Seq<char>)
    requires
        comp_code(m1) is Some,
        comp_code(m2) is Some,
        m1 != m2,
    ensures
        comp_code(m1) != comp_code(m2),
{
    reveal_strlit("0");
    assert("0"@ =~= seq!['0']);
    reveal_strlit("1");
    assert("1"@ =~= seq!['1']);
    reveal_strlit("-1");
    assert("-1"@ =~= seq!['-', '1']);
    reveal_strlit("D");
    assert("D"@ =~= seq!['D']);
    reveal_strlit("A");
    assert("A"@ =~= seq!['A']);
    reveal_strlit("!D");
    assert("!D"@ =~= seq!['!', 'D']);
    reveal_strlit("!A");
    assert("!A"@ =~= seq!['!', 'A']);
    reveal_strlit("-D");
    assert("-D"@ =~= seq!['-', 'D']);
    reveal_strlit("-A");
    assert("-A"@ =~= seq!['-', 'A']);
    reveal_strlit("D+1");
    assert("D+1"@ =~= seq!['D', '+', '1']);
    reveal_strlit("A+1");
    assert("A+1"@ =~= seq!['A', '+', '1']);
    reveal_strlit("D-1");
    assert("D-1"@ =~= seq!['D', '-', '1']);
    reveal_strlit("A-1");
    assert("A-1"@ =~= seq!['A', '-', '1']);
    reveal_strlit("D+A");
    assert("D+A"@ =~= seq!['D', '+', 'A']);
    reveal_strlit("D-A");
    assert("D-A"@ =~= seq!['D', '-', 'A']);
    reveal_strlit("A-D");
    assert("A-D"@ =~= seq!['A', '-', 'D']);
    reveal_strlit("D&A");
    assert("D&A"@ =~= seq!['D', '&', 'A']);
    reveal_strlit("D|A");
    assert("D|A"@ =~= seq!['D', '|', 'A']);
    reveal_strlit("M");
    assert("M"@ =~= seq!['M']);
    reveal_strlit("!M");
    assert("!M"@ =~= seq!['!', 'M']);
    reveal_strlit("-M");
    assert("-M"@ =~= seq!['-', 'M']);
    reveal_strlit("M+1");
    assert("M+1"@ =~= seq!['M', '+', '1']);
    reveal_strlit("M-1");
    assert("M-1"@ =~= seq!['M', '-', '1']);
    reveal_strlit("D+M");
    assert("D+M"@ =~= seq!['D', '+', 'M']);
    reveal_strlit("D-M");
    assert("D-M"@ =~= seq!['D', '-', 'M']);
    reveal_strlit("M-D");
    assert("M-D"@ =~= seq!['M', '-', 'D']);
    reveal_strlit("D&M");
    assert("D&M"@ =~= seq!['D', '&', 'M']);
    reveal_strlit("D|M");
    assert("D|M"@ =~= seq!['D', '|', 'M']);
    reveal_strlit("0101010");
    assert("0101010"@ =~= seq!['0', '1', '0', '1', '0', '1', '0']);
    reveal_strlit("0111111");
    assert("0111111"@ =~= seq!['0', '1', '1', '1', '1', '1', '1']);
    reveal_strlit("0111010");
    assert("0111010"@ =~= seq!['0', '1', '1', '1', '0', '1', '0']);
    reveal_strlit("0001100");
    assert("0001100"@ =~= seq!['0', '0', '0', '1', '1', '0', '0']);
    reveal_strlit("0110000");
    assert("0110000"@ =~= seq!['0', '1', '1', '0', '0', '0', '0']);
    reveal_strlit("0001101");
    assert("0001101"@ =~= seq!['0', '0', '0', '1', '1', '0', '1']);
    reveal_strlit("0110001");
    assert("0110001"@ =~= seq!['0', '1', '1', '0', '0', '0', '1']);
    reveal_strlit("0001111");
    assert("0001111"@ =~= seq!['0', '0', '0', '1', '1', '1', '1']);
    reveal_strlit("0110011");
    assert("0110011"@ =~= seq!['0', '1', '1', '0', '0', '1', '1']);
    reveal_strlit("0011111");
    assert("0011111"@ =~= seq!['0', '0', '1', '1', '1', '1', '1']);
    reveal_strlit("0110111");
    assert("0110111"@ =~= seq!['0', '1', '1', '0', '1', '1', '1']);
    reveal_strlit("0001110");
    assert("0001110"@ =~= seq!['0', '0', '0', '1', '1', '1', '0']);
    reveal_strlit("0110010");
    assert("0110010"@ =~= seq!['0', '1', '1', '0', '0', '1', '0']);
    reveal_strlit("0000010");
    assert("0000010"@ =~= seq!['0', '0', '0', '0', '0', '1', '0']);
    reveal_strlit("0010011");
    assert("0010011"@ =~= seq!['0', '0', '1', '0', '0', '1', '1']);
    reveal_strlit("0000111");
    assert("0000111"@ =~= seq!['0', '0', '0', '0', '1', '1', '1']);
    reveal_strlit("0000000");
    assert("0000000"@ =~= seq!['0', '0', '0', '0', '0', '0', '0']);
    reveal_strlit("0010101");
    assert("0010101"@ =~= seq!['0', '0', '1', '0', '1', '0', '1']);
    reveal_strlit("1110000");
    assert("1110000"@ =~= seq!['1', '1', '1', '0', '0', '0', '0']);
    reveal_strlit("1110001");
    assert("1110001"@ =~= seq!['1', '1', '1', '0', '0', '0', '1']);
    reveal_strlit("1110011");
    assert("1110011"@ =~= seq!['1', '1', '1', '0', '0', '1', '1']);
    reveal_strlit("1110111");
    assert("1110111"@ =~= seq!['1', '1', '1', '0', '1', '1', '1']);
    reveal_strlit("1110010");
    assert("1110010"@ =~= seq!['1', '1', '1', '0', '0', '1', '0']);
    reveal_strlit("1000010");
    assert("1000010"@ =~= seq!['1', '0', '0', '0', '0', '1', '0']);
    reveal_strlit("1010011");
    assert("1010011"@ =~= seq!['1', '0', '1', '0', '0', '1', '1']);
    reveal_strlit("1000111");
    assert("1000111"@ =~= seq!['1', '0', '0', '0', '1', '1', '1']);
    reveal_strlit("1000000");
    assert("1000000"@ =~= seq!['1', '0', '0', '0', '0', '0', '0']);
    reveal_strlit("1010101");
    assert("1010101"@ =~= seq!['1', '0', '1', '0', '1', '0', '1']);
}

/// Where a jump mnemonic makes the machine jump on an ALU output `out`:
/// `JGT` when it is above zero, `JEQ` at zero, `JGE` at or above, `JLT`
/// below, `JNE` anywhere but zero, `JLE` at or below, `JMP` always, and the
/// empty mnemonic never.
pub open spec fn jumps_on(m: Seq<char>, out: int) -> bool {
    if m == "JGT"@ { out > 0 }
    else if m == "JEQ"@ { out == 0 }
    else if m == "JGE"@ { out >= 0 }
    else if m == "JLT"@ { out < 0 }
    else if m == "JNE"@ { out != 0 }
    else if m == "JLE"@ { out <= 0 }
    else if m == "JMP"@ { true }
    else { false }
}

/// The three dest bits say where the result goes: the first is set exactly
/// when the mnemonic names `A`, the second when it names `D`, the third when
/// it names `M`.
pub proof fn lemma_dest_bits_name_registers(m: Seq<char>)
    ensures
        dest_code(m) matches Some(b) ==> {
            &&& (b[0] == '1') == m.contains('A')
            &&& (b[1] == '1') == m.contains('D')
            &&& (b[2] == '1') == m.contains('M')
        },
{
    reveal_strlit("");
    assert(""@ =~= Seq::<char>::empty());
    reveal_strlit("M");
    assert("M"@ =~= seq!['M']);
    reveal_strlit("D");
    assert("D"@ =~= seq!['D']);
    reveal_strlit("MD");
    assert("MD"@ =~= seq!['M', 'D']);
    reveal_strlit("A");
    assert("A"@ =~= seq!['A']);
    reveal_strlit("AM");
    assert("AM"@ =~= seq!['A', 'M']);
    reveal_strlit("AD");
    assert("AD"@ =~= seq!['A', 'D']);
    reveal_strlit("AMD");
    assert("AMD"@ =~= seq!['A', 'M', 'D']);
    reveal_strlit("DM");
    assert("DM"@ =~= seq!['D', 'M']);
    reveal_strlit("ADM");
    assert("ADM"@ =~= seq!['A', 'D', 'M']);
    reveal_strlit("000");
    assert("000"@ =~= seq!['0', '0', '0']);
    reveal_strlit("001");
    assert("001"@ =~= seq!['0', '0', '1']);
    reveal_strlit("010");
    assert("010"@ =~= seq!['0', '1', '0']);
    reveal_strlit("011");
    assert("011"@ =~= seq!['0', '1', '1']);
    reveal_strlit("100");
    assert("100"@ =~= seq!['1', '0', '0']);
    reveal_strlit("101");
    assert("101"@ =~= seq!['1', '0', '1']);
    reveal_strlit("110");
    assert("110"@ =~= seq!['1', '1', '0']);
    reveal_strlit("111");
    assert("111"@ =~= seq!['1', '1', '1']);
    if m == ""@ {
        assert(forall|i: int| 0 <= i < m.len() ==> m[i] != 'A');
        assert(forall|i: int| 0 <= i < m.len() ==> m[i] != 'D');
        assert(forall|i: int| 0 <= i < m.len() ==> m[i] != 'M');
    }
    if m == "M"@ {
        assert(forall|i: int| 0 <= i < m.len() ==> m[i] != 'A');
        assert(forall|i: int| 0 <= i < m.len() ==> m[i] != 'D');
        assert(m[0] == 'M');
    }
    if m == "D"@ {
        assert(forall|i: int| 0 <= i < m.len() ==> m[i] != 'A');
        assert(m[0] == 'D');
        assert(forall|i: int| 0 <= i < m.len() ==> m[i] != 'M');
    }
    if m == "MD"@ {
        assert(forall|i: int| 0 <= i < m.len() ==> m[i] != 'A');
        assert(m[1] == 'D');
        assert(m[0] == 'M');
    }
    if m == "A"@ {
        assert(m[0] == 'A');
        assert(forall|i: int| 0 <= i < m.len() ==> m[i] != 'D');
        assert(forall|i: int| 0 <= i < m.len() ==> m[i] != 'M');
    }
    if m == "AM"@ {
        assert(m[0] == 'A');
        assert(forall|i: int| 0 <= i < m.len() ==> m[i] != 'D');
        assert(m[1] == 'M');
    }
    if m == "AD"@ {
        assert(m[0] == 'A');
        assert(m[1] == 'D');
        assert(forall|i: int| 0 <= i < m.len() ==> m[i] != 'M');
    }
    if m == "AMD"@ {
        assert(m[0] == 'A');
        assert(m[2] == 'D');
        assert(m[1] == 'M');
    }
    if m == "DM"@ {
        assert(forall|i: int| 0 <= i < m.len() ==> m[i] != 'A');
        assert(m[0] == 'D');
        assert(m[1] == 'M');
    }
    if m == "ADM"@ {
        assert(m[0] == 'A');
        assert(m[1] == 'D');
        assert(m[2] == 'M');
    }
}

/// The first bit of a comp code, `a`, is set exactly when the computation
/// reads `M` rather than `A`.
pub proof fn lemma_comp_a_bit(m: Seq<char>)
    ensures
        comp_code(m) matches Some(b) ==> (b[0] == '1') == m.contains('M'),
{
    reveal_strlit("0");
    assert("0"@ =~= seq!['0']);
    reveal_strlit("1");
    assert("1"@ =~= seq!['1']);
    reveal_strlit("-1");
    assert("-1"@ =~= seq!['-', '1']);
    reveal_strlit("D");
    assert("D"@ =~= seq!['D']);
    reveal_strlit("A");
    assert("A"@ =~= seq!['A']);
    reveal_strlit("!D");
    assert("!D"@ =~= seq!['!', 'D']);
    reveal_strlit("!A");
    assert("!A"@ =~= seq!['!', 'A']);
    reveal_strlit("-D");
    assert("-D"@ =~= seq!['-', 'D']);
    reveal_strlit("-A");
    assert("-A"@ =~= seq!['-', 'A']);
    reveal_strlit("D+1");
    assert("D+1"@ =~= seq!['D', '+', '1']);
    reveal_strlit("A+1");
    assert("A+1"@ =~= seq!['A', '+', '1']);
    reveal_strlit("D-1");
    assert("D-1"@ =~= seq!['D', '-', '1']);
    reveal_strlit("A-1");
    assert("A-1"@ =~= seq!['A', '-', '1']);
    reveal_strlit("D+A");
    assert("D+A"@ =~= seq!['D', '+', 'A']);
    reveal_strlit("D-A");
    assert("D-A"@ =~= seq!['D', '-', 'A']);
    reveal_strlit("A-D");
    assert("A-D"@ =~= seq!['A', '-', 'D']);
    reveal_strlit("D&A");
    assert("D&A"@ =~= seq!['D', '&', 'A']);
    reveal_strlit("D|A");
    assert("D|A"@ =~= seq!['D', '|', 'A']);
    reveal_strlit("M");
    assert("M"@ =~= seq!['M']);
    reveal_strlit("!M");
    assert("!M"@ =~= seq!['!', 'M']);
    reveal_strlit("-M");
    assert("-M"@ =~= seq!['-', 'M']);
    reveal_strlit("M+1");
    assert("M+1"@ =~= seq!['M', '+', '1']);
    reveal_strlit("M-1");
    assert("M-1"@ =~= seq!['M', '-', '1']);
    reveal_strlit("D+M");
    assert("D+M"@ =~= seq!['D', '+', 'M']);
    reveal_strlit("D-M");
    assert("D-M"@ =~= seq!['D', '-', 'M']);
    reveal_strlit("M-D");
    assert("M-D"@ =~= seq!['M', '-', 'D']);
    reveal_strlit("D&M");
    assert("D&M"@ =~= seq!['D', '&', 'M']);
    reveal_strlit("D|M");
    assert("D|M"@ =~= seq!['D', '|', 'M']);
    reveal_strlit("0101010");
    assert("0101010"@ =~= seq!['0', '1', '0', '1', '0', '1', '0']);
    reveal_strlit("0111111");
    assert("0111111"@ =~= seq!['0', '1', '1', '1', '1', '1', '1']);
    reveal_strlit("0111010");
    assert("0111010"@ =~= seq!['0', '1', '1', '1', '0', '1', '0']);
    reveal_strlit("0001100");
    assert("0001100"@ =~= seq!['0', '0', '0', '1', '1', '0', '0']);
    reveal_strlit("0110000");
    assert("0110000"@ =~= seq!['0', '1', '1', '0', '0', '0', '0']);
    reveal_strlit("0001101");
    assert("0001101"@ =~= seq!['0', '0', '0', '1', '1', '0', '1']);
    reveal_strlit("0110001");
    assert("0110001"@ =~= seq!['0', '1', '1', '0', '0', '0', '1']);
    reveal_strlit("0001111");
    assert("0001111"@ =~= seq!['0', '0', '0', '1', '1', '1', '1']);
    reveal_strlit("0110011");
    assert("0110011"@ =~= seq!['0', '1', '1', '0', '0', '1', '1']);
    reveal_strlit("0011111");
    assert("0011111"@ =~= seq!['0', '0', '1', '1', '1', '1', '1']);
    reveal_strlit("0110111");
    assert("0110111"@ =~= seq!['0', '1', '1', '0', '1', '1', '1']);
    reveal_strlit("0001110");
    assert("0001110"@ =~= seq!['0', '0', '0', '1', '1', '1', '0']);
    reveal_strlit("0110010");
    assert("0110010"@ =~= seq!['0', '1', '1', '0', '0', '1', '0']);
    reveal_strlit("0000010");
    assert("0000010"@ =~= seq!['0', '0', '0', '0', '0', '1', '0']);
    reveal_strlit("0010011");
    assert("0010011"@ =~= seq!['0', '0', '1', '0', '0', '1', '1']);
    reveal_strlit("0000111");
    assert("0000111"@ =~= seq!['0', '0', '0', '0', '1', '1', '1']);
    reveal_strlit("0000000");
    assert("0000000"@ =~= seq!['0', '0', '0', '0', '0', '0', '0']);
    reveal_strlit("0010101");
    assert("0010101"@ =~= seq!['0', '0', '1', '0', '1', '0', '1']);
    reveal_strlit("1110000");
    assert("1110000"@ =~= seq!['1', '1', '1', '0', '0', '0', '0']);
    reveal_strlit("1110001");
    assert("1110001"@ =~= seq!['1', '1', '1', '0', '0', '0', '1']);
    reveal_strlit("1110011");
    assert("1110011"@ =~= seq!['1', '1', '1', '0', '0', '1', '1']);
    reveal_strlit("1110111");
    assert("1110111"@ =~= seq!['1', '1', '1', '0', '1', '1', '1']);
    reveal_strlit("1110010");
    assert("1110010"@ =~= seq!['1', '1', '1', '0', '0', '1', '0']);
    reveal_strlit("1000010");
    assert("1000010"@ =~= seq!['1', '0', '0', '0', '0', '1', '0']);
    reveal_strlit("1010011");
    assert("1010011"@ =~= seq!['1', '0', '1', '0', '0', '1', '1']);
    reveal_strlit("1000111");
    assert("1000111"@ =~= seq!['1', '0', '0', '0', '1', '1', '1']);
    reveal_strlit("1000000");
    assert("1000000"@ =~= seq!['1', '0', '0', '0', '0', '0', '0']);
    reveal_strlit("1010101");
    assert("1010101"@ =~= seq!['1', '0', '1', '0', '1', '0', '1']);
    if m == "0"@ {
        assert(forall|i: int| 0 <= i < m.len() ==> m[i] != 'M');
    }
    if m == "1"@ {
        assert(forall|i: int| 0 <= i < m.len() ==> m[i] != 'M');
    }
    if m == "-1"@ {
        assert(forall|i: int| 0 <= i < m.len() ==> m[i] != 'M');
    }
    if m == "D"@ {
        assert(forall|i: int| 0 <= i < m.len() ==> m[i] != 'M');
    }
    if m == "A"@ {
        assert(forall|i: int| 0 <= i < m.len() ==> m[i] != 'M');
    }
    if m == "!D"@ {
        assert(forall|i: int| 0 <= i < m.len() ==> m[i] != 'M');
    }
    if m == "!A"@ {
        assert(forall|i: int| 0 <= i < m.len() ==> m[i] != 'M');
    }
    if m == "-D"@ {
        assert(forall|i: int| 0 <= i < m.len() ==> m[i] != 'M');
    }
    if m == "-A"@ {
        assert(forall|i: int| 0 <= i < m.len() ==> m[i] != 'M');
    }
    if m == "D+1"@ {
        assert(forall|i: int| 0 <= i < m.len() ==> m[i] != 'M');
    }
    if m == "A+1"@ {
        assert(forall|i: int| 0 <= i < m.len() ==> m[i] != 'M');
    }
    if m == "D-1"@ {
        assert(forall|i: int| 0 <= i < m.len() ==> m[i] != 'M');
    }
    if m == "A-1"@ {
        assert(forall|i: int| 0 <= i < m.len() ==> m[i] != 'M');
    }
    if m == "D+A"@ {
        assert(forall|i: int| 0 <= i < m.len() ==> m[i] != 'M');
    }
    if m == "D-A"@ {
        assert(forall|i: int| 0 <= i < m.len() ==> m[i] != 'M');
    }
    if m == "A-D"@ {
        assert(forall|i: int| 0 <= i < m.len() ==> m[i] != 'M');
    }
    if m == "D&A"@ {
        assert(forall|i: int| 0 <= i < m.len() ==> m[i] != 'M');
    }
    if m == "D|A"@ {
        assert(forall|i: int| 0 <= i < m.len() ==> m[i] != 'M');
    }
    if m == "M"@ {
        assert(m[0] == 'M');
    }
    if m == "!M"@ {
        assert(m[1] == 'M');
    }
    if m == "-M"@ {
        assert(m[1] == 'M');
    }
    if m == "M+1"@ {
        assert(m[0] == 'M');
    }
    if m == "M-1"@ {
        assert(m[0] == 'M');
    }
    if m == "D+M"@ {
        assert(m[2] == 'M');
    }
    if m == "D-M"@ {
        assert(m[2] == 'M');
    }
    if m == "M-D"@ {
        assert(m[0] == 'M');
    }
    if m == "D&M"@ {
        assert(m[2] == 'M');
    }
    if m == "D|M"@ {
        assert(m[2] == 'M');
    }
}

/// The three jump bits say on which outputs the machine jumps: the first
/// when it is below zero, the second at zero, the third above zero.
pub proof fn lemma_jump_bits_conditions(m: Seq<char>)
    ensures
        jump_code(m) matches Some(b) ==> {
            &&& (b[0] == '1') == jumps_on(m, -1)
            &&& (b[1] == '1') == jumps_on(m, 0)
            &&& (b[2] == '1') == jumps_on(m, 1)
        },
{
    reveal_strlit("");
    assert(""@ =~= Seq::<char>::empty());
    reveal_strlit("JGT");
    assert("JGT"@ =~= seq!['J', 'G', 'T']);
    reveal_strlit("JEQ");
    assert("JEQ"@ =~= seq!['J', 'E', 'Q']);
    reveal_strlit("JGE");
    assert("JGE"@ =~= seq!['J', 'G', 'E']);
    reveal_strlit("JLT");
    assert("JLT"@ =~= seq!['J', 'L', 'T']);
    reveal_strlit("JNE");
    assert("JNE"@ =~= seq!['J', 'N', 'E']);
    reveal_strlit("JLE");
    assert("JLE"@ =~= seq!['J', 'L', 'E']);
    reveal_strlit("JMP");
    assert("JMP"@ =~= seq!['J', 'M', 'P']);
    reveal_strlit("000");
    assert("000"@ =~= seq!['0', '0', '0']);
    reveal_strlit("001");
    assert("001"@ =~= seq!['0', '0', '1']);
    reveal_strlit("010");
    assert("010"@ =~= seq!['0', '1', '0']);
    reveal_strlit("011");
    assert("011"@ =~= seq!['0', '1', '1']);
    reveal_strlit("100");
    assert("100"@ =~= seq!['1', '0', '0']);
    reveal_strlit("101");
    assert("101"@ =~= seq!['1', '0', '1']);
    reveal_strlit("110");
    assert("110"@ =~= seq!['1', '1', '0']);
    reveal_strlit("111");
    assert("111"@ =~= seq!['1', '1', '1']);
}

} // verus!
