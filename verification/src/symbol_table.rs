//! The symbol table: which address each symbol stands for.
use vstd::prelude::*;
use vstd::string::*;
use crate::parser::views;
use crate::text::{decimal_value, is_digit, lemma_lex_order, lex_less, str_eq, str_less};

verus! {

/// The 23 symbols that every program starts with: the virtual registers
/// R0-R15, the pointers SP, LCL, ARG, THIS and THAT, and the memory-mapped
/// SCREEN and KBD.
pub open spec fn predefined_symbols() -> Map<Seq<char>, u16> {
    map![
        "R0"@ => 0u16,
        "R1"@ => 1u16,
        "R2"@ => 2u16,
        "R3"@ => 3u16,
        "R4"@ => 4u16,
        "R5"@ => 5u16,
        "R6"@ => 6u16,
        "R7"@ => 7u16,
        "R8"@ => 8u16,
        "R9"@ => 9u16,
        "R10"@ => 10u16,
        "R11"@ => 11u16,
        "R12"@ => 12u16,
        "R13"@ => 13u16,
        "R14"@ => 14u16,
        "R15"@ => 15u16,
        "SP"@ => 0u16,
        "LCL"@ => 1u16,
        "ARG"@ => 2u16,
        "THIS"@ => 3u16,
        "THAT"@ => 4u16,
        "SCREEN"@ => 16384u16,
        "KBD"@ => 24576u16
    ]
}

/// The predefined symbols are 23 distinct names.
pub proof fn lemma_predefined_count()
    ensures
        predefined_symbols().len() == 23,
{
    reveal_strlit("R0");
    assert("R0"@ =~= seq!['R', '0']);
    reveal_strlit("R1");
    assert("R1"@ =~= seq!['R', '1']);
    reveal_strlit("R2");
    assert("R2"@ =~= seq!['R', '2']);
    reveal_strlit("R3");
    assert("R3"@ =~= seq!['R', '3']);
    reveal_strlit("R4");
    assert("R4"@ =~= seq!['R', '4']);
    reveal_strlit("R5");
    assert("R5"@ =~= seq!['R', '5']);
    reveal_strlit("R6");
    assert("R6"@ =~= seq!['R', '6']);
    reveal_strlit("R7");
    assert("R7"@ =~= seq!['R', '7']);
    reveal_strlit("R8");
    assert("R8"@ =~= seq!['R', '8']);
    reveal_strlit("R9");
    assert("R9"@ =~= seq!['R', '9']);
    reveal_strlit("R10");
    assert("R10"@ =~= seq!['R', '1', '0']);
    reveal_strlit("R11");
    assert("R11"@ =~= seq!['R', '1', '1']);
    reveal_strlit("R12");
    assert("R12"@ =~= seq!['R', '1', '2']);
    reveal_strlit("R13");
    assert("R13"@ =~= seq!['R', '1', '3']);
    reveal_strlit("R14");
    assert("R14"@ =~= seq!['R', '1', '4']);
    reveal_strlit("R15");
    assert("R15"@ =~= seq!['R', '1', '5']);
    reveal_strlit("SP");
    assert("SP"@ =~= seq!['S', 'P']);
    reveal_strlit("LCL");
    assert("LCL"@ =~= seq!['L', 'C', 'L']);
    reveal_strlit("ARG");
    assert("ARG"@ =~= seq!['A', 'R', 'G']);
    reveal_strlit("THIS");
    assert("THIS"@ =~= seq!['T', 'H', 'I', 'S']);
    reveal_strlit("THAT");
    assert("THAT"@ =~= seq!['T', 'H', 'A', 'T']);
    reveal_strlit("SCREEN");
    assert("SCREEN"@ =~= seq!['S', 'C', 'R', 'E', 'E', 'N']);
    reveal_strlit("KBD");
    assert("KBD"@ =~= seq!['K', 'B', 'D']);
}

/// The address that `m` gives `symbol`, if any.
pub open spec fn lookup(m: Map<Seq<char>, u16>, symbol: Seq<char>) -> Option<u16> {
    if m.contains_key(symbol) {
        Some(m[symbol])
    } else {
        None
    }
}

/// Whether the names in `s` are in strictly increasing lexicographic order.
pub open spec fn strictly_sorted(s: Seq<Seq<char>>) -> bool {
    forall|i: int, j: int| 0 <= i < j < s.len() ==> lex_less(#[trigger] s[i], #[trigger] s[j])
}

/// Maps symbol names to addresses; a name has at most one address. The names
/// are kept in lexicographic order, so that a name is found by binary search.
pub struct SymbolTable {
    names: Vec<String>,
    addresses: Vec<u16>,
}

impl View for SymbolTable {
    type V = Map<Seq<char>, u16>;

    closed spec fn view(&self) -> Map<Seq<char>, u16> {
        Map::new(
            |k: Seq<char>| views(self.names@).contains(k),
            |k: Seq<char>| self.addresses@[views(self.names@).index_of(k)],
        )
    }
}

proof fn lemma_sorted_no_duplicates(s: Seq<Seq<char>>)
    requires
        strictly_sorted(s),
    ensures
        s.no_duplicates(),
{
    assert forall|i: int, j: int| 0 <= i < s.len() && 0 <= j < s.len() && i != j implies s[i]
        != s[j] by {
        lemma_lex_order(s[i], s[i], s[i]);
        if i < j {
            assert(lex_less(s[i], s[j]));
        } else {
            assert(lex_less(s[j], s[i]));
        }
    }
}

proof fn lemma_index_of(s: Seq<Seq<char>>, i: int)
    requires
        s.no_duplicates(),
        0 <= i < s.len(),
    ensures
        s.contains(s[i]),
        s.index_of(s[i]) == i,
{
    let j = s.index_of(s[i]);
    assert(0 <= j < s.len() && s[j] == s[i]);
}

impl SymbolTable {
    #[verifier::type_invariant]
    spec fn well_formed(self) -> bool {
        &&& self.names@.len() == self.addresses@.len()
        &&& strictly_sorted(views(self.names@))
    }

    /// Where `symbol` stands, or would stand, among the sorted `names`, and
    /// whether it is there.
    fn search(names: &Vec<String>, symbol: &str) -> (r: (usize, bool))
        requires
            strictly_sorted(views(names@)),
        ensures
            r.0 <= names@.len(),
            forall|j: int| 0 <= j < r.0 ==> lex_less(#[trigger] views(names@)[j], symbol@),
            forall|j: int|
                r.0 <= j < names@.len() ==> !lex_less(#[trigger] views(names@)[j], symbol@),
            r.1 == (r.0 < names@.len() && views(names@)[r.0 as int] == symbol@),
            r.1 == views(names@).contains(symbol@),
    {
        let ghost s = views(names@);
        let mut lo: usize = 0;
        let mut hi: usize = names.len();
        while lo < hi
            invariant
                s == views(names@),
                strictly_sorted(s),
                lo <= hi <= names@.len(),
                forall|j: int| 0 <= j < lo ==> lex_less(#[trigger] s[j], symbol@),
                forall|j: int| hi <= j < names@.len() ==> !lex_less(#[trigger] s[j], symbol@),
            decreases hi - lo,
        {
            let mid = lo + (hi - lo) / 2;
            if str_less(names[mid].as_str(), symbol) {
                proof {
                    assert forall|j: int| 0 <= j < mid + 1 implies lex_less(#[trigger] s[j], symbol@) by {
                        if j < mid {
                            assert(lex_less(s[j], s[mid as int]));
                            lemma_lex_order(s[j], s[mid as int], symbol@);
                        }
                    }
                }
                lo = mid + 1;
            } else {
                proof {
                    assert forall|j: int| mid <= j < names@.len() implies !lex_less(#[trigger] s[j], symbol@) by {
                        if j > mid {
                            assert(lex_less(s[mid as int], s[j]));
                            lemma_lex_order(s[mid as int], s[j], symbol@);
                        }
                    }
                }
                hi = mid;
            }
        }
        let found = lo < names.len() && str_eq(names[lo].as_str(), symbol);
        proof {
            if !found {
                assert forall|k: int| 0 <= k < s.len() implies s[k] != symbol@ by {
                    lemma_lex_order(s[k], s[k], s[k]);
                    if k > lo {
                        assert(lex_less(s[lo as int], s[k]));
                    }
                }
            } else {
                assert(s[lo as int] == symbol@);
            }
        }
        (lo, found)
    }

    /// A table that holds the predefined symbols and nothing else.
    pub fn new() -> (table: SymbolTable)
        ensures
            table@ == predefined_symbols(),
    {
        let mut table = SymbolTable { names: Vec::new(), addresses: Vec::new() };
        assert(table@ =~= Map::empty());
        table.add_entry(String::from_str("R0"), 0);
        table.add_entry(String::from_str("R1"), 1);
        table.add_entry(String::from_str("R2"), 2);
        table.add_entry(String::from_str("R3"), 3);
        table.add_entry(String::from_str("R4"), 4);
        table.add_entry(String::from_str("R5"), 5);
        table.add_entry(String::from_str("R6"), 6);
        table.add_entry(String::from_str("R7"), 7);
        table.add_entry(String::from_str("R8"), 8);
        table.add_entry(String::from_str("R9"), 9);
        table.add_entry(String::from_str("R10"), 10);
        table.add_entry(String::from_str("R11"), 11);
        table.add_entry(String::from_str("R12"), 12);
        table.add_entry(String::from_str("R13"), 13);
        table.add_entry(String::from_str("R14"), 14);
        table.add_entry(String::from_str("R15"), 15);
        table.add_entry(String::from_str("SP"), 0);
        table.add_entry(String::from_str("LCL"), 1);
        table.add_entry(String::from_str("ARG"), 2);
        table.add_entry(String::from_str("THIS"), 3);
        table.add_entry(String::from_str("THAT"), 4);
        table.add_entry(String::from_str("SCREEN"), 16384);
        table.add_entry(String::from_str("KBD"), 24576);
        table
    }

    /// Binds `symbol` to `address`, replacing any address it had.
    pub fn add_entry(&mut self, symbol: String, address: u16)
        ensures
            final(self)@ == old(self)@.insert(symbol@, address),
    {
        let mut taken = SymbolTable { names: Vec::new(), addresses: Vec::new() };
        std::mem::swap(self, &mut taken);
        proof {
            use_type_invariant(&taken);
        }
        let SymbolTable { mut names, mut addresses } = taken;
        let ghost old_names = views(names@);
        let ghost old_addresses = addresses@;
        proof {
            lemma_sorted_no_duplicates(old_names);
        }
        let (i, found) = Self::search(&names, symbol.as_str());
        if found {
            addresses.set(i, address);
            proof {
                lemma_index_of(old_names, i as int);
                assert forall|k: Seq<char>| #[trigger] old_names.contains(k) && k != symbol@
                    implies old_names.index_of(k) != i by {
                    let j = old_names.index_of(k);
                    assert(old_names[j] == k);
                }
            }
        } else {
            let ghost sym = symbol@;
            names.insert(i, symbol);
            addresses.insert(i, address);
            proof {
                let new_names = views(names@);
                assert(new_names =~= old_names.insert(i as int, sym));
                assert forall|a: int, b: int| 0 <= a < b < new_names.len() implies lex_less(
                    #[trigger] new_names[a],
                    #[trigger] new_names[b],
                ) by {
                    if b < i {
                    } else if b == i {
                    } else if a < i {
                        assert(new_names[b] == old_names[b - 1]);
                        lemma_lex_order(old_names[a], sym, old_names[b - 1]);
                        lemma_lex_order(sym, old_names[b - 1], old_names[b - 1]);
                    } else if a == i {
                        assert(new_names[b] == old_names[b - 1]);
                        lemma_lex_order(sym, old_names[b - 1], old_names[b - 1]);
                        assert(old_names[b - 1] != sym);
                    } else {
                        assert(new_names[a] == old_names[a - 1]);
                        assert(new_names[b] == old_names[b - 1]);
                    }
                }
                lemma_sorted_no_duplicates(new_names);
                lemma_index_of(new_names, i as int);
                assert forall|k: Seq<char>| #[trigger] old_names.contains(k) implies new_names.contains(
                    k,
                ) && addresses@[new_names.index_of(k)] == old_addresses[old_names.index_of(k)] by {
                    let j = old_names.index_of(k);
                    lemma_index_of(old_names, j);
                    if j < i {
                        assert(new_names[j] == k);
                        lemma_index_of(new_names, j);
                    } else {
                        assert(new_names[j + 1] == k);
                        lemma_index_of(new_names, j + 1);
                    }
                }
                assert forall|k: Seq<char>| #[trigger] new_names.contains(k) implies k == sym
                    || old_names.contains(k) by {
                    let j = choose|j: int| 0 <= j < new_names.len() && new_names[j] == k;
                    if j < i {
                        assert(old_names[j] == k);
                    } else if j > i {
                        assert(old_names[j - 1] == k);
                    }
                }
            }
        }
        *self = SymbolTable { names, addresses };
        assert(self@ =~= old(self)@.insert(symbol@, address));
    }

    /// Whether `symbol` has an address.
    pub fn contains(&self, symbol: &str) -> (r: bool)
        ensures
            r == self@.contains_key(symbol@),
    {
        proof {
            use_type_invariant(self);
        }
        let (_, found) = Self::search(&self.names, symbol);
        found
    }

    /// The address of `symbol`, where it has one.
    pub fn get_address(&self, symbol: &str) -> (r: Option<u16>)
        ensures
            r == lookup(self@, symbol@),
    {
        proof {
            use_type_invariant(self);
            lemma_sorted_no_duplicates(views(self.names@));
        }
        let (i, found) = Self::search(&self.names, symbol);
        if found {
            proof {
                lemma_index_of(views(self.names@), i as int);
            }
            Some(self.addresses[i])
        } else {
            None
        }
    }

    /// How many symbols have an address.
    pub fn size(&self) -> (n: usize)
        ensures
            n == self@.len(),
            self@.dom().finite(),
    {
        proof {
            use_type_invariant(self);
            let s = views(self.names@);
            lemma_sorted_no_duplicates(s);
            s.unique_seq_to_set();
            assert(self@.dom() =~= s.to_set());
        }
        self.names.len()
    }
}

/// The predefined registers: `R` followed by the decimal numeral of `k`
/// (without leading zeros) stands for `k`, for each `k` below 16; the
/// pointers SP, LCL, ARG, THIS and THAT stand for R0 to R4; SCREEN stands
/// for 0x4000 and KBD for 0x6000.
pub proof fn lemma_predefined_values(d: Seq<char>)
    ensures
        ({
            let m = predefined_symbols();
            &&& (1 <= d.len() <= 2 && (forall|i: int| 0 <= i < d.len() ==> is_digit(#[trigger] d[i]))
                && (d.len() == 1 || d[0] != '0') && decimal_value(d) < 16) ==> m.contains_key(
                seq!['R'] + d,
            ) && m[seq!['R'] + d] == decimal_value(d)
            &&& m["SP"@] == m["R0"@] && m["LCL"@] == m["R1"@] && m["ARG"@] == m["R2"@]
            &&& m["THIS"@] == m["R3"@] && m["THAT"@] == m["R4"@]
            &&& m["SCREEN"@] == 0x4000 && m["KBD"@] == 0x6000
        }),
{
    reveal_strlit("R0");
    assert("R0"@ =~= seq!['R', '0']);
    reveal_strlit("R1");
    assert("R1"@ =~= seq!['R', '1']);
    reveal_strlit("R2");
    assert("R2"@ =~= seq!['R', '2']);
    reveal_strlit("R3");
    assert("R3"@ =~= seq!['R', '3']);
    reveal_strlit("R4");
    assert("R4"@ =~= seq!['R', '4']);
    reveal_strlit("R5");
    assert("R5"@ =~= seq!['R', '5']);
    reveal_strlit("R6");
    assert("R6"@ =~= seq!['R', '6']);
    reveal_strlit("R7");
    assert("R7"@ =~= seq!['R', '7']);
    reveal_strlit("R8");
    assert("R8"@ =~= seq!['R', '8']);
    reveal_strlit("R9");
    assert("R9"@ =~= seq!['R', '9']);
    reveal_strlit("R10");
    assert("R10"@ =~= seq!['R', '1', '0']);
    reveal_strlit("R11");
    assert("R11"@ =~= seq!['R', '1', '1']);
    reveal_strlit("R12");
    assert("R12"@ =~= seq!['R', '1', '2']);
    reveal_strlit("R13");
    assert("R13"@ =~= seq!['R', '1', '3']);
    reveal_strlit("R14");
    assert("R14"@ =~= seq!['R', '1', '4']);
    reveal_strlit("R15");
    assert("R15"@ =~= seq!['R', '1', '5']);
    reveal_strlit("SP");
    assert("SP"@ =~= seq!['S', 'P']);
    reveal_strlit("LCL");
    assert("LCL"@ =~= seq!['L', 'C', 'L']);
    reveal_strlit("ARG");
    assert("ARG"@ =~= seq!['A', 'R', 'G']);
    reveal_strlit("THIS");
    assert("THIS"@ =~= seq!['T', 'H', 'I', 'S']);
    reveal_strlit("THAT");
    assert("THAT"@ =~= seq!['T', 'H', 'A', 'T']);
    reveal_strlit("SCREEN");
    assert("SCREEN"@ =~= seq!['S', 'C', 'R', 'E', 'E', 'N']);
    reveal_strlit("KBD");
    assert("KBD"@ =~= seq!['K', 'B', 'D']);
    let m = predefined_symbols();
    if 1 <= d.len() <= 2 && (forall|i: int| 0 <= i < d.len() ==> is_digit(#[trigger] d[i])) && (
    d.len() == 1 || d[0] != '0') && decimal_value(d) < 16 {
        assert(d.drop_last().len() == d.len() - 1);
        if d.len() == 1 {
            assert(d.drop_last() =~= Seq::<char>::empty());
            assert(decimal_value(Seq::<char>::empty()) == 0);
            assert(d.last() == d[0]);
            assert(decimal_value(d) == d[0] as int - '0' as int);
            assert(is_digit(d[0]));
            if d[0] == '0' {
                assert(seq!['R'] + d =~= "R0"@);
            }
            if d[0] == '1' {
                assert(seq!['R'] + d =~= "R1"@);
            }
            if d[0] == '2' {
                assert(seq!['R'] + d =~= "R2"@);
            }
            if d[0] == '3' {
                assert(seq!['R'] + d =~= "R3"@);
            }
            if d[0] == '4' {
                assert(seq!['R'] + d =~= "R4"@);
            }
            if d[0] == '5' {
                assert(seq!['R'] + d =~= "R5"@);
            }
            if d[0] == '6' {
                assert(seq!['R'] + d =~= "R6"@);
            }
            if d[0] == '7' {
                assert(seq!['R'] + d =~= "R7"@);
            }
            if d[0] == '8' {
                assert(seq!['R'] + d =~= "R8"@);
            }
            if d[0] == '9' {
                assert(seq!['R'] + d =~= "R9"@);
            }
        } else {
            assert(d.drop_last() =~= seq![d[0]]);
            assert(d.drop_last().drop_last() =~= Seq::<char>::empty());
            assert(decimal_value(Seq::<char>::empty()) == 0);
            assert(d.drop_last().last() == d[0]);
            assert(d.last() == d[1]);
            assert(decimal_value(d.drop_last()) == d[0] as int - '0' as int);
            assert(decimal_value(d) == (d[0] as int - '0' as int) * 10 + (d[1] as int - '0' as int));
            assert(is_digit(d[0]) && is_digit(d[1]));
            assert(d[0] == '1');
            if d[1] == '0' {
                assert(seq!['R'] + d =~= "R10"@);
            }
            if d[1] == '1' {
                assert(seq!['R'] + d =~= "R11"@);
            }
            if d[1] == '2' {
                assert(seq!['R'] + d =~= "R12"@);
            }
            if d[1] == '3' {
                assert(seq!['R'] + d =~= "R13"@);
            }
            if d[1] == '4' {
                assert(seq!['R'] + d =~= "R14"@);
            }
            if d[1] == '5' {
                assert(seq!['R'] + d =~= "R15"@);
            }
        }
    }
}

/// A lookup after `add_entry` gives back the address just bound; every other
/// name keeps what it had; and the table grows by one exactly when the name
/// was not bound before.
pub proof fn lemma_add_then_lookup(table: SymbolTable, symbol: Seq<char>, address: u16, other: Seq<char>)
    requires
        table@.dom().finite(),
    ensures
        lookup(table@.insert(symbol, address), symbol) == Some(address),
        other != symbol ==> lookup(table@.insert(symbol, address), other) == lookup(table@, other),
        table@.insert(symbol, address).len() == table@.len() + if table@.contains_key(symbol) {
            0int
        } else {
            1int
        },
{
    if table@.contains_key(symbol) {
        assert(table@.insert(symbol, address).dom() =~= table@.dom());
    }
}

} // verus!
