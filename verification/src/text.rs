//! Character-level operations on string slices: comparison, searching,
//! white space, decimal numerals and binary words, each with its meaning
//! over `Seq<char>`.
use vstd::prelude::*;
use vstd::string::*;

verus! {

/// Whether `c` has the Unicode `White_Space` property, which is what
/// `char::is_whitespace` tests.
pub open spec fn is_white(c: char) -> bool {
    let x = c as u32;
    ||| 9 <= x <= 13
    ||| x == 0x20
    ||| x == 0x85
    ||| x == 0xa0
    ||| x == 0x1680
    ||| 0x2000 <= x <= 0x200a
    ||| x == 0x2028
    ||| x == 0x2029
    ||| x == 0x202f
    ||| x == 0x205f
    ||| x == 0x3000
}

/// `s` with every white-space character removed.
pub open spec fn without_white(s: Seq<char>) -> Seq<char>
    decreases s.len(),
{
    if s.len() == 0 {
        Seq::empty()
    } else if is_white(s.last()) {
        without_white(s.drop_last())
    } else {
        without_white(s.drop_last()).push(s.last())
    }
}

/// No white space is left in `without_white(s)`.
pub proof fn lemma_without_white(s: Seq<char>)
    ensures
        forall|i: int| 0 <= i < without_white(s).len() ==> !is_white(#[trigger] without_white(s)[i]),
        without_white(s).len() <= s.len(),
    decreases s.len(),
{
    if s.len() > 0 {
        lemma_without_white(s.drop_last());
    }
}

/// The index of the first `c` in `s` at or after `k`, or `s.len()` where there is none.
pub open spec fn index_from(s: Seq<char>, c: char, k: int) -> int
    decreases s.len() - k,
{
    if k < 0 || k >= s.len() {
        s.len() as int
    } else if s[k] == c {
        k
    } else {
        index_from(s, c, k + 1)
    }
}

/// The index of the first `//` in `s` at or after `k`, or `s.len()` where there is none.
pub open spec fn comment_from(s: Seq<char>, k: int) -> int
    decreases s.len() - k,
{
    if k < 0 || k + 1 >= s.len() {
        s.len() as int
    } else if s[k] == '/' && s[k + 1] == '/' {
        k
    } else {
        comment_from(s, k + 1)
    }
}

/// Whether `c` is one of the ten ASCII digits.
pub open spec fn is_digit(c: char) -> bool {
    '0' <= c <= '9'
}

/// The number written in decimal by the digits of `s` (empty: 0).
pub open spec fn decimal_value(s: Seq<char>) -> int
    decreases s.len(),
{
    if s.len() == 0 {
        0
    } else {
        decimal_value(s.drop_last()) * 10 + (s.last() as int - '0' as int)
    }
}

/// The digits of a decimal numeral: `s` without one leading `+`, if it has one.
pub open spec fn unsigned_digits(s: Seq<char>) -> Seq<char> {
    if s.len() > 0 && s[0] == '+' {
        s.drop_first()
    } else {
        s
    }
}

/// Whether every character of `s` is an ASCII digit.
pub open spec fn all_digits(s: Seq<char>) -> bool {
    forall|i: int| 0 <= i < s.len() ==> is_digit(#[trigger] s[i])
}

/// What `str::parse::<u16>` gives for `s`: an optional `+` followed by at
/// least one ASCII digit, whose value fits in 16 bits; `None` otherwise.
pub open spec fn parse_u16_spec(s: Seq<char>) -> Option<u16> {
    let digits = unsigned_digits(s);
    if digits.len() > 0 && all_digits(digits) && decimal_value(digits) <= 0xffff {
        Some(decimal_value(digits) as u16)
    } else {
        None
    }
}

/// Whether two string slices hold the same characters.
pub fn str_eq(a: &str, b: &str) -> (r: bool)
    ensures
        r == (a@ == b@),
{
    let n = a.unicode_len();
    let m = b.unicode_len();
    if n != m {
        return false;
    }
    let mut i: usize = 0;
    while i < n
        invariant
            n == a@.len(),
            m == b@.len(),
            n == m,
            i <= n,
            forall|j: int| 0 <= j < i ==> a@[j] == b@[j],
        decreases n - i,
    {
        if a.get_char(i) != b.get_char(i) {
            return false;
        }
        i = i + 1;
    }
    assert(a@ =~= b@);
    true
}

/// Whether `c` is white space in the sense of `is_white`.
pub fn char_is_white(c: char) -> (r: bool)
    ensures
        r == is_white(c),
{
    let x = c as u32;
    (9 <= x && x <= 13) || x == 0x20 || x == 0x85 || x == 0xa0 || x == 0x1680 || (0x2000 <= x
        && x <= 0x200a) || x == 0x2028 || x == 0x2029 || x == 0x202f || x == 0x205f || x == 0x3000
}

/// The index of the first `c` in `s`, or the length of `s` where there is none.
pub fn find_char(s: &str, c: char) -> (i: usize)
    ensures
        i == index_from(s@, c, 0),
        i <= s@.len(),
{
    let n = s.unicode_len();
    let mut k: usize = 0;
    while k < n
        invariant
            n == s@.len(),
            k <= n,
            index_from(s@, c, 0) == index_from(s@, c, k as int),
        decreases n - k,
    {
        if s.get_char(k) == c {
            return k;
        }
        k = k + 1;
    }
    k
}

/// The index of the first `//` in `s`, or the length of `s` where there is none.
pub fn find_comment(s: &str) -> (i: usize)
    ensures
        i == comment_from(s@, 0),
        i <= s@.len(),
{
    let n = s.unicode_len();
    let mut k: usize = 0;
    while k < n && k + 1 < n
        invariant
            n == s@.len(),
            k <= n,
            comment_from(s@, 0) == comment_from(s@, k as int),
        decreases n - k,
    {
        if s.get_char(k) == '/' && s.get_char(k + 1) == '/' {
            return k;
        }
        k = k + 1;
    }
    n
}

/// The 16 binary digits of `v`, most significant first, as `format!("{:016b}", v)` writes them.
pub open spec fn binary16(v: u16) -> Seq<char> {
    Seq::new(16, |i: int| if (v >> ((15 - i) as u16)) & 1u16 == 1u16 { '1' } else { '0' })
}

/// The number that a string of binary digits denotes (any character but `1` counts as 0).
pub open spec fn binary_value(s: Seq<char>) -> int
    decreases s.len(),
{
    if s.len() == 0 {
        0
    } else {
        binary_value(s.drop_last()) * 2 + (if s.last() == '1' { 1int } else { 0int })
    }
}

proof fn lemma_decimal_step(s: Seq<char>, k: int)
    requires
        0 <= k < s.len(),
    ensures
        decimal_value(s.take(k + 1)) == decimal_value(s.take(k)) * 10 + (s[k] as int - '0' as int),
{
    assert(s.take(k + 1).drop_last() =~= s.take(k));
}

proof fn lemma_decimal_nonneg(s: Seq<char>)
    requires
        forall|i: int| 0 <= i < s.len() ==> is_digit(#[trigger] s[i]),
    ensures
        decimal_value(s) >= 0,
    decreases s.len(),
{
    if s.len() > 0 {
        lemma_decimal_nonneg(s.drop_last());
    }
}

proof fn lemma_decimal_prefix_le(s: Seq<char>, k: int)
    requires
        0 <= k <= s.len(),
        forall|i: int| 0 <= i < s.len() ==> is_digit(#[trigger] s[i]),
    ensures
        decimal_value(s.take(k)) <= decimal_value(s),
    decreases s.len() - k,
{
    if k < s.len() {
        lemma_decimal_step(s, k);
        assert forall|i: int| 0 <= i < s.take(k).len() implies is_digit(#[trigger] s.take(k)[i]) by {
            assert(s.take(k)[i] == s[i]);
        }
        lemma_decimal_nonneg(s.take(k));
        lemma_decimal_prefix_le(s, k + 1);
    } else {
        assert(s.take(k) =~= s);
    }
}

/// Reads an unsigned 16-bit decimal number as `str::parse::<u16>` does.
pub fn parse_u16(s: &str) -> (r: Option<u16>)
    ensures
        r == parse_u16_spec(s@),
        s@.len() > 0 && (forall|i: int| 0 <= i < s@.len() ==> is_digit(#[trigger] s@[i]))
            && decimal_value(s@) <= 0xffff ==> r == Some(decimal_value(s@) as u16),
{
    proof {
        if s@.len() > 0 && (forall|i: int| 0 <= i < s@.len() ==> is_digit(#[trigger] s@[i])) {
            lemma_parse_decimal(s@);
        }
    }
    let n = s.unicode_len();
    let start: usize = if n > 0 && s.get_char(0) == '+' { 1 } else { 0 };
    let ghost digits = unsigned_digits(s@);
    assert(digits =~= s@.skip(start as int));
    if start == n {
        return None;
    }
    let mut v: u32 = 0;
    let mut k: usize = start;
    while k < n
        invariant
            n == s@.len(),
            start <= k <= n,
            digits == s@.skip(start as int),
            digits == unsigned_digits(s@),
            forall|i: int| 0 <= i < k - start ==> is_digit(#[trigger] digits[i]),
            v == decimal_value(digits.take(k - start)),
            v <= 0xffff,
        decreases n - k,
    {
        let c = s.get_char(k);
        proof {
            assert(digits[k - start] == c);
            lemma_decimal_step(digits, k - start);
        }
        if !('0' <= c && c <= '9') {
            assert(!is_digit(digits[k - start]));
            return None;
        }
        let d = (c as u32) - ('0' as u32);
        assert(d == c as int - '0' as int);
        v = v * 10 + d;
        k = k + 1;
        if v > 0xffff {
            proof {
                if all_digits(digits) {
                    lemma_decimal_prefix_le(digits, k - start);
                }
            }
            return None;
        }
    }
    assert(digits.take(n - start) =~= digits);
    Some(v as u16)
}

/// Writes `v` as 16 binary digits, most significant first.
pub fn to_binary16(v: u16) -> (r: String)
    ensures
        r@ == binary16(v),
{
    let mut r = String::new();
    let mut i: u16 = 0;
    while i < 16
        invariant
            i <= 16,
            r@ =~= binary16(v).take(i as int),
        decreases 16 - i,
    {
        proof {
            reveal_strlit("0");
            reveal_strlit("1");
        }
        if (v >> (15 - i)) & 1 == 1 {
            r.append("1");
        } else {
            r.append("0");
        }
        assert(binary16(v).take(i + 1) =~= binary16(v).take(i as int).push(binary16(v)[i as int]));
        i = i + 1;
    }
    r
}

proof fn lemma_binary16_prefix(v: u16, k: u16)
    requires
        1 <= k <= 16,
    ensures
        binary_value(binary16(v).take(k as int)) == (v >> ((16 - k) as u16)) as int,
    decreases k,
{
    let s = binary16(v);
    let sh = (16 - k) as u16;
    assert(s.take(k as int).drop_last() =~= s.take(k - 1));
    assert(s.take(k as int).last() == s[k - 1]);
    assert(s[k - 1] == (if (v >> sh) & 1u16 == 1u16 { '1' } else { '0' }));
    assert(binary_value(s.take(k as int)) == binary_value(s.take(k - 1)) * 2 + (if s[k - 1] == '1' { 1int } else { 0int }));
    if k == 1 {
        assert(s.take(0) =~= Seq::<char>::empty());
        assert((v >> 15u16) & 1u16 == v >> 15u16) by (bit_vector);
        assert(((v >> 15u16) & 1u16) == 1u16 || ((v >> 15u16) & 1u16) == 0u16) by (bit_vector);
    } else {
        lemma_binary16_prefix(v, (k - 1) as u16);
        let sh1 = (16 - (k - 1)) as u16;
        assert(sh1 == sh + 1);
        assert((v >> sh1) * 2 + ((v >> sh) & 1u16) == v >> sh) by (bit_vector)
            requires
                sh < 16,
                sh1 == sh + 1,
        ;
        assert(((v >> sh) & 1u16) == 1u16 || ((v >> sh) & 1u16) == 0u16) by (bit_vector);
    }
}

/// The 16 digits that `to_binary16` writes for `v` are binary and denote `v`.
pub proof fn lemma_binary16_value(v: u16)
    ensures
        binary16(v).len() == 16,
        forall|i: int| 0 <= i < 16 ==> (#[trigger] binary16(v)[i] == '0' || binary16(v)[i] == '1'),
        binary_value(binary16(v)) == v,
{
    lemma_binary16_prefix(v, 16);
    assert(binary16(v).take(16) =~= binary16(v));
    assert(v >> 0u16 == v) by (bit_vector);
}

/// Lexicographic order on character sequences, characters compared by code point.
pub open spec fn lex_less(a: Seq<char>, b: Seq<char>) -> bool
    decreases a.len(),
{
    if a.len() == 0 {
        b.len() > 0
    } else if b.len() == 0 {
        false
    } else if a[0] != b[0] {
        (a[0] as int) < (b[0] as int)
    } else {
        lex_less(a.drop_first(), b.drop_first())
    }
}

/// `lex_less` is a strict total order: no sequence is below itself, any two
/// different sequences are ordered one way, and the order is transitive.
pub proof fn lemma_lex_order(a: Seq<char>, b: Seq<char>, c: Seq<char>)
    ensures
        !lex_less(a, a),
        a != b ==> lex_less(a, b) || lex_less(b, a),
        lex_less(a, b) && lex_less(b, c) ==> lex_less(a, c),
    decreases a.len(),
{
    if a.len() > 0 {
        lemma_lex_order(a.drop_first(), a.drop_first(), a.drop_first());
        if b.len() > 0 {
            lemma_lex_order(a.drop_first(), b.drop_first(), b.drop_first());
            if a[0] != b[0] {
                assert(a[0] as int != b[0] as int);
            }
            if a[0] == b[0] && a != b {
                assert(a.drop_first() != b.drop_first()) by {
                    if a.drop_first() == b.drop_first() {
                        assert forall|j: int| 0 <= j < a.len() implies a[j] == b[j] by {
                            if j > 0 {
                                assert(a[j] == a.drop_first()[j - 1]);
                                assert(b[j] == b.drop_first()[j - 1]);
                            }
                        }
                        assert(a =~= b);
                    }
                }
            }
            if c.len() > 0 {
                lemma_lex_order(a.drop_first(), b.drop_first(), c.drop_first());
            }
        }
    } else {
        if b.len() == 0 {
            assert(a =~= b);
        }
    }
}

proof fn lemma_lex_less_skip(a: Seq<char>, b: Seq<char>, i: int)
    requires
        0 <= i <= a.len(),
        i <= b.len(),
        forall|j: int| 0 <= j < i ==> a[j] == b[j],
    ensures
        lex_less(a, b) == lex_less(a.skip(i), b.skip(i)),
    decreases i,
{
    if i > 0 {
        assert(a[0] == b[0]);
        lemma_lex_less_skip(a.drop_first(), b.drop_first(), i - 1);
        assert(a.drop_first().skip(i - 1) =~= a.skip(i));
        assert(b.drop_first().skip(i - 1) =~= b.skip(i));
    } else {
        assert(a.skip(0) =~= a);
        assert(b.skip(0) =~= b);
    }
}

/// Whether `a` comes before `b` in lexicographic order.
pub fn str_less(a: &str, b: &str) -> (r: bool)
    ensures
        r == lex_less(a@, b@),
{
    let n = a.unicode_len();
    let m = b.unicode_len();
    let mut i: usize = 0;
    while i < n && i < m
        invariant
            n == a@.len(),
            m == b@.len(),
            i <= n,
            i <= m,
            forall|j: int| 0 <= j < i ==> a@[j] == b@[j],
        decreases n - i,
    {
        let x = a.get_char(i);
        let y = b.get_char(i);
        if x != y {
            proof {
                lemma_lex_less_skip(a@, b@, i as int);
                assert(a@.skip(i as int)[0] == x);
                assert(b@.skip(i as int)[0] == y);
            }
            return (x as u32) < (y as u32);
        }
        i = i + 1;
    }
    proof {
        lemma_lex_less_skip(a@, b@, i as int);
    }
    i < m
}

/// A numeral of ASCII digits reads as its decimal value where that fits in
/// 16 bits, and as nothing otherwise; a leading `+` changes nothing.
pub proof fn lemma_parse_decimal(s: Seq<char>)
    requires
        s.len() > 0,
        forall|i: int| 0 <= i < s.len() ==> is_digit(#[trigger] s[i]),
    ensures
        decimal_value(s) >= 0,
        decimal_value(s) <= 0xffff ==> parse_u16_spec(s) == Some(decimal_value(s) as u16),
        decimal_value(s) > 0xffff ==> parse_u16_spec(s) is None,
        parse_u16_spec(seq!['+'] + s) == parse_u16_spec(s),
{
    lemma_decimal_nonneg(s);
    assert(s[0] != '+');
    assert(unsigned_digits(s) == s);
    assert((seq!['+'] + s).drop_first() =~= s);
    assert(unsigned_digits(seq!['+'] + s) == s);
}

/// Removing white space keeps every other character, in order, and drops
/// nothing else: it is the filter that keeps what is not white space.
pub proof fn lemma_without_white_is_filter(s: Seq<char>)
    ensures
        without_white(s) == s.filter(|c: char| !is_white(c)),
    decreases s.len(),
{
    let keep = |c: char| !is_white(c);
    if s.len() > 0 {
        lemma_without_white_is_filter(s.drop_last());
        assert(s.drop_last().filter(|c: char| !is_white(c)) == s.drop_last().filter(keep));
        reveal_with_fuel(Seq::filter, 1);
        assert(s.filter(keep) == (if keep(s.last()) {
            s.drop_last().filter(keep).push(s.last())
        } else {
            s.drop_last().filter(keep)
        }));
    }
    assert(s.filter(|c: char| !is_white(c)) == s.filter(keep));
}

/// `index_from(s, c, m)` is the first position at or after `m` that holds
/// `c`, or the length of `s` where none does.
pub proof fn lemma_index_from_first(s: Seq<char>, c: char, m: int)
    requires
        0 <= m <= s.len(),
    ensures
        m <= index_from(s, c, m) <= s.len(),
        index_from(s, c, m) < s.len() ==> s[index_from(s, c, m)] == c,
        forall|j: int| m <= j < index_from(s, c, m) ==> s[j] != c,
    decreases s.len() - m,
{
    if m < s.len() && s[m] != c {
        lemma_index_from_first(s, c, m + 1);
    }
}

/// `comment_from(s, m)` is the first position at or after `m` where `//`
/// starts, or the length of `s` where none does.
pub proof fn lemma_comment_from_first(s: Seq<char>, m: int)
    requires
        0 <= m <= s.len(),
    ensures
        m <= comment_from(s, m) <= s.len(),
        comment_from(s, m) < s.len() ==> comment_from(s, m) + 1 < s.len() && s[comment_from(s, m)]
            == '/' && s[comment_from(s, m) + 1] == '/',
        forall|j: int|
            m <= j < comment_from(s, m) && j + 1 < s.len() ==> !(#[trigger] s[j] == '/' && s[j + 1]
                == '/'),
    decreases s.len() - m,
{
    if m + 1 < s.len() && !(s[m] == '/' && s[m + 1] == '/') {
        lemma_comment_from_first(s, m + 1);
    }
}

} // verus!
