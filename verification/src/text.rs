//! Verified helpers on strings: equality, lexicographic order by character
//! code, and fixed-width hexadecimal rendering.  The catalog uses the order
//! for its sort and the hexadecimal digits for placeholder names of unknown
//! language ids.

use vstd::prelude::*;

verus! {

/// Lexicographic order on character sequences, by code point.  For valid
/// UTF-8 this agrees with the byte order `str` comparison uses.
pub open spec fn lex_le(s: Seq<char>, t: Seq<char>) -> bool
    decreases s.len(),
{
    if s.len() == 0 {
        true
    } else if t.len() == 0 {
        false
    } else if (s[0] as int) < (t[0] as int) {
        true
    } else if s[0] == t[0] {
        lex_le(s.skip(1), t.skip(1))
    } else {
        false
    }
}

/// Any two character sequences are ordered one way or the other.
pub proof fn lemma_lex_le_total(s: Seq<char>, t: Seq<char>)
    ensures
        lex_le(s, t) || lex_le(t, s),
    decreases s.len(),
{
    if s.len() == 0 || t.len() == 0 {
    } else if s[0] == t[0] {
        lemma_lex_le_total(s.skip(1), t.skip(1));
    } else {
        assert((s[0] as int) != (t[0] as int));
    }
}

/// Lexicographic order is transitive.
pub proof fn lemma_lex_le_trans(s: Seq<char>, t: Seq<char>, u: Seq<char>)
    requires
        lex_le(s, t),
        lex_le(t, u),
    ensures
        lex_le(s, u),
    decreases s.len(),
{
    if s.len() == 0 {
    } else if t.len() == 0 {
    } else if u.len() == 0 {
    } else if s[0] == t[0] && t[0] == u[0] {
        lemma_lex_le_trans(s.skip(1), t.skip(1), u.skip(1));
    }
}

/// Skipping an equal prefix of both sequences does not change their order.
proof fn lemma_lex_le_skip(s: Seq<char>, t: Seq<char>, i: int)
    requires
        0 <= i <= s.len(),
        i <= t.len(),
        forall|j: int| 0 <= j < i ==> s[j] == t[j],
    ensures
        lex_le(s, t) == lex_le(s.skip(i), t.skip(i)),
    decreases i,
{
    if i > 0 {
        assert(s.len() > 0 && t.len() > 0);
        assert(s[0] == t[0]);
        lemma_lex_le_skip(s.skip(1), t.skip(1), i - 1);
        assert(s.skip(1).skip(i - 1) =~= s.skip(i));
        assert(t.skip(1).skip(i - 1) =~= t.skip(i));
    } else {
        assert(s.skip(0) =~= s);
        assert(t.skip(0) =~= t);
    }
}

/// Whether two string slices hold the same characters.
pub fn str_eq(a: &str, b: &str) -> (r: bool)
    ensures
        r == (a@ == b@),
{
    let a_len = a.unicode_len();
    let b_len = b.unicode_len();
    if a_len != b_len {
        return false;
    }
    let mut i: usize = 0;
    while i < a_len
        invariant
            a_len == a@.len(),
            a_len == b@.len(),
            0 <= i <= a_len,
            forall|j: int| 0 <= j < i ==> a@[j] == b@[j],
        decreases a_len - i,
    {
        if a.get_char(i) != b.get_char(i) {
            return false;
        }
        i = i + 1;
    }
    proof {
        assert(a@ =~= b@);
    }
    true
}

/// Whether `a` orders at or before `b` lexicographically.
pub fn str_le(a: &str, b: &str) -> (r: bool)
    ensures
        r == lex_le(a@, b@),
{
    let a_len = a.unicode_len();
    let b_len = b.unicode_len();
    let mut i: usize = 0;
    loop
        invariant
            a_len == a@.len(),
            b_len == b@.len(),
            0 <= i <= a_len,
            i <= b_len,
            forall|j: int| 0 <= j < i ==> a@[j] == b@[j],
        decreases a_len - i,
    {
        proof {
            lemma_lex_le_skip(a@, b@, i as int);
        }
        if i >= a_len {
            return true;
        }
        if i >= b_len {
            return false;
        }
        let ca = a.get_char(i);
        let cb = b.get_char(i);
        if (ca as u32) < (cb as u32) {
            return true;
        }
        if ca != cb {
            return false;
        }
        i = i + 1;
    }
}

/// The upper-case hexadecimal digit for a value below sixteen.
pub open spec fn nibble_upper(d: int) -> char {
    if d == 0 { '0' } else if d == 1 { '1' } else if d == 2 { '2' }
    else if d == 3 { '3' } else if d == 4 { '4' } else if d == 5 { '5' }
    else if d == 6 { '6' } else if d == 7 { '7' } else if d == 8 { '8' }
    else if d == 9 { '9' } else if d == 10 { 'A' } else if d == 11 { 'B' }
    else if d == 12 { 'C' } else if d == 13 { 'D' } else if d == 14 { 'E' }
    else { 'F' }
}

/// The lower-case hexadecimal digit for a value below sixteen.
pub open spec fn nibble_lower(d: int) -> char {
    if d == 0 { '0' } else if d == 1 { '1' } else if d == 2 { '2' }
    else if d == 3 { '3' } else if d == 4 { '4' } else if d == 5 { '5' }
    else if d == 6 { '6' } else if d == 7 { '7' } else if d == 8 { '8' }
    else if d == 9 { '9' } else if d == 10 { 'a' } else if d == 11 { 'b' }
    else if d == 12 { 'c' } else if d == 13 { 'd' } else if d == 14 { 'e' }
    else { 'f' }
}

fn nibble_upper_str(d: u32) -> (r: &'static str)
    requires
        d < 16,
    ensures
        r@ =~= seq![nibble_upper(d as int)],
{
    proof {
        reveal_strlit("0"); reveal_strlit("1"); reveal_strlit("2"); reveal_strlit("3");
        reveal_strlit("4"); reveal_strlit("5"); reveal_strlit("6"); reveal_strlit("7");
        reveal_strlit("8"); reveal_strlit("9"); reveal_strlit("A"); reveal_strlit("B");
        reveal_strlit("C"); reveal_strlit("D"); reveal_strlit("E"); reveal_strlit("F");
    }
    match d {
        0 => "0", 1 => "1", 2 => "2", 3 => "3",
        4 => "4", 5 => "5", 6 => "6", 7 => "7",
        8 => "8", 9 => "9", 10 => "A", 11 => "B",
        12 => "C", 13 => "D", 14 => "E", _ => "F",
    }
}

fn nibble_lower_str(d: u32) -> (r: &'static str)
    requires
        d < 16,
    ensures
        r@ =~= seq![nibble_lower(d as int)],
{
    proof {
        reveal_strlit("0"); reveal_strlit("1"); reveal_strlit("2"); reveal_strlit("3");
        reveal_strlit("4"); reveal_strlit("5"); reveal_strlit("6"); reveal_strlit("7");
        reveal_strlit("8"); reveal_strlit("9"); reveal_strlit("a"); reveal_strlit("b");
        reveal_strlit("c"); reveal_strlit("d"); reveal_strlit("e"); reveal_strlit("f");
    }
    match d {
        0 => "0", 1 => "1", 2 => "2", 3 => "3",
        4 => "4", 5 => "5", 6 => "6", 7 => "7",
        8 => "8", 9 => "9", 10 => "a", 11 => "b",
        12 => "c", 13 => "d", 14 => "e", _ => "f",
    }
}

/// A sixteen-bit value as four upper-case hexadecimal digits.
pub open spec fn hex4_upper(n: int) -> Seq<char> {
    seq![
        nibble_upper((n / 0x1000) % 16),
        nibble_upper((n / 0x100) % 16),
        nibble_upper((n / 0x10) % 16),
        nibble_upper(n % 16),
    ]
}

/// An eight-bit value as two lower-case hexadecimal digits.
pub open spec fn hex2_lower(n: int) -> Seq<char> {
    seq![nibble_lower((n / 0x10) % 16), nibble_lower(n % 16)]
}

/// Renders a sixteen-bit value as four upper-case hexadecimal digits.
pub fn hex4_upper_string(n: u32) -> (r: String)
    requires
        n <= 0xFFFF,
    ensures
        r@ =~= hex4_upper(n as int),
{
    let mut s = String::new();
    s.append(nibble_upper_str((n / 0x1000) % 16));
    s.append(nibble_upper_str((n / 0x100) % 16));
    s.append(nibble_upper_str((n / 0x10) % 16));
    s.append(nibble_upper_str(n % 16));
    s
}

/// Renders an eight-bit value as two lower-case hexadecimal digits.
pub fn hex2_lower_string(n: u8) -> (r: String)
    ensures
        r@ =~= hex2_lower(n as int),
{
    let mut s = String::new();
    s.append(nibble_lower_str((n as u32 / 0x10) % 16));
    s.append(nibble_lower_str(n as u32 % 16));
    s
}

} // verus!
