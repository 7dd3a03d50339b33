//! Text comparisons used by the list filters.
//!
//! Dates are compared lexicographically by code point, which on the
//! ISO-like, lexically sortable date strings of the transaction table is
//! chronological order and agrees with SQLite's BINARY collation on UTF-8
//! text.  Substring filters fold the 26 ASCII letters, as SQLite's default
//! `LIKE` does, and are exact on every other character; the filter text
//! itself is taken literally, carrying no wildcards of its own.

use vstd::prelude::*;
use vstd::string::StrSliceExecFns;

verus! {

/// Strict lexicographic order on character sequences, by code point.
pub open spec fn lex_lt(a: Seq<char>, b: Seq<char>) -> bool
    decreases a.len(),
{
    if b.len() == 0 {
        false
    } else if a.len() == 0 {
        true
    } else if a.first() != b.first() {
        a.first() < b.first()
    } else {
        lex_lt(a.drop_first(), b.drop_first())
    }
}

/// `a` comes no later than `b`: the order `lex_lt` is total, so `a <= b`
/// is the same as `b` not being strictly smaller.
pub open spec fn lex_le(a: Seq<char>, b: Seq<char>) -> bool {
    !lex_lt(b, a)
}

/// A shared proper prefix settles nothing: the comparison is decided by
/// what follows it.
proof fn lemma_lex_lt_skip(a: Seq<char>, b: Seq<char>, i: int)
    requires
        0 <= i <= a.len(),
        i <= b.len(),
        forall|j: int| 0 <= j < i ==> a[j] == b[j],
    ensures
        lex_lt(a, b) == lex_lt(a.skip(i), b.skip(i)),
    decreases i,
{
    if i > 0 {
        assert(a.first() == b.first());
        assert(a.drop_first().skip(i - 1) =~= a.skip(i));
        assert(b.drop_first().skip(i - 1) =~= b.skip(i));
        lemma_lex_lt_skip(a.drop_first(), b.drop_first(), i - 1);
    } else {
        assert(a.skip(0) =~= a);
        assert(b.skip(0) =~= b);
    }
}

/// Compares two strings in the order `lex_lt`.
pub fn str_lex_lt(a: &str, b: &str) -> (r: bool)
    ensures
        r == lex_lt(a@, b@),
{
    let a_len = a.unicode_len();
    let b_len = b.unicode_len();
    let mut i: usize = 0;
    loop
        invariant
            0 <= i <= a_len,
            i <= b_len,
            a_len == a@.len(),
            b_len == b@.len(),
            forall|j: int| 0 <= j < i ==> a@[j] == b@[j],
        decreases a_len - i,
    {
        if i == a_len || i == b_len {
            proof {
                lemma_lex_lt_skip(a@, b@, i as int);
            }
            return i == a_len && i < b_len;
        }
        let ca = a.get_char(i);
        let cb = b.get_char(i);
        if ca != cb {
            proof {
                lemma_lex_lt_skip(a@, b@, i as int);
                assert(a@.skip(i as int).first() == ca);
                assert(b@.skip(i as int).first() == cb);
            }
            return ca < cb;
        }
        i = i + 1;
    }
}

/// Compares two strings in the order `lex_le`.
pub fn str_lex_le(a: &str, b: &str) -> (r: bool)
    ensures
        r == lex_le(a@, b@),
{
    !str_lex_lt(b, a)
}

/// Whether `c` is one of the upper-case letters `A` to `Z`.
pub open spec fn ascii_upper(c: char) -> bool {
    ('A' as u32) <= (c as u32) && (c as u32) <= ('Z' as u32)
}

/// Character equality up to ASCII case: `A` to `Z` match their lower-case
/// forms 32 code points later, and every other character matches itself.
pub open spec fn ci_eq(a: char, b: char) -> bool {
    ||| (a as u32) == (b as u32)
    ||| (ascii_upper(a) && (b as u32) == (a as u32) + 32)
    ||| (ascii_upper(b) && (a as u32) == (b as u32) + 32)
}

/// `needle` occurs at position `k` of `hay`, up to ASCII case.
pub open spec fn ci_match_at(hay: Seq<char>, needle: Seq<char>, k: int) -> bool {
    forall|j: int| 0 <= j < needle.len() ==> ci_eq(hay[k + j], needle[j])
}

/// `needle` occurs somewhere in `hay`, up to ASCII case.
pub open spec fn contains_ci(hay: Seq<char>, needle: Seq<char>) -> bool {
    exists|k: int| 0 <= k && k + needle.len() <= hay.len() && ci_match_at(hay, needle, k)
}

/// Character equality up to ASCII case.
pub fn chars_ci_eq(a: char, b: char) -> (r: bool)
    ensures
        r == ci_eq(a, b),
{
    let x = a as u32;
    let y = b as u32;
    x == y || (65 <= x && x <= 90 && y == x + 32) || (65 <= y && y <= 90 && x == y + 32)
}

/// Whether `needle` occurs at position `k` of `hay`, up to ASCII case.
fn ci_match_range(hay: &str, needle: &str, k: usize) -> (r: bool)
    requires
        k + needle@.len() <= hay@.len(),
    ensures
        r == ci_match_at(hay@, needle@, k as int),
{
    let hay_len = hay.unicode_len();
    let needle_len = needle.unicode_len();
    let mut j: usize = 0;
    while j < needle_len
        invariant
            k + needle@.len() <= hay@.len(),
            hay_len == hay@.len(),
            needle_len == needle@.len(),
            0 <= j <= needle_len,
            forall|j2: int| 0 <= j2 < j ==> ci_eq(hay@[k + j2], needle@[j2]),
        decreases needle_len - j,
    {
        if !chars_ci_eq(hay.get_char(k + j), needle.get_char(j)) {
            return false;
        }
        j = j + 1;
    }
    true
}

/// Substring containment up to ASCII case: what the `%needle%` pattern of
/// SQLite's default `LIKE` accepts.
pub fn str_contains_ci(hay: &str, needle: &str) -> (r: bool)
    ensures
        r == contains_ci(hay@, needle@),
{
    let hay_len = hay.unicode_len();
    let needle_len = needle.unicode_len();
    if needle_len > hay_len {
        return false;
    }
    let mut k: usize = 0;
    while k <= hay_len - needle_len
        invariant
            needle_len <= hay_len,
            hay_len == hay@.len(),
            needle_len == needle@.len(),
            0 <= k <= hay_len - needle_len + 1,
            forall|k2: int| 0 <= k2 < k ==> !ci_match_at(hay@, needle@, k2),
        decreases hay_len - needle_len - k + 1,
    {
        if ci_match_range(hay, needle, k) {
            return true;
        }
        k = k + 1;
    }
    false
}

/// A copy of an optional text field, equal to the original.
pub fn clone_opt_string(o: &Option<String>) -> (r: Option<String>)
    ensures
        r == *o,
{
    match o {
        Option::None => Option::None,
        Option::Some(s) => Option::Some(s.clone()),
    }
}

} // verus!
