//! Verified helpers over string slices: equality, prefix and substring
//! tests, stated over the character-sequence views of the inputs.

use vstd::prelude::*;

verus! {

/// `p` is a prefix of `s`.
pub open spec fn is_prefix_of(p: Seq<char>, s: Seq<char>) -> bool {
    p.len() <= s.len() && s.subrange(0, p.len() as int) == p
}

/// `sub` occurs in `s` starting at position `at`.
pub open spec fn occurs_at(s: Seq<char>, sub: Seq<char>, at: int) -> bool {
    0 <= at && at + sub.len() <= s.len() && s.subrange(at, at + sub.len() as int) == sub
}

/// `sub` occurs somewhere in `s`.
pub open spec fn contains_seq(s: Seq<char>, sub: Seq<char>) -> bool {
    exists|at: int| occurs_at(s, sub, at)
}

/// Character-by-character equality of two string slices.
pub fn str_eq(a: &str, b: &str) -> (r: bool)
    ensures
        r == (a@ == b@),
{
    let alen = a.unicode_len();
    let blen = b.unicode_len();
    if alen != blen {
        assert(a@.len() != b@.len());
        return false;
    }
    let mut i: usize = 0;
    while i < alen
        invariant
            alen == a@.len(),
            alen == b@.len(),
            i <= alen,
            forall|k: int| 0 <= k < i ==> a@[k] == b@[k],
        decreases alen - i,
    {
        if a.get_char(i) != b.get_char(i) {
            assert(a@[i as int] != b@[i as int]);
            return false;
        }
        i = i + 1;
    }
    assert(a@ =~= b@);
    true
}

/// Whether `sub` occurs in `s` starting at character position `at`.
pub fn matches_at(s: &str, sub: &str, at: usize) -> (r: bool)
    ensures
        r == occurs_at(s@, sub@, at as int),
{
    let slen = s.unicode_len();
    let sublen = sub.unicode_len();
    if sublen > slen || at > slen - sublen {
        assert(!occurs_at(s@, sub@, at as int));
        return false;
    }
    let mut i: usize = 0;
    while i < sublen
        invariant
            slen == s@.len(),
            sublen == sub@.len(),
            at + sublen <= slen,
            i <= sublen,
            forall|k: int| 0 <= k < i ==> s@[at + k] == sub@[k],
        decreases sublen - i,
    {
        if s.get_char(at + i) != sub.get_char(i) {
            assert(s@[at + i] != sub@[i as int]);
            assert(!occurs_at(s@, sub@, at as int)) by {
                if s@.subrange(at as int, at + sub@.len() as int) == sub@ {
                    assert(s@.subrange(at as int, at + sub@.len() as int)[i as int] == sub@[i as int]);
                }
            }
            return false;
        }
        i = i + 1;
    }
    assert(s@.subrange(at as int, at + sub@.len() as int) =~= sub@);
    true
}

/// Whether `p` is a prefix of `s`.
pub fn str_starts_with(s: &str, p: &str) -> (r: bool)
    ensures
        r == is_prefix_of(p@, s@),
{
    let r = matches_at(s, p, 0);
    assert(occurs_at(s@, p@, 0) == is_prefix_of(p@, s@));
    r
}

/// The lowercase mapping of one character, ASCII letters only; every other
/// character is left as it is.
pub open spec fn ascii_lower_char(c: char) -> char {
    if 'A' <= c && c <= 'Z' {
        ((c as u8) + 32) as char
    } else {
        c
    }
}

/// Equality of two character sequences up to ASCII case.
pub open spec fn ascii_eq_ci(a: Seq<char>, b: Seq<char>) -> bool {
    a.len() == b.len() && forall|i: int|
        0 <= i < a.len() ==> ascii_lower_char(a[i]) == ascii_lower_char(b[i])
}

/// Compare two string slices ignoring ASCII case.
pub fn str_eq_ignore_ascii_case(a: &str, b: &str) -> (r: bool)
    ensures
        r == ascii_eq_ci(a@, b@),
{
    let alen = a.unicode_len();
    let blen = b.unicode_len();
    if alen != blen {
        return false;
    }
    let mut i: usize = 0;
    while i < alen
        invariant
            alen == a@.len(),
            alen == b@.len(),
            i <= alen,
            forall|k: int| 0 <= k < i ==> ascii_lower_char(a@[k]) == ascii_lower_char(b@[k]),
        decreases alen - i,
    {
        let ca = a.get_char(i);
        let cb = b.get_char(i);
        let la: char = if 'A' <= ca && ca <= 'Z' {
            ((ca as u8) + 32) as char
        } else {
            ca
        };
        let lb: char = if 'A' <= cb && cb <= 'Z' {
            ((cb as u8) + 32) as char
        } else {
            cb
        };
        if la != lb {
            assert(ascii_lower_char(a@[i as int]) != ascii_lower_char(b@[i as int]));
            return false;
        }
        i = i + 1;
    }
    true
}

/// Whether `sub` occurs anywhere in `s`.
pub fn str_contains(s: &str, sub: &str) -> (r: bool)
    ensures
        r == contains_seq(s@, sub@),
{
    let slen = s.unicode_len();
    let sublen = sub.unicode_len();
    if sublen > slen {
        assert(forall|at: int| !occurs_at(s@, sub@, at));
        return false;
    }
    if sublen == 0 {
        assert(s@.subrange(0, 0) =~= sub@);
        assert(occurs_at(s@, sub@, 0));
        return true;
    }
    let mut at: usize = 0;
    while at <= slen - sublen
        invariant
            slen == s@.len(),
            sublen == sub@.len(),
            1 <= sublen <= slen,
            at <= slen - sublen + 1,
            forall|j: int| 0 <= j < at ==> !occurs_at(s@, sub@, j),
        decreases slen - sublen - at + 1,
    {
        if matches_at(s, sub, at) {
            assert(contains_seq(s@, sub@));
            return true;
        }
        at = at + 1;
    }
    assert(forall|j: int| !occurs_at(s@, sub@, j));
    false
}

} // verus!
