//! ASCII text: assembling header values from verified bytes, lowercase
//! folding, and the string scans that parsing needs.

use vstd::prelude::*;
use crate::digits::chars_of;

verus! {

/// Every byte is in the ASCII range.
pub open spec fn all_ascii_bytes(v: Seq<u8>) -> bool {
    forall|i: int| 0 <= i < v.len() ==> #[trigger] v[i] < 128
}

/// Relies on String::from_utf8_lossy: ASCII bytes are valid UTF-8 and decode,
/// unchanged, to the characters with the same code points.
#[verifier::external_body]
pub(crate) fn string_from_ascii(v: &Vec<u8>) -> (r: String)
    requires
        all_ascii_bytes(v@),
    ensures
        r@ == chars_of(v@),
{
    String::from_utf8_lossy(v.as_slice()).into_owned()
}

/// Append the bytes of an ASCII string to a byte vector.
pub fn push_ascii_str(v: &mut Vec<u8>, s: &str)
    requires
        s.is_ascii(),
    ensures
        final(v)@.len() == old(v)@.len() + s@.len(),
        chars_of(final(v)@) == chars_of(old(v)@) + s@,
        all_ascii_bytes(old(v)@) ==> all_ascii_bytes(final(v)@),
{
    let n = s.unicode_len();
    let mut k: usize = 0;
    while k < n
        invariant
            s.is_ascii(),
            k <= n == s@.len(),
            v@.len() == old(v)@.len() + k,
            forall|i: int| 0 <= i < old(v)@.len() ==> v@[i] == old(v)@[i],
            forall|i: int| 0 <= i < k ==> v@[old(v)@.len() + i] == s@[i] as u8,
        decreases n - k,
    {
        let b = s.get_ascii(k);
        v.push(b);
        k = k + 1;
    }
    proof {
        assert forall|i: int| 0 <= i < v@.len() implies chars_of(v@)[i] == (chars_of(old(v)@)
            + s@)[i] by {
            if i >= old(v)@.len() {
                assert(v@[i] == s@[i - old(v)@.len()] as u8);
                assert(s@[i - old(v)@.len()] <= '\u{7f}');
            }
        }
        assert(chars_of(v@) =~= chars_of(old(v)@) + s@);
        if all_ascii_bytes(old(v)@) {
            assert forall|i: int| 0 <= i < v@.len() implies #[trigger] v@[i] < 128 by {
                if i >= old(v)@.len() {
                    assert(s@[i - old(v)@.len()] <= '\u{7f}');
                }
            }
        }
    }
}

/// ASCII lowercase folding of one character.
pub open spec fn fold_char(c: char) -> char {
    if 'A' <= c && c <= 'Z' {
        ((c as u8 + 32) as u8) as char
    } else {
        c
    }
}

/// ASCII lowercase folding of text.
pub open spec fn fold(s: Seq<char>) -> Seq<char> {
    s.map_values(|c: char| fold_char(c))
}

/// Whether the characters of `s` between `from` and `to`, folded to ASCII
/// lowercase, are exactly `lit`.
pub fn fold_eq(s: &str, from: usize, to: usize, lit: &str) -> (r: bool)
    requires
        from <= to <= s@.len(),
    ensures
        r == (fold(s@.subrange(from as int, to as int)) == lit@),
{
    let ghost t = s@.subrange(from as int, to as int);
    let n = to - from;
    if n != lit.unicode_len() {
        return false;
    }
    let mut k: usize = 0;
    while k < n
        invariant
            from <= to <= s@.len(),
            t == s@.subrange(from as int, to as int),
            n == to - from,
            n == lit@.len(),
            k <= n,
            forall|m: int| 0 <= m < k ==> fold_char(t[m]) == lit@[m],
        decreases n - k,
    {
        let c = s.get_char(from + k);
        let cv = c as u32;
        let fc: char = if 65 <= cv && cv <= 90 {
            ((cv + 32) as u8) as char
        } else {
            c
        };
        proof {
            assert(fc == fold_char(t[k as int]));
        }
        if fc != lit.get_char(k) {
            proof {
                assert(fold(t)[k as int] != lit@[k as int]);
            }
            return false;
        }
        k = k + 1;
    }
    proof {
        assert(fold(t) =~= lit@);
    }
    true
}

/// Whether `s` begins with the characters of `p`.
pub fn has_prefix(s: &str, p: &str) -> (r: bool)
    ensures
        r == (s@.len() >= p@.len() && s@.subrange(0, p@.len() as int) == p@),
{
    let pn = p.unicode_len();
    let n = s.unicode_len();
    if n < pn {
        return false;
    }
    let mut k: usize = 0;
    while k < pn
        invariant
            pn == p@.len() <= n == s@.len(),
            k <= pn,
            forall|m: int| 0 <= m < k ==> s@[m] == p@[m],
        decreases pn - k,
    {
        if s.get_char(k) != p.get_char(k) {
            proof {
                assert(s@.subrange(0, p@.len() as int)[k as int] != p@[k as int]);
            }
            return false;
        }
        k = k + 1;
    }
    proof {
        assert(s@.subrange(0, p@.len() as int) =~= p@);
    }
    true
}

/// The first position at or after `from` where `c` occurs in `s`, if any.
pub fn find_char_from(s: &str, from: usize, c: char) -> (r: Option<usize>)
    requires
        from <= s@.len(),
    ensures
        match r {
            Some(i) => from <= i < s@.len() && s@[i as int] == c && (forall|j: int|
                from <= j < i ==> s@[j] != c),
            None => forall|j: int| from <= j < s@.len() ==> s@[j] != c,
        },
{
    let n = s.unicode_len();
    let mut k = from;
    while k < n
        invariant
            from <= k <= n == s@.len(),
            forall|j: int| from <= j < k ==> s@[j] != c,
        decreases n - k,
    {
        if s.get_char(k) == c {
            return Some(k);
        }
        k = k + 1;
    }
    None
}

/// The last position where `c` occurs in `s`, if any.
pub fn rfind_char(s: &str, c: char) -> (r: Option<usize>)
    ensures
        match r {
            Some(i) => i < s@.len() && s@[i as int] == c && (forall|j: int|
                i < j < s@.len() ==> s@[j] != c),
            None => forall|j: int| 0 <= j < s@.len() ==> s@[j] != c,
        },
{
    let mut k = s.unicode_len();
    while k > 0
        invariant
            k <= s@.len(),
            forall|j: int| k <= j < s@.len() ==> s@[j] != c,
        decreases k,
    {
        k = k - 1;
        if s.get_char(k) == c {
            return Some(k);
        }
    }
    None
}

} // verus!
