//! Decoding a resource identifier: remove the scheme prefix and
//! percent-decode the remainder into a filesystem path. Decoding never fails:
//! malformed escapes fall back to a lossy best-effort string.

use vstd::prelude::*;
use vstd::string::StringSliceAdditionalSpecFns;
use vstd::utf8::encode_utf8;

verus! {

broadcast use vstd::utf8::is_ascii_chars_encode_utf8;

/// The custom scheme prefix that resource identifiers carry.
pub open spec fn scheme_prefix() -> Seq<char> {
    "frameflow://"@
}

/// The UTF-8 bytes of the scheme prefix.
pub open spec fn scheme_bytes() -> Seq<u8> {
    encode_utf8(scheme_prefix())
}

/// The scheme prefix occurs in `b` at position `i`.
pub open spec fn scheme_at(b: Seq<u8>, i: int) -> bool {
    &&& 0 <= i
    &&& i + scheme_bytes().len() <= b.len()
    &&& b.subrange(i, i + scheme_bytes().len() as int) == scheme_bytes()
}

/// The first position at or after `k` where the scheme prefix occurs.
pub open spec fn find_scheme_from(b: Seq<u8>, k: int) -> Option<int>
    recommends
        0 <= k,
    decreases b.len() - k,
{
    if k < 0 || k >= b.len() {
        None
    } else if scheme_at(b, k) {
        Some(k)
    } else {
        find_scheme_from(b, k + 1)
    }
}

/// The identifier's bytes with the first occurrence of the scheme removed.
pub open spec fn strip_scheme(b: Seq<u8>) -> Seq<u8> {
    match find_scheme_from(b, 0) {
        None => b,
        Some(i) => b.subrange(0, i) + b.subrange(i + scheme_bytes().len() as int, b.len() as int),
    }
}

/// What `find_scheme_from` finds is the first occurrence at or after `k`.
proof fn lemma_find_scheme_from(b: Seq<u8>, k: int)
    requires
        0 <= k,
    ensures
        match find_scheme_from(b, k) {
            Some(i) => k <= i && scheme_at(b, i) && (forall|j: int| k <= j < i ==> !scheme_at(b, j)),
            None => forall|j: int| k <= j ==> !scheme_at(b, j),
        },
    decreases b.len() - k,
{
    if k >= b.len() {
        lemma_scheme_bytes();
        assert forall|j: int| k <= j implies !scheme_at(b, j) by {
            assert(scheme_at(b, j) ==> j + scheme_bytes().len() <= b.len());
        }
    } else if scheme_at(b, k) {
    } else {
        lemma_find_scheme_from(b, k + 1);
    }
}

/// The scheme prefix is twelve ASCII bytes.
proof fn lemma_scheme_bytes()
    ensures
        scheme_bytes().len() == 12,
        forall|i: int|
            0 <= i < 12 ==> #[trigger] scheme_bytes()[i] == scheme_prefix()[i] as u8,
{
    reveal_strlit("frameflow://");
    assert(vstd::utf8::is_ascii_chars(scheme_prefix()));
}

/// Whether the twelve bytes of `p` occur in `u` at position `j`.
fn match_at(u: &Vec<u8>, p: &Vec<u8>, j: usize) -> (r: bool)
    requires
        j + p@.len() <= u@.len(),
    ensures
        r == (u@.subrange(j as int, j as int + p@.len() as int) == p@),
{
    let un = u.len();
    let pn = p.len();
    let mut k: usize = 0;
    while k < pn
        invariant
            un == u@.len(),
            pn == p@.len(),
            j + p@.len() <= u@.len(),
            k <= p@.len(),
            forall|m: int| 0 <= m < k ==> u@[j + m] == p@[m],
        decreases p@.len() - k,
    {
        if u[j + k] != p[k] {
            proof {
                assert(u@.subrange(j as int, j as int + p@.len() as int)[k as int] != p@[k as int]);
            }
            return false;
        }
        k = k + 1;
    }
    proof {
        assert(u@.subrange(j as int, j as int + p@.len() as int) =~= p@);
    }
    true
}

/// The first occurrence of the scheme prefix in `u`, if any.
fn find_scheme(u: &Vec<u8>, p: &Vec<u8>) -> (r: Option<usize>)
    requires
        p@ == scheme_bytes(),
    ensures
        match r {
            Some(i) => find_scheme_from(u@, 0) == Some(i as int),
            None => find_scheme_from(u@, 0) is None,
        },
{
    proof {
        lemma_scheme_bytes();
        lemma_find_scheme_from(u@, 0);
    }
    let mut j: usize = 0;
    if u.len() < p.len() {
        return None;
    }
    let un = u.len();
    let stop = un - p.len();
    while j <= stop
        invariant
            p@ == scheme_bytes(),
            scheme_bytes().len() == 12,
            un == u@.len(),
            p@.len() <= u@.len(),
            stop == u@.len() - p@.len(),
            j <= stop + 1,
            forall|m: int| 0 <= m < j ==> !scheme_at(u@, m),
        decreases stop + 1 - j,
    {
        if match_at(u, p, j) {
            proof {
                lemma_find_scheme_from(u@, 0);
                assert(scheme_at(u@, j as int));
                match find_scheme_from(u@, 0) {
                    Some(i) => {
                        assert(!(i < j));
                        assert(!(j < i));
                    },
                    None => {
                        assert(!scheme_at(u@, j as int));
                    },
                }
            }
            return Some(j);
        }
        j = j + 1;
    }
    proof {
        assert forall|m: int| 0 <= m implies !scheme_at(u@, m) by {
            if m > stop {
                assert(scheme_at(u@, m) ==> m + scheme_bytes().len() <= u@.len());
            }
        }
        lemma_find_scheme_from(u@, 0);
    }
    None
}

/// Name for what percent-decoding with lossy UTF-8 conversion yields on the
/// given bytes.
pub uninterp spec fn percent_decoded_lossy(b: Seq<u8>) -> Seq<char>;

/// Relies on percent_encoding::percent_decode and its decode_utf8_lossy:
/// every `%`-escape of two hex digits becomes one byte, the rest pass
/// through, and invalid UTF-8 is replaced rather than rejected. The result is
/// a function of the input bytes alone.
#[verifier::external_body]
fn percent_decode_lossy(v: &Vec<u8>) -> (r: String)
    ensures
        r@ == percent_decoded_lossy(v@),
{
    percent_encoding::percent_decode(v.as_slice()).decode_utf8_lossy().into_owned()
}

/// Decode a resource identifier into a filesystem path: drop the first
/// occurrence of the scheme prefix and percent-decode what remains, lossily,
/// so that decoding never fails the request.
pub fn decode_resource_uri(uri: &str) -> (r: String)
    ensures
        r@ == percent_decoded_lossy(strip_scheme(uri.spec_bytes())),
{
    let u: Vec<u8> = uri.as_bytes_vec();
    let p: Vec<u8> = "frameflow://".as_bytes_vec();
    proof {
        reveal_strlit("frameflow://");
        assert(vstd::utf8::is_ascii_chars(scheme_prefix()));
    }
    match find_scheme(&u, &p) {
        None => percent_decode_lossy(&u),
        Some(i) => {
            proof {
                lemma_find_scheme_from(u@, 0);
                lemma_scheme_bytes();
                assert(scheme_at(u@, i as int));
            }
            let n = u.len();
            let mut v: Vec<u8> = Vec::new();
            let mut m: usize = 0;
            while m < i
                invariant
                    i <= u@.len(),
                    m <= i,
                    v@ == u@.subrange(0, m as int),
                decreases i - m,
            {
                proof {
                    assert(u@.subrange(0, m as int + 1) =~= u@.subrange(0, m as int).push(
                        u@[m as int],
                    ));
                }
                v.push(u[m]);
                m = m + 1;
            }
            let mut m2: usize = i + p.len();
            let ghost tail_from = m2 as int;
            while m2 < n
                invariant
                    n == u@.len(),
                    tail_from <= m2 <= u@.len(),
                    i + scheme_bytes().len() == tail_from,
                    i <= u@.len(),
                    v@ == u@.subrange(0, i as int) + u@.subrange(tail_from, m2 as int),
                decreases u@.len() - m2,
            {
                proof {
                    assert(u@.subrange(tail_from, m2 as int + 1) =~= u@.subrange(
                        tail_from,
                        m2 as int,
                    ).push(u@[m2 as int]));
                    assert((u@.subrange(0, i as int) + u@.subrange(tail_from, m2 as int + 1))
                        =~= (u@.subrange(0, i as int) + u@.subrange(tail_from, m2 as int)).push(
                        u@[m2 as int],
                    ));
                }
                v.push(u[m2]);
                m2 = m2 + 1;
            }
            proof {
                assert(v@ == strip_scheme(u@));
            }
            percent_decode_lossy(&v)
        },
    }
}

} // verus!
