//! Resolving an optional range header against a known file length into a
//! concrete clamped byte interval, a whole-file outcome, or a satisfiability
//! failure. Parsing is lenient: malformed fields fall back to defaults and a
//! header without the `bytes=` prefix falls through to whole-file serving.

use vstd::prelude::*;
use crate::digits::{parse_u64_or, spec_parse_u64_or};
use crate::text::{has_prefix, find_char_from};

verus! {

/// How a range header resolves against a file of known length.
#[derive(Clone, Copy, Debug, PartialEq, Eq, Structural)]
pub enum RangeResolution {
    /// No usable range was asked for: serve the whole file.
    Whole,
    /// Serve the inclusive byte interval `[start, end]`.
    Partial { start: u64, end: u64 },
    /// After clamping, the requested interval is empty: not satisfiable.
    NotSatisfiable,
}

/// The view of an optional header value.
pub open spec fn header_view(h: Option<&str>) -> Option<Seq<char>> {
    match h {
        None => None,
        Some(s) => Some(s@),
    }
}

/// The first position where `c` occurs in `s`, if any.
pub open spec fn first_index_of(s: Seq<char>, c: char) -> Option<int>
    decreases s.len(),
{
    if s.len() == 0 {
        None
    } else if s[0] == c {
        Some(0)
    } else {
        match first_index_of(s.drop_first(), c) {
            None => None,
            Some(i) => Some(i + 1),
        }
    }
}

/// A position with `c` and nothing but other characters before it is the
/// first.
pub proof fn lemma_first_index_of_witness(s: Seq<char>, c: char, w: int)
    requires
        0 <= w < s.len(),
        s[w] == c,
        forall|j: int| 0 <= j < w ==> s[j] != c,
    ensures
        first_index_of(s, c) == Some(w),
    decreases s.len(),
{
    if w == 0 {
    } else {
        assert(s[0] != c);
        assert(s.drop_first()[w - 1] == c);
        assert forall|j: int| 0 <= j < w - 1 implies s.drop_first()[j] != c by {
            assert(s.drop_first()[j] == s[j + 1]);
        }
        lemma_first_index_of_witness(s.drop_first(), c, w - 1);
    }
}

/// Where `c` occurs nowhere, there is no first position.
pub proof fn lemma_first_index_of_none(s: Seq<char>, c: char)
    requires
        forall|j: int| 0 <= j < s.len() ==> s[j] != c,
    ensures
        first_index_of(s, c) is None,
    decreases s.len(),
{
    if s.len() > 0 {
        assert forall|j: int| 0 <= j < s.drop_first().len() implies s.drop_first()[j] != c by {
            assert(s.drop_first()[j] == s[j + 1]);
        }
        lemma_first_index_of_none(s.drop_first(), c);
    }
}

/// The header is present and attempts a byte range: it starts with `bytes=`.
pub open spec fn is_range_attempt(h: Option<Seq<char>>) -> bool {
    match h {
        None => false,
        Some(s) => s.len() >= 6 && s.subrange(0, 6) == "bytes="@,
    }
}

/// How the header resolves: split what follows `bytes=` at dashes, read the
/// two fields leniently (defaults 0 and `len - 1`), clamp each bound to
/// `len - 1` independently, and fail only when the clamped interval is empty.
pub open spec fn spec_resolve(h: Option<Seq<char>>, len: u64) -> RangeResolution
    recommends
        is_range_attempt(h) ==> len >= 1,
{
    if !is_range_attempt(h) {
        RangeResolution::Whole
    } else {
        let s = h.unwrap();
        let rest = s.skip(6);
        let start_txt = match first_index_of(rest, '-') {
            None => rest,
            Some(d) => rest.take(d),
        };
        let end_txt = match first_index_of(rest, '-') {
            None => Seq::<char>::empty(),
            Some(d) => {
                let tail = rest.skip(d + 1);
                match first_index_of(tail, '-') {
                    None => tail,
                    Some(d2) => tail.take(d2),
                }
            },
        };
        let last = (len - 1) as u64;
        let start0 = spec_parse_u64_or(start_txt, 0);
        let end0 = if end_txt.len() == 0 {
            last
        } else {
            spec_parse_u64_or(end_txt, last)
        };
        let start = if start0 < last {
            start0
        } else {
            last
        };
        let end = if end0 < last {
            end0
        } else {
            last
        };
        if start > end {
            RangeResolution::NotSatisfiable
        } else {
            RangeResolution::Partial { start, end }
        }
    }
}

/// A partial resolution always lies inside the file.
pub proof fn lemma_resolve_in_bounds(h: Option<Seq<char>>, len: u64)
    requires
        is_range_attempt(h) ==> len >= 1,
    ensures
        spec_resolve(h, len) matches RangeResolution::Partial { start, end } ==> start <= end
            < len,
{
}

/// Resolve the range header against the file length.
pub fn resolve_range(header: Option<&str>, len: u64) -> (r: RangeResolution)
    requires
        is_range_attempt(header_view(header)) ==> len >= 1,
    ensures
        r == spec_resolve(header_view(header), len),
{
    let s = match header {
        None => {
            return RangeResolution::Whole;
        },
        Some(s) => s,
    };
    if !has_prefix(s, "bytes=") {
        proof {
            reveal_strlit("bytes=");
        }
        return RangeResolution::Whole;
    }
    proof {
        reveal_strlit("bytes=");
    }
    let n = s.unicode_len();
    let ghost rest = s@.skip(6);
    let last = len - 1;
    let start0: u64;
    let end0: u64;
    match find_char_from(s, 6, '-') {
        None => {
            proof {
                assert forall|j: int| 0 <= j < rest.len() implies rest[j] != '-' by {
                    assert(rest[j] == s@[j + 6]);
                }
                lemma_first_index_of_none(rest, '-');
                assert(s@.subrange(6, n as int) =~= rest);
            }
            start0 = parse_u64_or(s, 6, n, 0);
            end0 = last;
        },
        Some(d) => {
            proof {
                assert(rest[d - 6] == '-');
                assert forall|j: int| 0 <= j < d - 6 implies rest[j] != '-' by {
                    assert(rest[j] == s@[j + 6]);
                }
                lemma_first_index_of_witness(rest, '-', d - 6);
                assert(s@.subrange(6, d as int) =~= rest.take(d - 6));
            }
            start0 = parse_u64_or(s, 6, d, 0);
            let ghost tail = rest.skip(d - 6 + 1);
            let end_to: usize = match find_char_from(s, d + 1, '-') {
                None => {
                    proof {
                        assert forall|j: int| 0 <= j < tail.len() implies tail[j] != '-' by {
                            assert(tail[j] == s@[j + d + 1]);
                        }
                        lemma_first_index_of_none(tail, '-');
                    }
                    n
                },
                Some(d2) => {
                    proof {
                        assert(tail[d2 - d - 1] == '-');
                        assert forall|j: int| 0 <= j < d2 - d - 1 implies tail[j] != '-' by {
                            assert(tail[j] == s@[j + d + 1]);
                        }
                        lemma_first_index_of_witness(tail, '-', d2 - d - 1);
                    }
                    d2
                },
            };
            proof {
                assert(s@.subrange(d + 1, end_to as int) =~= tail.take(end_to - d - 1));
                if end_to == d + 1 {
                    assert(tail.take(0) =~= Seq::<char>::empty());
                }
                if end_to == n {
                    assert(tail.take(end_to - d - 1) =~= tail);
                }
            }
            end0 = if d + 1 == end_to {
                last
            } else {
                parse_u64_or(s, d + 1, end_to, last)
            };
        },
    }
    let start = if start0 < last {
        start0
    } else {
        last
    };
    let end = if end0 < last {
        end0
    } else {
        last
    };
    if start > end {
        RangeResolution::NotSatisfiable
    } else {
        RangeResolution::Partial { start, end }
    }
}

} // verus!
