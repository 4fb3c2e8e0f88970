//! MIME classification: a fixed table from the lowercased extension of the
//! final path component to a content type, with a generic binary fallback.

use vstd::prelude::*;
use crate::text::{fold, fold_eq, rfind_char};

verus! {

/// The last position where `c` occurs in `s`, if any.
pub open spec fn last_index_of(s: Seq<char>, c: char) -> Option<int>
    decreases s.len(),
{
    if s.len() == 0 {
        None
    } else if s.last() == c {
        Some(s.len() - 1)
    } else {
        last_index_of(s.drop_last(), c)
    }
}

/// A position with `c` and nothing but other characters after it is the last.
proof fn lemma_last_index_of_witness(s: Seq<char>, c: char, w: int)
    requires
        0 <= w < s.len(),
        s[w] == c,
        forall|j: int| w < j < s.len() ==> s[j] != c,
    ensures
        last_index_of(s, c) == Some(w),
    decreases s.len(),
{
    if w == s.len() - 1 {
    } else {
        assert(s.last() != c);
        assert(s.drop_last()[w] == c);
        lemma_last_index_of_witness(s.drop_last(), c, w);
    }
}

/// Where `c` occurs nowhere, there is no last position.
proof fn lemma_last_index_of_none(s: Seq<char>, c: char)
    requires
        forall|j: int| 0 <= j < s.len() ==> s[j] != c,
    ensures
        last_index_of(s, c) is None,
    decreases s.len(),
{
    if s.len() > 0 {
        lemma_last_index_of_none(s.drop_last(), c);
    }
}

/// The extension of a path: the part of the final path component after its
/// last dot, unless that dot is the component's first character or absent.
pub open spec fn spec_extension(path: Seq<char>) -> Option<Seq<char>> {
    let name = match last_index_of(path, '/') {
        None => path,
        Some(k) => path.skip(k + 1),
    };
    match last_index_of(name, '.') {
        None => None,
        Some(d) => if d == 0 {
            None
        } else {
            Some(name.skip(d + 1))
        },
    }
}

/// The content type for a path: the fixed table over the ASCII-lowercased
/// extension, with a generic binary fallback for anything unknown.
pub open spec fn spec_mime(path: Seq<char>) -> Seq<char> {
    match spec_extension(path) {
        None => "application/octet-stream"@,
        Some(e) => {
            let f = fold(e);
            if f == "png"@ {
                "image/png"@
            } else if f == "jpg"@ || f == "jpeg"@ {
                "image/jpeg"@
            } else if f == "mp4"@ {
                "video/mp4"@
            } else if f == "mp3"@ {
                "audio/mpeg"@
            } else if f == "wav"@ {
                "audio/wav"@
            } else {
                "application/octet-stream"@
            }
        },
    }
}

/// Classify the content type of `path` from its extension, matched ASCII
/// case-insensitively against the fixed table.
pub fn mime_for_path(path: &str) -> (r: &'static str)
    ensures
        r@ == spec_mime(path@),
{
    let n = path.unicode_len();
    let sl = rfind_char(path, '/');
    let ns: usize = match sl {
        None => 0,
        Some(k) => k + 1,
    };
    proof {
        match sl {
            None => {
                lemma_last_index_of_none(path@, '/');
            },
            Some(k) => {
                lemma_last_index_of_witness(path@, '/', k as int);
            },
        }
        assert(ns <= n);
    }
    let ghost name = path@.skip(ns as int);
    proof {
        if sl is None {
            assert(name =~= path@);
        }
    }
    let dt = rfind_char(path, '.');
    let ext_from: usize = match dt {
        None => {
            proof {
                assert forall|j: int| 0 <= j < name.len() implies name[j] != '.' by {
                    assert(name[j] == path@[ns + j]);
                }
                lemma_last_index_of_none(name, '.');
            }
            return "application/octet-stream";
        },
        Some(d) => {
            if d < ns || d == ns {
                proof {
                    if d < ns {
                        assert forall|j: int| 0 <= j < name.len() implies name[j] != '.' by {
                            assert(name[j] == path@[ns + j]);
                        }
                        lemma_last_index_of_none(name, '.');
                    } else {
                        assert(name[0] == path@[ns as int] == '.');
                        assert forall|j: int| 0 < j < name.len() implies name[j] != '.' by {
                            assert(name[j] == path@[ns + j]);
                        }
                        lemma_last_index_of_witness(name, '.', 0);
                    }
                }
                return "application/octet-stream";
            }
            proof {
                assert(name[d - ns] == path@[d as int] == '.');
                assert forall|j: int| d - ns < j < name.len() implies name[j] != '.' by {
                    assert(name[j] == path@[ns + j]);
                }
                lemma_last_index_of_witness(name, '.', d - ns);
            }
            d + 1
        },
    };
    proof {
        assert(spec_extension(path@) == Some(name.skip(ext_from - ns)));
        assert(name.skip(ext_from - ns) =~= path@.subrange(ext_from as int, n as int));
    }
    if fold_eq(path, ext_from, n, "png") {
        "image/png"
    } else if fold_eq(path, ext_from, n, "jpg") {
        "image/jpeg"
    } else if fold_eq(path, ext_from, n, "jpeg") {
        "image/jpeg"
    } else if fold_eq(path, ext_from, n, "mp4") {
        "video/mp4"
    } else if fold_eq(path, ext_from, n, "mp3") {
        "audio/mpeg"
    } else if fold_eq(path, ext_from, n, "wav") {
        "audio/wav"
    } else {
        "application/octet-stream"
    }
}

} // verus!
