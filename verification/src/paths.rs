//! Relative paths and the extension rewrite at the heart of reconciliation.
//!
//! A relative path is a `String` whose components are separated by `/`.
//! The file name is everything after the last separator; its extension is
//! the part after the last dot, provided that dot is not the first
//! character of the file name. `with_extension` replaces the extension,
//! and is the single canonicalisation every set comparison goes through.

use vstd::prelude::*;

verus! {

/// Index at which the file name of `p` begins: one past the last `/`,
/// or `0` when `p` has no separator.
pub open spec fn fname_start(p: Seq<char>) -> int
    decreases p.len(),
{
    if p.len() == 0 {
        0
    } else if p[p.len() - 1] == '/' {
        p.len() as int
    } else {
        fname_start(p.drop_last())
    }
}

/// Index of the dot that begins the extension of `p`, or `-1` when the
/// file name has no extension. A dot that is the first character of the
/// file name does not start an extension.
pub open spec fn ext_dot(p: Seq<char>) -> int
    decreases p.len(),
{
    if p.len() == 0 {
        -1
    } else if p[p.len() - 1] == '/' {
        -1
    } else if p[p.len() - 1] == '.' && p.len() - 1 > fname_start(p) {
        p.len() - 1
    } else {
        ext_dot(p.drop_last())
    }
}

/// Where the stem of `p` ends: at the extension dot if there is one,
/// else at the end of the path.
pub open spec fn stem_end(p: Seq<char>) -> int {
    if ext_dot(p) >= 0 {
        ext_dot(p)
    } else {
        p.len() as int
    }
}

/// The path without its extension (and without the dot).
pub open spec fn stem_of(p: Seq<char>) -> Seq<char> {
    p.take(stem_end(p))
}

/// The extension of `p`, empty when there is none.
pub open spec fn ext_of(p: Seq<char>) -> Seq<char> {
    if ext_dot(p) >= 0 {
        p.subrange(ext_dot(p) + 1, p.len() as int)
    } else {
        Seq::empty()
    }
}

/// `p` rewritten to carry the extension `e`: the stem, a dot, then `e`;
/// an empty `e` just strips the extension.
pub open spec fn with_ext(p: Seq<char>, e: Seq<char>) -> Seq<char> {
    if e.len() == 0 {
        stem_of(p)
    } else {
        stem_of(p) + seq!['.'] + e
    }
}

/// What `fname_start` finds: `k` begins the file name of `p` iff the
/// character before `k` (if any) is a separator and no separator follows.
pub open spec fn is_fname_start(p: Seq<char>, k: int) -> bool {
    &&& 0 <= k <= p.len()
    &&& (k == 0 || p[k - 1] == '/')
    &&& forall|j: int| k <= j < p.len() ==> p[j] != '/'
}

/// What `ext_dot` finds: either no dot follows the file name's first
/// character, or `d` is the last dot and lies strictly inside the file name.
pub open spec fn is_ext_dot(p: Seq<char>, d: int) -> bool {
    if d == -1 {
        forall|j: int| fname_start(p) < j < p.len() ==> p[j] != '.'
    } else {
        &&& fname_start(p) < d < p.len()
        &&& p[d] == '.'
        &&& forall|j: int| d < j < p.len() ==> p[j] != '.'
    }
}

pub proof fn lemma_fname_start(p: Seq<char>)
    ensures
        is_fname_start(p, fname_start(p)),
    decreases p.len(),
{
    if p.len() == 0 {
    } else if p[p.len() - 1] == '/' {
    } else {
        lemma_fname_start(p.drop_last());
        assert forall|j: int| fname_start(p) <= j < p.len() implies p[j] != '/' by {
            if j < p.len() - 1 {
                assert(p.drop_last()[j] == p[j]);
            }
        }
    }
}

pub proof fn lemma_fname_start_unique(p: Seq<char>, k: int)
    requires
        is_fname_start(p, k),
    ensures
        k == fname_start(p),
{
    lemma_fname_start(p);
    let f = fname_start(p);
    if k < f {
        assert(p[f - 1] == '/');
    } else if f < k {
        assert(p[k - 1] == '/');
    }
}

pub proof fn lemma_ext_dot(p: Seq<char>)
    ensures
        is_ext_dot(p, ext_dot(p)),
    decreases p.len(),
{
    if p.len() == 0 {
    } else if p[p.len() - 1] == '/' {
    } else if p[p.len() - 1] == '.' && p.len() - 1 > fname_start(p) {
    } else {
        let q = p.drop_last();
        lemma_ext_dot(q);
        lemma_fname_start(p);
        lemma_fname_start(q);
        assert(fname_start(p) == fname_start(q));
        let d = ext_dot(q);
        assert(ext_dot(p) == d);
        if d == -1 {
            assert forall|j: int| fname_start(p) < j < p.len() implies p[j] != '.' by {
                if j < p.len() - 1 {
                    assert(q[j] == p[j]);
                } else {
                    assert(j == p.len() - 1);
                    if p[j] == '.' {
                        assert(p.len() - 1 <= fname_start(p));
                    }
                }
            }
        } else {
            assert(p[d] == q[d]);
            assert forall|j: int| d < j < p.len() implies p[j] != '.' by {
                if j < p.len() - 1 {
                    assert(q[j] == p[j]);
                } else {
                    if p[j] == '.' {
                        assert(p.len() - 1 <= fname_start(p));
                        assert(fname_start(q) < d < p.len() - 1);
                    }
                }
            }
        }
    }
}

pub proof fn lemma_ext_dot_unique(p: Seq<char>, d: int)
    requires
        is_ext_dot(p, d),
    ensures
        d == ext_dot(p),
{
    lemma_ext_dot(p);
    let e = ext_dot(p);
    if d == -1 && e != -1 {
        assert(p[e] == '.');
    } else if d != -1 && e == -1 {
        assert(p[d] == '.');
    } else if d != -1 && e != -1 && d != e {
        if d < e {
            assert(p[e] == '.');
        } else {
            assert(p[d] == '.');
        }
    }
}

/// An extension string fit to be spliced into a path: nonempty, and free
/// of dots and separators.
pub open spec fn plain_ext(e: Seq<char>) -> bool {
    &&& e.len() > 0
    &&& forall|j: int| 0 <= j < e.len() ==> e[j] != '.' && e[j] != '/'
}

/// A path whose file name has a nonempty stem, as every path produced by
/// scanning a file tree does.
pub open spec fn proper_file_path(p: Seq<char>) -> bool {
    fname_start(p) < stem_end(p)
}

/// Rewriting the extension keeps the directory part and the stem, and the
/// new path carries exactly the extension that was spliced in.
pub proof fn lemma_with_ext_parts(p: Seq<char>, e: Seq<char>)
    requires
        plain_ext(e),
        proper_file_path(p),
    ensures
        fname_start(with_ext(p, e)) == fname_start(p),
        ext_dot(with_ext(p, e)) == stem_end(p),
        stem_of(with_ext(p, e)) == stem_of(p),
        ext_of(with_ext(p, e)) == e,
        proper_file_path(with_ext(p, e)),
{
    lemma_fname_start(p);
    lemma_ext_dot(p);
    let n = stem_end(p);
    let s = stem_of(p);
    let w = with_ext(p, e);
    let k = fname_start(p);
    assert(0 <= n <= p.len());
    assert(s.len() == n);
    assert(w =~= s + seq!['.'] + e);
    assert(w.len() == n + 1 + e.len());
    assert forall|j: int| k <= j < w.len() implies w[j] != '/' by {
        if j < n {
            assert(w[j] == p[j]);
        } else if j == n {
            assert(w[j] == '.');
        } else {
            assert(w[j] == e[j - n - 1]);
        }
    }
    lemma_fname_start_unique(w, k);
    assert forall|j: int| n < j < w.len() implies w[j] != '.' by {
        if j == n {
        } else {
            assert(w[j] == e[j - n - 1]);
        }
    }
    assert(w[n] == '.');
    lemma_ext_dot_unique(w, n);
    assert(stem_of(w) =~= s);
    assert(ext_of(w) =~= e);
}

/// Two extension rewrites that meet in the same path used the same
/// extension and started from the same stem.
pub proof fn lemma_with_ext_injective(p: Seq<char>, q: Seq<char>, e1: Seq<char>, e2: Seq<char>)
    requires
        plain_ext(e1),
        plain_ext(e2),
        proper_file_path(p),
        proper_file_path(q),
        with_ext(p, e1) == with_ext(q, e2),
    ensures
        e1 == e2,
        stem_of(p) == stem_of(q),
{
    lemma_with_ext_parts(p, e1);
    lemma_with_ext_parts(q, e2);
}

/// Finds where the file name of `p` begins, scanning from the end.
fn find_fname_start(p: &str) -> (r: usize)
    ensures
        r as int == fname_start(p@),
{
    let len = p.unicode_len();
    let mut i = len;
    while i > 0
        invariant
            i <= len,
            len == p@.len(),
            forall|j: int| i <= j < p@.len() ==> p@[j] != '/',
        decreases i,
    {
        let c = p.get_char(i - 1);
        if c == '/' {
            proof {
                lemma_fname_start_unique(p@, i as int);
            }
            return i;
        }
        i = i - 1;
    }
    proof {
        lemma_fname_start_unique(p@, 0);
    }
    0
}

/// Finds the extension dot of `p`, scanning from the end.
fn find_ext_dot(p: &str) -> (r: Option<usize>)
    ensures
        match r {
            Some(d) => d as int == ext_dot(p@),
            None => ext_dot(p@) == -1,
        },
{
    let len = p.unicode_len();
    let mut i = len;
    while i > 0
        invariant
            i <= len,
            len == p@.len(),
            forall|j: int| i <= j < p@.len() ==> p@[j] != '/' && p@[j] != '.',
        decreases i,
    {
        let c = p.get_char(i - 1);
        if c == '/' {
            proof {
                lemma_fname_start_unique(p@, i as int);
                lemma_ext_dot_unique(p@, -1);
            }
            return None;
        }
        if c == '.' {
            if i >= 2 && p.get_char(i - 2) != '/' {
                proof {
                    lemma_fname_start(p@);
                    let f = fname_start(p@);
                    if f == i - 1 {
                        assert(p@[i - 2] == '/');
                    }
                    if f > i - 1 {
                        assert(f >= i);
                        assert(f == 0 || p@[f - 1] == '/');
                    }
                    lemma_ext_dot_unique(p@, i - 1);
                }
                return Some(i - 1);
            } else {
                proof {
                    lemma_fname_start_unique(p@, i - 1);
                    lemma_ext_dot_unique(p@, -1);
                }
                return None;
            }
        }
        i = i - 1;
    }
    proof {
        lemma_fname_start_unique(p@, 0);
        lemma_ext_dot_unique(p@, -1);
    }
    None
}

/// The file name of `p`: everything after the last separator.
pub fn file_name_of(p: &String) -> (r: String)
    ensures
        r@ == p@.skip(fname_start(p@)),
{
    let s = p.as_str();
    let start = find_fname_start(s);
    let len = s.unicode_len();
    proof {
        lemma_fname_start(p@);
    }
    let name = s.substring_char(start, len);
    String::from_str(name)
}

/// The extension of `p`, or `None` when its file name has none.
pub fn extension_of(p: &String) -> (r: Option<String>)
    ensures
        match r {
            Some(e) => ext_dot(p@) >= 0 && e@ == ext_of(p@),
            None => ext_dot(p@) == -1,
        },
{
    let s = p.as_str();
    match find_ext_dot(s) {
        Some(d) => {
            proof {
                lemma_ext_dot(p@);
            }
            let len = s.unicode_len();
            let e = s.substring_char(d + 1, len);
            Some(String::from_str(e))
        },
        None => None,
    }
}

/// `p` with its extension replaced by `e` (appended when `p` has none,
/// stripped when `e` is empty). The one canonicalisation used by the
/// reconciler: `a/b.flac` with extension `opus` becomes `a/b.opus`.
pub fn with_extension(p: &String, e: &String) -> (r: String)
    ensures
        r@ == with_ext(p@, e@),
{
    let s = p.as_str();
    let end: usize = match find_ext_dot(s) {
        Some(d) => d,
        None => s.unicode_len(),
    };
    proof {
        lemma_ext_dot(p@);
    }
    let stem = s.substring_char(0, end);
    let mut r = String::from_str(stem);
    if !e.as_str().is_empty() {
        r.append(".");
        r.append(e.as_str());
        proof {
            reveal_strlit(".");
            assert(r@ =~= stem_of(p@) + seq!['.'] + e@);
        }
    } else {
        proof {
            assert(r@ =~= stem_of(p@));
        }
    }
    r
}

} // verus!
