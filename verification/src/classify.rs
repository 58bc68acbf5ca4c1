//! Classifies tree entries: convertible media files by extension,
//! cover images by file-name suffix. Both comparisons are
//! case-insensitive on the entry's side, matching against the configured
//! lists as they were given.

use vstd::prelude::*;

use crate::paths::{ext_dot, ext_of, fname_start};

verus! {

/// What `str::to_lowercase` returns for a string: a function of the
/// characters alone.
pub uninterp spec fn lower_of(s: Seq<char>) -> Seq<char>;

/// Relies on str::to_lowercase: the lowercase rendering of a string,
/// depending on its characters alone.
#[verifier::external_body]
fn lowercase(s: &String) -> (r: String)
    ensures
        r@ == lower_of(s@),
{
    s.to_lowercase()
}

/// Whether `suffix` ends `s`.
pub open spec fn is_suffix_of(suffix: Seq<char>, s: Seq<char>) -> bool {
    suffix.len() <= s.len() && s.skip(s.len() - suffix.len()) == suffix
}

/// Whether the string `s` ends with `suffix`, character by character.
pub fn str_ends_with(s: &String, suffix: &String) -> (r: bool)
    ensures
        r == is_suffix_of(suffix@, s@),
{
    let n = s.as_str().unicode_len();
    let m = suffix.as_str().unicode_len();
    if m > n {
        return false;
    }
    let mut i: usize = 0;
    while i < m
        invariant
            i <= m <= n,
            n == s@.len(),
            m == suffix@.len(),
            forall|j: int| 0 <= j < i ==> s@[n - m + j] == suffix@[j],
        decreases m - i,
    {
        if s.as_str().get_char(n - m + i) != suffix.as_str().get_char(i) {
            proof {
                if is_suffix_of(suffix@, s@) {
                    assert(s@.skip(n as int - m as int)[i as int] == suffix@[i as int]);
                }
            }
            return false;
        }
        i = i + 1;
    }
    proof {
        assert(s@.skip(n as int - m as int) =~= suffix@);
    }
    true
}

/// Whether some entry of `v` is the string `s`.
pub fn contains_string(v: &Vec<String>, s: &String) -> (r: bool)
    ensures
        r == v.deep_view().contains(s@),
{
    let mut i: usize = 0;
    while i < v.len()
        invariant
            i <= v@.len(),
            forall|j: int| 0 <= j < i ==> v.deep_view()[j] != s@,
        decreases v@.len() - i,
    {
        if v[i] == *s {
            proof {
                assert(v.deep_view()[i as int] == s@);
            }
            return true;
        }
        i = i + 1;
    }
    false
}

/// A convertible media entry: its extension, rendered lowercase, is a
/// member of the configured extension list.
pub open spec fn is_media_spec(p: Seq<char>, types: Seq<Seq<char>>) -> bool {
    ext_dot(p) >= 0 && types.contains(lower_of(ext_of(p)))
}

/// Decides whether the relative path `p` names a convertible media file:
/// an entry with an extension whose lowercase form is in `types`.
pub fn is_media_path(p: &String, types: &Vec<String>) -> (r: bool)
    ensures
        r == is_media_spec(p@, types.deep_view()),
{
    match crate::paths::extension_of(p) {
        None => false,
        Some(e) => {
            let low = lowercase(&e);
            contains_string(types, &low)
        },
    }
}

/// A cover entry: its file name, rendered lowercase, ends with one of the
/// configured suffixes (a suffix match, so `FooCover.jpg` qualifies for
/// the suffix `cover.jpg`).
pub open spec fn is_cover_spec(p: Seq<char>, covers: Seq<Seq<char>>) -> bool {
    exists|i: int|
        0 <= i < covers.len() && is_suffix_of(covers[i], lower_of(p.skip(fname_start(p))))
}

/// Decides whether the relative path `p` names a cover image.
pub fn is_cover_path(p: &String, covers: &Vec<String>) -> (r: bool)
    ensures
        r == is_cover_spec(p@, covers.deep_view()),
{
    let name = crate::paths::file_name_of(p);
    let low = lowercase(&name);
    let mut i: usize = 0;
    while i < covers.len()
        invariant
            i <= covers@.len(),
            low@ == lower_of(p@.skip(fname_start(p@))),
            forall|j: int|
                0 <= j < i ==> !is_suffix_of(covers.deep_view()[j], lower_of(p@.skip(fname_start(p@)))),
        decreases covers@.len() - i,
    {
        if str_ends_with(&low, &covers[i]) {
            proof {
                assert(is_suffix_of(covers.deep_view()[i as int], lower_of(p@.skip(fname_start(p@)))));
            }
            return true;
        }
        i = i + 1;
    }
    false
}

} // verus!
