//! Reconciliation: diffing the source and destination media sets, both
//! normalised through one extension rewrite, into the files to delete and
//! the files to convert.

use vstd::prelude::*;

use crate::classify::contains_string;
use crate::paths::{with_ext, with_extension};

verus! {

/// The source set pushed through the extension rewrite: the destination
/// paths a fully synchronised tree would hold.
pub open spec fn mapped(src: Set<Seq<char>>, e: Seq<char>) -> Set<Seq<char>> {
    Set::new(|q: Seq<char>| exists|p: Seq<char>| src.contains(p) && q == with_ext(p, e))
}

/// The source paths whose rewritten counterpart is missing from the
/// destination: the conversions a run still owes.
pub open spec fn pending(src: Set<Seq<char>>, dest: Set<Seq<char>>, e: Seq<char>) -> Set<
    Seq<char>,
> {
    Set::new(|p: Seq<char>| src.contains(p) && !dest.contains(with_ext(p, e)))
}

/// The destination paths no source path maps to: stale artifacts to
/// remove.
pub open spec fn orphans(src: Set<Seq<char>>, dest: Set<Seq<char>>, e: Seq<char>) -> Set<
    Seq<char>,
> {
    Set::new(|d: Seq<char>| dest.contains(d) && !mapped(src, e).contains(d))
}

/// Whether some source entry maps to the destination path `d` under the
/// extension rewrite.
fn maps_to(source: &Vec<String>, d: &String, target_ext: &String) -> (r: bool)
    ensures
        r == mapped(source.deep_view().to_set(), target_ext@).contains(d@),
{
    let mut i: usize = 0;
    while i < source.len()
        invariant
            i <= source@.len(),
            forall|j: int|
                0 <= j < i ==> with_ext(source.deep_view()[j], target_ext@) != d@,
        decreases source@.len() - i,
    {
        let m = with_extension(&source[i], target_ext);
        if m == *d {
            proof {
                let p = source.deep_view()[i as int];
                assert(source.deep_view().contains(p));
                assert(source.deep_view().to_set().contains(p));
            }
            return true;
        }
        i = i + 1;
    }
    proof {
        let src_set = source.deep_view().to_set();
        if mapped(src_set, target_ext@).contains(d@) {
            let p = choose|p: Seq<char>| src_set.contains(p) && d@ == with_ext(p, target_ext@);
            let j = choose|j: int|
                0 <= j < source.deep_view().len() && source.deep_view()[j] == p;
            assert(with_ext(source.deep_view()[j], target_ext@) != d@);
        }
    }
    false
}

/// Diffs the two media sets. Returns the destination paths to delete
/// (empty when `preserve` is set) and the source paths to convert. Every
/// comparison goes through the one rewrite `with_ext(_, target_ext)`:
/// a source entry is owed a conversion exactly when its rewritten path is
/// absent from the destination, and a destination entry is an orphan
/// exactly when no source entry rewrites to it.
pub fn reconcile(
    source: &Vec<String>,
    dest: &Vec<String>,
    target_ext: &String,
    preserve: bool,
) -> (r: (Vec<String>, Vec<String>))
    ensures
        r.0.deep_view().to_set() == if preserve {
            Set::<Seq<char>>::empty()
        } else {
            orphans(source.deep_view().to_set(), dest.deep_view().to_set(), target_ext@)
        },
        r.1.deep_view().to_set() == pending(
            source.deep_view().to_set(),
            dest.deep_view().to_set(),
            target_ext@,
        ),
{
    let ghost src_set = source.deep_view().to_set();
    let ghost dst_set = dest.deep_view().to_set();

    let mut to_delete: Vec<String> = Vec::new();
    if !preserve {
        let mut i: usize = 0;
        while i < dest.len()
            invariant
                i <= dest@.len(),
                src_set == source.deep_view().to_set(),
                dst_set == dest.deep_view().to_set(),
                forall|q: Seq<char>|
                    to_delete.deep_view().contains(q) ==> orphans(src_set, dst_set, target_ext@).contains(q),
                forall|j: int|
                    0 <= j < i && orphans(src_set, dst_set, target_ext@).contains(
                        dest.deep_view()[j],
                    ) ==> to_delete.deep_view().contains(dest.deep_view()[j]),
            decreases dest@.len() - i,
        {
            let stale = !maps_to(source, &dest[i], target_ext);
            proof {
                assert(dest.deep_view().contains(dest.deep_view()[i as int]));
            }
            if stale {
                let ghost before = to_delete.deep_view();
                to_delete.push(dest[i].clone());
                proof {
                    assert(to_delete.deep_view() =~= before.push(dest.deep_view()[i as int]));
                    assert forall|q: Seq<char>| to_delete.deep_view().contains(q) implies orphans(
                        src_set,
                        dst_set,
                        target_ext@,
                    ).contains(q) by {
                        let j = choose|j: int|
                            0 <= j < to_delete.deep_view().len() && to_delete.deep_view()[j] == q;
                        if j < before.len() {
                            assert(before.contains(q));
                        }
                    }
                    assert forall|j: int|
                        0 <= j < i + 1 && orphans(src_set, dst_set, target_ext@).contains(
                            dest.deep_view()[j],
                        ) implies to_delete.deep_view().contains(dest.deep_view()[j]) by {
                        if j < i {
                            assert(before.contains(dest.deep_view()[j]));
                            let k = choose|k: int|
                                0 <= k < before.len() && before[k] == dest.deep_view()[j];
                            assert(to_delete.deep_view()[k] == dest.deep_view()[j]);
                        } else {
                            assert(to_delete.deep_view()[before.len() as int]
                                == dest.deep_view()[i as int]);
                        }
                    }
                }
            }
            i = i + 1;
        }
        proof {
            assert forall|q: Seq<char>|
                orphans(src_set, dst_set, target_ext@).contains(q) implies to_delete.deep_view().contains(
                q,
            ) by {
                assert(dst_set.contains(q));
                let j = choose|j: int|
                    0 <= j < dest.deep_view().len() && dest.deep_view()[j] == q;
                assert(orphans(src_set, dst_set, target_ext@).contains(dest.deep_view()[j]));
            }
            assert(to_delete.deep_view().to_set() =~= orphans(src_set, dst_set, target_ext@));
        }
    } else {
        proof {
            assert(to_delete.deep_view().to_set() =~= Set::<Seq<char>>::empty());
        }
    }

    let mut to_convert: Vec<String> = Vec::new();
    let mut i: usize = 0;
    while i < source.len()
        invariant
            i <= source@.len(),
            src_set == source.deep_view().to_set(),
            dst_set == dest.deep_view().to_set(),
            forall|q: Seq<char>|
                to_convert.deep_view().contains(q) ==> pending(src_set, dst_set, target_ext@).contains(q),
            forall|j: int|
                0 <= j < i && pending(src_set, dst_set, target_ext@).contains(
                    source.deep_view()[j],
                ) ==> to_convert.deep_view().contains(source.deep_view()[j]),
        decreases source@.len() - i,
    {
        let m = with_extension(&source[i], target_ext);
        let missing = !contains_string(dest, &m);
        proof {
            assert(source.deep_view().contains(source.deep_view()[i as int]));
        }
        if missing {
            let ghost before = to_convert.deep_view();
            to_convert.push(source[i].clone());
            proof {
                assert(to_convert.deep_view() =~= before.push(source.deep_view()[i as int]));
                assert forall|q: Seq<char>| to_convert.deep_view().contains(q) implies pending(
                    src_set,
                    dst_set,
                    target_ext@,
                ).contains(q) by {
                    let j = choose|j: int|
                        0 <= j < to_convert.deep_view().len() && to_convert.deep_view()[j] == q;
                    if j < before.len() {
                        assert(before.contains(q));
                    }
                }
                assert forall|j: int|
                    0 <= j < i + 1 && pending(src_set, dst_set, target_ext@).contains(
                        source.deep_view()[j],
                    ) implies to_convert.deep_view().contains(source.deep_view()[j]) by {
                    if j < i {
                        assert(before.contains(source.deep_view()[j]));
                        let k = choose|k: int|
                            0 <= k < before.len() && before[k] == source.deep_view()[j];
                        assert(to_convert.deep_view()[k] == source.deep_view()[j]);
                    } else {
                        assert(to_convert.deep_view()[before.len() as int]
                            == source.deep_view()[i as int]);
                    }
                }
            }
        }
        i = i + 1;
    }
    proof {
        assert forall|q: Seq<char>|
            pending(src_set, dst_set, target_ext@).contains(q) implies to_convert.deep_view().contains(
            q,
        ) by {
            assert(src_set.contains(q));
            let j = choose|j: int|
                0 <= j < source.deep_view().len() && source.deep_view()[j] == q;
            assert(pending(src_set, dst_set, target_ext@).contains(source.deep_view()[j]));
        }
        assert(to_convert.deep_view().to_set() =~= pending(src_set, dst_set, target_ext@));
    }

    (to_delete, to_convert)
}

} // verus!
