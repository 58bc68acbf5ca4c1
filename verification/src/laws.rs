//! The guarantees the reconciler gives across whole runs, proved over the
//! same spec functions its contract is stated in. A run is modelled on
//! the destination set: a successful one removes the orphans (unless
//! preserving) and adds the rewritten path of every pending conversion.

use vstd::prelude::*;

use crate::paths::{plain_ext, proper_file_path, with_ext, lemma_with_ext_injective};
use crate::reconcile::{mapped, orphans, pending};

verus! {

/// The destination paths a successful run adds: the rewritten form of
/// every pending source entry.
pub open spec fn additions(src: Set<Seq<char>>, dest: Set<Seq<char>>, e: Seq<char>) -> Set<
    Seq<char>,
> {
    mapped(pending(src, dest, e), e)
}

/// The destination set after a successful run: orphans removed (kept when
/// preserving), owed conversions added.
pub open spec fn run_result(
    src: Set<Seq<char>>,
    dest: Set<Seq<char>>,
    e: Seq<char>,
    preserve: bool,
) -> Set<Seq<char>> {
    let kept = if preserve {
        dest
    } else {
        dest.difference(orphans(src, dest, e))
    };
    kept.union(additions(src, dest, e))
}

/// Completeness: a successful non-preserving run leaves the destination
/// holding exactly one entry per source file, at its rewritten path, and
/// nothing else; a preserving run still holds every rewritten source path.
pub proof fn lemma_completeness(src: Set<Seq<char>>, dest: Set<Seq<char>>, e: Seq<char>)
    ensures
        run_result(src, dest, e, false) =~= mapped(src, e),
        forall|p: Seq<char>|
            src.contains(p) ==> #[trigger] run_result(src, dest, e, true).contains(with_ext(p, e)),
{
    assert forall|q: Seq<char>| run_result(src, dest, e, false).contains(q) implies mapped(
        src,
        e,
    ).contains(q) by {
        if additions(src, dest, e).contains(q) {
            let p = choose|p: Seq<char>| pending(src, dest, e).contains(p) && q == with_ext(p, e);
            assert(src.contains(p));
        }
    }
    assert forall|q: Seq<char>| mapped(src, e).contains(q) implies run_result(
        src,
        dest,
        e,
        false,
    ).contains(q) by {
        let p = choose|p: Seq<char>| src.contains(p) && q == with_ext(p, e);
        if !dest.contains(q) {
            assert(pending(src, dest, e).contains(p));
            assert(additions(src, dest, e).contains(q));
        }
    }
    assert forall|p: Seq<char>| src.contains(p) implies #[trigger] run_result(
        src,
        dest,
        e,
        true,
    ).contains(with_ext(p, e)) by {
        if !dest.contains(with_ext(p, e)) {
            assert(pending(src, dest, e).contains(p));
            assert(additions(src, dest, e).contains(with_ext(p, e)));
        }
    }
}

/// Idempotence: reconciling again after a successful run finds nothing
/// pending, and (when not preserving) nothing orphaned either — the
/// second run's plans are empty.
pub proof fn lemma_idempotence(
    src: Set<Seq<char>>,
    dest: Set<Seq<char>>,
    e: Seq<char>,
    preserve: bool,
)
    ensures
        pending(src, run_result(src, dest, e, preserve), e) =~= Set::<Seq<char>>::empty(),
        !preserve ==> orphans(src, run_result(src, dest, e, false), e) =~= Set::<
            Seq<char>,
        >::empty(),
{
    let dest2 = run_result(src, dest, e, preserve);
    assert forall|p: Seq<char>| !(#[trigger] pending(src, dest2, e).contains(p)) by {
        if src.contains(p) {
            if !dest.contains(with_ext(p, e)) {
                assert(pending(src, dest, e).contains(p));
                assert(additions(src, dest, e).contains(with_ext(p, e)));
            } else if !preserve {
                assert(mapped(src, e).contains(with_ext(p, e)));
                assert(!orphans(src, dest, e).contains(with_ext(p, e)));
            }
            assert(dest2.contains(with_ext(p, e)));
        }
    }
    if !preserve {
        lemma_completeness(src, dest, e);
        assert forall|d: Seq<char>| !(#[trigger] orphans(
            src,
            run_result(src, dest, e, false),
            e,
        ).contains(d)) by {
            if run_result(src, dest, e, false).contains(d) {
                assert(mapped(src, e).contains(d));
            }
        }
    }
}

/// Orphan correctness: a destination entry is planned for deletion
/// exactly when no source entry rewrites to it; the reconciler's own
/// contract adds that a preserving run plans no deletion at all.
pub proof fn lemma_orphan_correctness(
    src: Set<Seq<char>>,
    dest: Set<Seq<char>>,
    e: Seq<char>,
    d: Seq<char>,
)
    ensures
        orphans(src, dest, e).contains(d) <==> (dest.contains(d) && !exists|p: Seq<char>|
            src.contains(p) && d == with_ext(p, e)),
{
}

/// Extension-change re-sync: against a destination tree fully
/// synchronised under one target extension, reconciling under a different
/// one finds every source file pending and every destination file
/// orphaned — a full re-sync. Holds for plain extensions (no dot, no
/// separator) and source paths with a nonempty file stem; an extension
/// carrying a dot can collide with another stem's rewrite.
pub proof fn lemma_extension_resync(src: Set<Seq<char>>, e1: Seq<char>, e2: Seq<char>)
    requires
        e1 != e2,
        plain_ext(e1),
        plain_ext(e2),
        forall|p: Seq<char>| src.contains(p) ==> #[trigger] proper_file_path(p),
    ensures
        pending(src, mapped(src, e1), e2) =~= src,
        orphans(src, mapped(src, e1), e2) =~= mapped(src, e1),
{
    let dest = mapped(src, e1);
    assert forall|p: Seq<char>| src.contains(p) implies #[trigger] pending(src, dest, e2).contains(
        p,
    ) by {
        if dest.contains(with_ext(p, e2)) {
            let q = choose|q: Seq<char>| src.contains(q) && with_ext(p, e2) == with_ext(q, e1);
            lemma_with_ext_injective(p, q, e2, e1);
        }
    }
    assert forall|d: Seq<char>| dest.contains(d) implies #[trigger] orphans(src, dest, e2).contains(
        d,
    ) by {
        if mapped(src, e2).contains(d) {
            let q = choose|q: Seq<char>| src.contains(q) && d == with_ext(q, e1);
            let r = choose|r: Seq<char>| src.contains(r) && d == with_ext(r, e2);
            lemma_with_ext_injective(q, r, e1, e2);
        }
    }
}

} // verus!
