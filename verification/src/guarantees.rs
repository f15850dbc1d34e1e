//! What holds of every run of the query engine, whatever the repository and
//! the file system answer.

use crate::engine::{advance, initial, run, Action, Fault, Progress, Signal};
use crate::error::QueryErrorKind;
use crate::listing::{
    lemma_listing_sorted, listed, listing, listing_is_canonical, text_order,
};
use crate::confine::{clean_path_passes_unchanged, is_clean_path, lemma_join_concat};
use crate::sanitize::{join, lemma_split_pieces, sanitized_segments};
use vstd::prelude::*;
use vstd::relations::sorted_by;
use vstd::seq_lib::{lemma_multiset_commutative, to_multiset_remove};

verus! {

/// The actions that come after the revision is resolved.
pub open spec fn is_late(action: Action) -> bool {
    action == Action::CreateScratch || action == Action::CheckoutTree || action
        == Action::InspectPath || action == Action::ReadFile || action == Action::WalkDirectory
        || action == Action::Finish
}

/// The actions that work in the scratch directory.
pub open spec fn uses_scratch(action: Action) -> bool {
    action == Action::CreateScratch || action == Action::CheckoutTree || action
        == Action::InspectPath || action == Action::ReadFile || action == Action::WalkDirectory
}

/// What holds of every state that a query can reach: it has an outcome
/// exactly when it is finished; it works in the scratch directory only after
/// claiming it and after resolving the revision; and an answer is given only
/// with both.
pub open spec fn consistent(s: Progress) -> bool {
    &&& s.outcome is Some <==> s.pending == Action::Finish
    &&& uses_scratch(s.pending) ==> s.scratch_claimed && s.snapshot is Some
    &&& s.outcome matches Some(Ok(found)) ==> s.scratch_claimed && s.snapshot is Some
}

/// Running the events of `a` and then those of `b` is running `a + b`.
pub proof fn lemma_run_append(s: Progress, a: Seq<Signal>, b: Seq<Signal>)
    ensures
        run(s, a + b) == run(run(s, a), b),
    decreases a.len(),
{
    if a.len() == 0 {
        assert(a + b =~= b);
    } else {
        assert((a + b).first() == a.first());
        assert((a + b).drop_first() =~= a.drop_first() + b);
        lemma_run_append(advance(s, a.first()), a.drop_first(), b);
    }
}

/// Running one event is one step.
pub proof fn lemma_run_one(s: Progress, e: Signal)
    ensures
        run(s, seq![e]) == advance(s, e),
{
    let events = seq![e];
    assert(events.first() == e);
    assert(events.drop_first().len() == 0);
    assert(run(advance(s, e), events.drop_first()) == advance(s, e));
}

/// Running two events is two steps.
pub proof fn lemma_run_two(s: Progress, e: Signal, f: Signal)
    ensures
        run(s, seq![e, f]) == advance(advance(s, e), f),
{
    let events = seq![e, f];
    assert(events.first() == e);
    assert(events.drop_first() =~= seq![f]);
    lemma_run_one(advance(s, e), f);
}

/// A finished query stays as it is, whatever comes in.
pub proof fn finished_is_final(s: Progress, events: Seq<Signal>)
    requires
        s.pending == Action::Finish,
    ensures
        run(s, events) == s,
    decreases events.len(),
{
    if events.len() > 0 {
        finished_is_final(s, events.drop_first());
    }
}

/// Once the revision is resolved, the snapshot is fixed: no later event
/// changes it, and the engine does not go back to resolving.
pub proof fn snapshot_is_fixed(s: Progress, events: Seq<Signal>)
    requires
        is_late(s.pending),
    ensures
        is_late(run(s, events).pending),
        run(s, events).snapshot == s.snapshot,
    decreases events.len(),
{
    if events.len() > 0 {
        snapshot_is_fixed(advance(s, events.first()), events.drop_first());
    }
}

/// Every state that a query reaches is consistent. In particular a query
/// that worked in its scratch directory ends with the directory claimed, so
/// that `finish` hands it out for release, on the paths that fail as on those
/// that answer.
pub proof fn every_state_is_consistent(
    workspace: Seq<char>,
    path: Seq<Seq<char>>,
    revision: Seq<char>,
    scratch: Seq<char>,
    events: Seq<Signal>,
)
    ensures
        consistent(run(initial(workspace, path, revision, scratch), events)),
{
    lemma_consistent_run(initial(workspace, path, revision, scratch), events);
}

/// Events keep a consistent state consistent.
pub proof fn lemma_consistent_run(s: Progress, events: Seq<Signal>)
    requires
        consistent(s),
    ensures
        consistent(run(s, events)),
        s.scratch_claimed ==> run(s, events).scratch_claimed,
    decreases events.len(),
{
    if events.len() > 0 {
        lemma_consistent_run(advance(s, events.first()), events.drop_first());
    }
}

/// The branch wins: where the revision is found as a reference and the
/// reference leads to `commit`, the query is resolved to `commit`, whether
/// or not the revision is also the prefix of some commit's identifier. The
/// engine goes on to the scratch directory and never asks for the lookup by
/// prefix.
pub proof fn reference_wins(s: Progress, commit: Seq<char>, rest: Seq<Signal>, k: int)
    requires
        s.pending == Action::ResolveReference,
        0 <= k <= rest.len(),
    ensures
        run(s, seq![Signal::ReferenceFound, Signal::ReferencePeeled { commit }]).pending
            == Action::CreateScratch,
        run(s, seq![Signal::ReferenceFound, Signal::ReferencePeeled { commit }] + rest).snapshot
            == Some(commit),
        run(
            s,
            seq![Signal::ReferenceFound, Signal::ReferencePeeled { commit }] + rest.take(k),
        ).pending != Action::FindCommitByPrefix,
{
    let first = seq![Signal::ReferenceFound, Signal::ReferencePeeled { commit }];
    let found = advance(s, Signal::ReferenceFound);
    let peeled = advance(found, Signal::ReferencePeeled { commit });
    lemma_run_two(s, Signal::ReferenceFound, Signal::ReferencePeeled { commit });
    lemma_run_append(s, first, rest);
    snapshot_is_fixed(peeled, rest);
    lemma_run_append(s, first, rest.take(k));
    snapshot_is_fixed(peeled, rest.take(k));
}

/// While the revision is being resolved, the stages at which an unborn
/// repository can show.
pub open spec fn is_resolving(action: Action) -> bool {
    action == Action::CheckHistory || action == Action::ResolveReference || action
        == Action::PeelReference || action == Action::FindCommitByPrefix
}

/// An empty repository is reported as such: where the repository turns out
/// to hold no commit while the revision is being resolved, the query fails
/// as `EmptyWorkspace`, never as `RevisionNotFound` or `InternalError`, and
/// nothing that comes in later changes that.
pub proof fn empty_workspace_is_reported(s: Progress, e: Signal, rest: Seq<Signal>)
    requires
        is_resolving(s.pending),
        (e matches Signal::Failed { fault, detail } && fault == Fault::Unborn) || (s.pending
            == Action::CheckHistory && e == (Signal::HistoryChecked { empty: true })),
    ensures
        run(s, seq![e] + rest).pending == Action::Finish,
        run(s, seq![e] + rest).outcome matches Some(Err(failure)) && failure.kind
            == QueryErrorKind::EmptyWorkspace && failure.workspace == s.workspace
            && failure.revision == s.revision && failure.path == join(s.path),
{
    let first = seq![e];
    lemma_run_one(s, e);
    lemma_run_append(s, first, rest);
    finished_is_final(advance(s, e), rest);
}

/// A query on a repository without commits, from its start: opened, found
/// empty, failed as `EmptyWorkspace`.
pub proof fn empty_workspace_from_start(
    workspace: Seq<char>,
    path: Seq<Seq<char>>,
    revision: Seq<char>,
    scratch: Seq<char>,
    rest: Seq<Signal>,
)
    ensures
        run(
            initial(workspace, path, revision, scratch),
            seq![Signal::Opened, Signal::HistoryChecked { empty: true }] + rest,
        ).outcome matches Some(Err(failure)) && failure.kind == QueryErrorKind::EmptyWorkspace,
        !run(
            initial(workspace, path, revision, scratch),
            seq![Signal::Opened, Signal::HistoryChecked { empty: true }] + rest,
        ).scratch_claimed,
{
    let s = initial(workspace, path, revision, scratch);
    let opened = advance(s, Signal::Opened);
    let e = Signal::HistoryChecked { empty: true };
    let events = seq![Signal::Opened, e] + rest;
    assert(events.first() == Signal::Opened);
    assert(events.drop_first() =~= seq![e] + rest);
    empty_workspace_is_reported(opened, e, rest);
    finished_is_final(advance(opened, e), rest);
    lemma_run_append(opened, seq![e], rest);
    lemma_run_one(opened, e);
}

/// What was found below a directory, for entries given in two parts.
pub proof fn lemma_listed_append(base: Seq<Seq<char>>, a: Seq<Seq<char>>, b: Seq<Seq<char>>)
    ensures
        listed(base, a + b) == listed(base, a) + listed(base, b),
    decreases b.len(),
{
    if b.len() == 0 {
        assert(a + b =~= a);
        assert(listed(base, a) + listed(base, b) =~= listed(base, a));
    } else {
        assert((a + b).drop_last() =~= a + b.drop_last());
        assert((a + b).last() == b.last());
        lemma_listed_append(base, a, b.drop_last());
        assert(listed(base, a + b) =~= listed(base, a) + listed(base, b));
    }
}

/// The same entries, found in another order, list the same texts as often.
pub proof fn lemma_listed_permuted(base: Seq<Seq<char>>, a: Seq<Seq<char>>, b: Seq<Seq<char>>)
    requires
        a.to_multiset() == b.to_multiset(),
    ensures
        listed(base, a).to_multiset() == listed(base, b).to_multiset(),
    decreases a.len(),
{
    a.to_multiset_ensures();
    b.to_multiset_ensures();
    if a.len() == 0 {
        assert(b.len() == 0);
        assert(a =~= b);
    } else {
        let x = a.last();
        assert(a.contains(x));
        assert(b.to_multiset().count(x) > 0);
        assert(b.contains(x));
        let k = choose|k: int| 0 <= k < b.len() && b[k] == x;
        let a_rest = a.drop_last();
        let b_rest = b.remove(k);
        assert(a_rest =~= a.remove(a.len() - 1));
        to_multiset_remove(a, a.len() - 1);
        to_multiset_remove(b, k);
        assert(a_rest.to_multiset() == b_rest.to_multiset());
        lemma_listed_permuted(base, a_rest, b_rest);
        let one = seq![x];
        let left = b.take(k);
        let right = b.skip(k + 1);
        assert(a =~= a_rest + one);
        assert(b =~= left + one + right);
        assert(b_rest =~= left + right);
        lemma_listed_append(base, a_rest, one);
        lemma_listed_append(base, left + one, right);
        lemma_listed_append(base, left, one);
        lemma_listed_append(base, left, right);
        let la = listed(base, a_rest);
        let ll = listed(base, left);
        let lo = listed(base, one);
        let lr = listed(base, right);
        lemma_multiset_commutative(la, lo);
        lemma_multiset_commutative(ll + lo, lr);
        lemma_multiset_commutative(ll, lo);
        lemma_multiset_commutative(ll, lr);
        assert(listed(base, b).to_multiset() =~= listed(base, b_rest).to_multiset().add(
            lo.to_multiset(),
        ));
        assert(listed(base, a).to_multiset() =~= listed(base, a_rest).to_multiset().add(
            lo.to_multiset(),
        ));
    }
}

/// The listing of a directory does not depend on the order in which a walk
/// finds the entries: the same entries give the same listing, item by item.
pub proof fn listing_ignores_walk_order(
    base: Seq<Seq<char>>,
    a: Seq<Seq<char>>,
    b: Seq<Seq<char>>,
)
    requires
        a.to_multiset() == b.to_multiset(),
    ensures
        listing(base, a) == listing(base, b),
{
    lemma_listed_permuted(base, a, b);
    lemma_listing_sorted(base, a);
    lemma_listing_sorted(base, b);
    listing_is_canonical(listing(base, a), listing(base, b));
}

/// Two states of the same query that differ at most in the name of the
/// scratch directory.
pub open spec fn same_but_scratch(s: Progress, t: Progress) -> bool {
    t == Progress { scratch: t.scratch, ..s }
}

/// Two events that say the same: equal, or two walks of a directory that
/// found the same entries, in whatever order.
pub open spec fn same_answer(e: Signal, f: Signal) -> bool {
    ||| e == f
    ||| {
        &&& e matches Signal::DirectoryWalked { entries: found_first }
        &&& f matches Signal::DirectoryWalked { entries: found_second }
        &&& found_first.to_multiset() == found_second.to_multiset()
    }
}

/// Two sequences of events that say the same, one by one.
pub open spec fn same_answers(a: Seq<Signal>, b: Seq<Signal>) -> bool {
    &&& a.len() == b.len()
    &&& forall|i: int| 0 <= i < a.len() ==> same_answer(#[trigger] a[i], b[i])
}

/// Asking twice gives the same: two runs of the same query against a
/// repository that answers the same end in the same state, and so with the
/// same outcome, the same bytes of a file and the same items of a directory
/// in the same order. Neither the random names of the two scratch
/// directories nor the order in which a directory was walked shows in the
/// outcome.
pub proof fn repeated_query_gives_same_outcome(
    s: Progress,
    t: Progress,
    a: Seq<Signal>,
    b: Seq<Signal>,
)
    requires
        same_but_scratch(s, t),
        same_answers(a, b),
    ensures
        same_but_scratch(run(s, a), run(t, b)),
        run(s, a).outcome == run(t, b).outcome,
    decreases a.len(),
{
    if a.len() > 0 {
        let e = a.first();
        let f = b.first();
        assert(same_answer(a[0], b[0]));
        if e != f {
            let found_first = e->DirectoryWalked_entries;
            let found_second = f->DirectoryWalked_entries;
            listing_ignores_walk_order(s.path, found_first, found_second);
        }
        assert(same_but_scratch(advance(s, e), advance(t, f)));
        assert(same_answers(a.drop_first(), b.drop_first())) by {
            assert forall|i: int| 0 <= i < a.drop_first().len() implies same_answer(
                #[trigger] a.drop_first()[i],
                b.drop_first()[i],
            ) by {
                assert(same_answer(a[i + 1], b[i + 1]));
            }
        }
        repeated_query_gives_same_outcome(
            advance(s, e),
            advance(t, f),
            a.drop_first(),
            b.drop_first(),
        );
    }
}

/// The text of entry `entry` of directory `base`, written from the root of
/// the tree: the entry as it was found, after the text of `base` and a slash
/// where `base` is not the root.
pub open spec fn prefixed(base: Seq<Seq<char>>, entry: Seq<char>) -> Seq<char> {
    if base.len() == 0 {
        entry
    } else {
        join(base) + seq!['/'] + entry
    }
}

/// Every entry is the relative path of something below the directory, as a
/// walk gives it: a clean path.
pub open spec fn are_walked_entries(entries: Seq<Seq<char>>) -> bool {
    forall|i: int| 0 <= i < entries.len() ==> is_clean_path(#[trigger] entries[i])
}

/// What is listed is what was found: every entry of a walk comes out once,
/// in its place, written as the walk gave it after the directory's own
/// path. No entry is lost, added or changed.
pub proof fn walked_entries_are_listed_as_found(base: Seq<Seq<char>>, entries: Seq<Seq<char>>)
    requires
        are_walked_entries(entries),
    ensures
        listed(base, entries).len() == entries.len(),
        forall|i: int|
            0 <= i < entries.len() ==> #[trigger] listed(base, entries)[i] == prefixed(
                base,
                entries[i],
            ),
    decreases entries.len(),
{
    if entries.len() > 0 {
        let init = entries.drop_last();
        let last = entries.last();
        assert forall|i: int| 0 <= i < init.len() implies is_clean_path(#[trigger] init[i]) by {
            assert(init[i] == entries[i]);
        }
        walked_entries_are_listed_as_found(base, init);
        assert(is_clean_path(last));
        clean_path_passes_unchanged(last);
        lemma_split_pieces(last);
        let segs = sanitized_segments(last);
        if base.len() == 0 {
            assert(base + segs =~= segs);
        } else {
            lemma_join_concat(base, segs);
        }
        assert(join(base + segs) == prefixed(base, last));
        let before = listed(base, init);
        let after = listed(base, entries);
        assert(after == before.push(prefixed(base, last)));
        assert forall|i: int| 0 <= i < entries.len() implies #[trigger] after[i] == prefixed(
            base,
            entries[i],
        ) by {
            if i < init.len() {
                assert(after[i] == before[i]);
                assert(init[i] == entries[i]);
            }
        }
    }
}

/// The listing of the root of a tree enumerates exactly what the tree holds:
/// every entry that the walk found, as often as it was found and as it was
/// written, and nothing else; and it does so in the order of a listing.
pub proof fn root_listing_is_exact(entries: Seq<Seq<char>>)
    requires
        are_walked_entries(entries),
    ensures
        listed(Seq::<Seq<char>>::empty(), entries) == entries,
        listing(Seq::<Seq<char>>::empty(), entries).to_multiset() == entries.to_multiset(),
        sorted_by(listing(Seq::<Seq<char>>::empty(), entries), text_order()),
{
    let root = Seq::<Seq<char>>::empty();
    walked_entries_are_listed_as_found(root, entries);
    assert(listed(root, entries) =~= entries);
    lemma_listing_sorted(root, entries);
}

} // verus!
