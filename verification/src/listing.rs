//! The order in which the entries of a directory are listed.
//!
//! Entries are compared as texts, character by character, with the slash
//! ranking below every other character. A directory then comes directly
//! before what lies in it, and the entries of one directory come in the
//! order of their names: the order of a depth-first walk that visits each
//! directory's entries by name.

use crate::sanitize::{
    all_safe, chars_of, join, join_segments, plain_segments, sanitized_segments, views,
};
use crate::text::{copy_chars, string_of};
use crate::workspace::{texts, WorkspacePath};
use vstd::multiset::{lemma_multiset_empty_len, Multiset};
use vstd::prelude::*;
use vstd::relations::{sorted_by, total_ordering};
use vstd::seq_lib::{lemma_sorted_unique, to_multiset_build, to_multiset_remove};

verus! {

/// The rank of a character in the order of entries: the slash first, then
/// the characters by their code.
pub open spec fn rank(c: char) -> int {
    if c == '/' {
        0
    } else {
        c as int + 1
    }
}

/// Whether text `a` comes before text `b` in a listing, or is equal to it.
pub open spec fn text_le(a: Seq<char>, b: Seq<char>) -> bool
    decreases a.len(),
{
    if a.len() == 0 {
        true
    } else if b.len() == 0 {
        false
    } else if rank(a[0]) != rank(b[0]) {
        rank(a[0]) < rank(b[0])
    } else {
        text_le(a.drop_first(), b.drop_first())
    }
}

/// `text_le` as a relation.
pub open spec fn text_order() -> spec_fn(Seq<char>, Seq<char>) -> bool {
    |a: Seq<char>, b: Seq<char>| text_le(a, b)
}

/// Different characters have different ranks.
pub proof fn lemma_rank_injective(c: char, d: char)
    requires
        rank(c) == rank(d),
    ensures
        c == d,
{
    assert(c as int >= 0 && d as int >= 0);
    assert(c as int == d as int);
    assert(c as int as char == c && d as int as char == d);
}

/// Every text is before or equal to itself.
pub proof fn lemma_text_le_reflexive(a: Seq<char>)
    ensures
        text_le(a, a),
    decreases a.len(),
{
    if a.len() > 0 {
        lemma_text_le_reflexive(a.drop_first());
    }
}

/// Of two texts one is before or equal to the other.
pub proof fn lemma_text_le_connected(a: Seq<char>, b: Seq<char>)
    ensures
        text_le(a, b) || text_le(b, a),
    decreases a.len(),
{
    if a.len() > 0 && b.len() > 0 && rank(a[0]) == rank(b[0]) {
        lemma_text_le_connected(a.drop_first(), b.drop_first());
    }
}

/// Two texts that are each before or equal to the other are equal.
pub proof fn lemma_text_le_antisymmetric(a: Seq<char>, b: Seq<char>)
    requires
        text_le(a, b),
        text_le(b, a),
    ensures
        a == b,
    decreases a.len(),
{
    if a.len() == 0 || b.len() == 0 {
        assert(a =~= b);
    } else {
        assert(rank(a[0]) == rank(b[0]));
        lemma_rank_injective(a[0], b[0]);
        lemma_text_le_antisymmetric(a.drop_first(), b.drop_first());
        assert(a =~= seq![a[0]] + a.drop_first());
        assert(b =~= seq![b[0]] + b.drop_first());
    }
}

/// Before-or-equal carries over a text in the middle.
pub proof fn lemma_text_le_transitive(a: Seq<char>, b: Seq<char>, c: Seq<char>)
    requires
        text_le(a, b),
        text_le(b, c),
    ensures
        text_le(a, c),
    decreases a.len(),
{
    if a.len() > 0 {
        if rank(a[0]) == rank(b[0]) && rank(b[0]) == rank(c[0]) {
            lemma_text_le_transitive(a.drop_first(), b.drop_first(), c.drop_first());
        }
    }
}

/// The order of entries is a total order on texts.
pub proof fn lemma_text_order_total()
    ensures
        total_ordering(text_order()),
{
    let r = text_order();
    assert forall|x: Seq<char>| #[trigger] r(x, x) by {
        lemma_text_le_reflexive(x);
    }
    assert forall|x: Seq<char>, y: Seq<char>| #[trigger] r(x, y) && #[trigger] r(y, x) implies x
        == y by {
        lemma_text_le_antisymmetric(x, y);
    }
    assert forall|x: Seq<char>, y: Seq<char>, z: Seq<char>| #[trigger]
        r(x, y) && #[trigger] r(y, z) implies r(x, z) by {
        lemma_text_le_transitive(x, y, z);
    }
    assert forall|x: Seq<char>, y: Seq<char>| #[trigger] r(x, y) || #[trigger] r(y, x) by {
        lemma_text_le_connected(x, y);
    }
}

/// The listing of given entries does not depend on the order in which they
/// were found: two ordered listings of the same entries are equal.
pub proof fn listing_is_canonical(x: Seq<Seq<char>>, y: Seq<Seq<char>>)
    requires
        sorted_by(x, text_order()),
        sorted_by(y, text_order()),
        x.to_multiset() == y.to_multiset(),
    ensures
        x == y,
{
    lemma_text_order_total();
    lemma_sorted_unique(x, y, text_order());
}

/// No entries make the empty multiset.
proof fn lemma_empty_listing(s: Seq<Seq<char>>)
    requires
        s.len() == 0,
    ensures
        s.to_multiset() == Multiset::<Seq<char>>::empty(),
{
    s.to_multiset_ensures();
    lemma_multiset_empty_len(s.to_multiset());
    assert(s.to_multiset() =~= Multiset::<Seq<char>>::empty());
}

/// The rank of `c`.
fn rank_of(c: char) -> (r: u32)
    ensures
        r == rank(c),
{
    if c == '/' {
        0
    } else {
        c as u32 + 1
    }
}

/// Tells whether text `a` comes before text `b` in a listing, or is equal to
/// it.
pub fn precedes(a: &Vec<char>, b: &Vec<char>) -> (r: bool)
    ensures
        r == text_le(a@, b@),
{
    let mut i: usize = 0;
    assert(a@.skip(0) =~= a@ && b@.skip(0) =~= b@);
    loop
        invariant
            i <= a.len(),
            i <= b.len(),
            text_le(a@, b@) == text_le(a@.skip(i as int), b@.skip(i as int)),
        decreases a.len() - i,
    {
        if i == a.len() {
            return true;
        }
        if i == b.len() {
            return false;
        }
        let ra = rank_of(a[i]);
        let rb = rank_of(b[i]);
        assert(a@.skip(i as int)[0] == a@[i as int]);
        assert(b@.skip(i as int)[0] == b@[i as int]);
        if ra != rb {
            return ra < rb;
        }
        assert(a@.skip(i as int).drop_first() =~= a@.skip(i + 1));
        assert(b@.skip(i as int).drop_first() =~= b@.skip(i + 1));
        i = i + 1;
    }
}

/// Puts the entries into the order of a listing. Nothing is added and
/// nothing is lost: an entry that occurs several times stays as often.
pub fn sort_texts(items: Vec<Vec<char>>) -> (sorted: Vec<Vec<char>>)
    ensures
        sorted_by(views(sorted@), text_order()),
        views(sorted@).to_multiset() == views(items@).to_multiset(),
{
    let ghost all = views(items@);
    let mut rest = items;
    let mut out: Vec<Vec<char>> = Vec::new();
    proof {
        lemma_empty_listing(views(out@));
        assert(views(out@).to_multiset().add(all.to_multiset()) =~= all.to_multiset());
    }
    while rest.len() > 0
        invariant
            sorted_by(views(out@), text_order()),
            views(out@).to_multiset().add(views(rest@).to_multiset()) == all.to_multiset(),
        decreases rest.len(),
    {
        let ghost rest_before = views(rest@);
        let x = rest.pop().unwrap();
        proof {
            assert(rest_before =~= views(rest@).push(x@));
        }
        let mut j: usize = 0;
        while j < out.len() && !precedes(&x, &out[j])
            invariant
                j <= out.len(),
                forall|k: int| 0 <= k < j ==> text_le(#[trigger] views(out@)[k], x@),
            decreases out.len() - j,
        {
            proof {
                lemma_text_le_connected(x@, out@[j as int]@);
            }
            j = j + 1;
        }
        let ghost before = views(out@);
        out.insert(j, x);
        proof {
            let after = views(out@);
            assert(after =~= before.insert(j as int, x@));
            assert(after.remove(j as int) =~= before);
            assert(after[j as int] == x@);
            assert(after.contains(x@));
            after.to_multiset_ensures();
            assert(after.to_multiset().count(x@) > 0);
            to_multiset_remove(after, j as int);
            assert(after.to_multiset() =~= before.to_multiset().insert(x@));
            to_multiset_build(views(rest@), x@);
            assert forall|p: int, q: int| 0 <= p < q < after.len() implies #[trigger] text_order()(
                after[p],
                after[q],
            ) by {
                if q < j {
                    assert(text_order()(before[p], before[q]));
                } else if q == j {
                    assert(text_le(before[p], x@));
                } else if p == j {
                    if q - 1 > j {
                        assert(text_order()(before[j as int], before[q - 1]));
                        lemma_text_le_transitive(x@, before[j as int], before[q - 1]);
                    }
                } else if p < j {
                    assert(text_le(before[p], x@));
                    if q - 1 > j {
                        assert(text_order()(before[j as int], before[q - 1]));
                        lemma_text_le_transitive(x@, before[j as int], before[q - 1]);
                    }
                    lemma_text_le_transitive(before[p], x@, before[q - 1]);
                } else {
                    assert(text_order()(before[p - 1], before[q - 1]));
                }
            }
            assert(views(out@).to_multiset().add(views(rest@).to_multiset()) =~= all.to_multiset());
        }
    }
    proof {
        lemma_empty_listing(views(rest@));
        assert(views(out@).to_multiset().add(views(rest@).to_multiset()) =~= views(
            out@,
        ).to_multiset());
    }
    out
}

/// The entries that were found below directory `base`, each written from the
/// root of the tree. An entry is given as it was found, relative to `base`;
/// it is sanitised like any path, and an entry of which nothing is kept (the
/// directory itself) is left out.
pub open spec fn listed(base: Seq<Seq<char>>, entries: Seq<Seq<char>>) -> Seq<Seq<char>>
    decreases entries.len(),
{
    if entries.len() == 0 {
        Seq::<Seq<char>>::empty()
    } else {
        let before = listed(base, entries.drop_last());
        let segs = sanitized_segments(entries.last());
        if segs.len() == 0 {
            before
        } else {
            before.push(join(base + segs))
        }
    }
}

/// The listing of directory `base`: what was found below it, in order.
pub open spec fn listing(base: Seq<Seq<char>>, entries: Seq<Seq<char>>) -> Seq<Seq<char>> {
    listed(base, entries).sort_by(text_order())
}

/// The listing is in order and holds what was found, each entry as often as
/// it was found.
pub proof fn lemma_listing_sorted(base: Seq<Seq<char>>, entries: Seq<Seq<char>>)
    ensures
        sorted_by(listing(base, entries), text_order()),
        listing(base, entries).to_multiset() == listed(base, entries).to_multiset(),
{
    lemma_text_order_total();
    listed(base, entries).lemma_sort_by_ensures(text_order());
}

/// The segments of `base` followed by those of `tail`.
fn concat_segments(base: &Vec<Vec<char>>, tail: &Vec<Vec<char>>) -> (all: Vec<Vec<char>>)
    ensures
        views(all@) == views(base@) + views(tail@),
{
    let mut all: Vec<Vec<char>> = Vec::new();
    let mut i: usize = 0;
    assert(views(all@) =~= views(base@).take(0));
    while i < base.len()
        invariant
            i <= base.len(),
            views(all@) == views(base@).take(i as int),
        decreases base.len() - i,
    {
        let ghost before = views(all@);
        let seg = copy_chars(&base[i]);
        all.push(seg);
        assert(views(all@) =~= before.push(base@[i as int]@));
        assert(views(base@).take(i + 1) =~= before.push(base@[i as int]@));
        i = i + 1;
    }
    assert(views(base@).take(i as int) =~= views(base@));
    let mut j: usize = 0;
    assert(views(all@) =~= views(base@) + views(tail@).take(0));
    while j < tail.len()
        invariant
            j <= tail.len(),
            views(all@) == views(base@) + views(tail@).take(j as int),
        decreases tail.len() - j,
    {
        let ghost before = views(all@);
        let seg = copy_chars(&tail[j]);
        all.push(seg);
        assert(views(all@) =~= before.push(tail@[j as int]@));
        assert(views(base@) + views(tail@).take(j + 1) =~= before.push(tail@[j as int]@));
        j = j + 1;
    }
    assert(views(tail@).take(j as int) =~= views(tail@));
    all
}

/// The listing of directory `base`, from the entries that a walk below it
/// found, each given relative to `base` and in whatever order.
pub fn list_items(base: &WorkspacePath, entries: &Vec<String>) -> (items: Vec<String>)
    ensures
        texts(items@) == listing(base@, texts(entries@)),
{
    let base_segments = base.segments();
    let mut found: Vec<Vec<char>> = Vec::new();
    let mut k: usize = 0;
    assert(texts(entries@).take(0) =~= Seq::<Seq<char>>::empty());
    assert(views(found@) =~= listed(base@, texts(entries@).take(0)));
    while k < entries.len()
        invariant
            k <= entries.len(),
            views(base_segments@) == base@,
            views(found@) == listed(base@, texts(entries@).take(k as int)),
        decreases entries.len() - k,
    {
        let raw = chars_of(entries[k].as_str());
        let segs = plain_segments(&raw);
        proof {
            let next = texts(entries@).take(k + 1);
            assert(next.drop_last() =~= texts(entries@).take(k as int));
            assert(next.last() == entries@[k as int]@);
        }
        if segs.len() > 0 {
            let whole = concat_segments(base_segments, &segs);
            let text = join_segments(&whole);
            let ghost before = views(found@);
            found.push(text);
            assert(views(found@) =~= before.push(join(base@ + views(segs@))));
        }
        k = k + 1;
    }
    assert(texts(entries@).take(k as int) =~= texts(entries@));
    let sorted = sort_texts(found);
    proof {
        lemma_listing_sorted(base@, texts(entries@));
        listing_is_canonical(views(sorted@), listing(base@, texts(entries@)));
    }
    let mut items: Vec<String> = Vec::new();
    let mut i: usize = 0;
    assert(texts(items@) =~= views(sorted@).take(0));
    while i < sorted.len()
        invariant
            i <= sorted.len(),
            texts(items@) == views(sorted@).take(i as int),
        decreases sorted.len() - i,
    {
        let ghost before = texts(items@);
        let item = string_of(&sorted[i]);
        items.push(item);
        assert(texts(items@) =~= before.push(sorted@[i as int]@));
        assert(views(sorted@).take(i + 1) =~= before.push(sorted@[i as int]@));
        i = i + 1;
    }
    assert(views(sorted@).take(i as int) =~= views(sorted@));
    items
}

} // verus!
