//! Sanitising of untrusted workspace names and in-tree paths.
//!
//! A raw path is cut at every slash; segments that are empty, `.` or `..`
//! are dropped and the remaining ones are kept in order. What is left can be
//! joined onto any directory without leaving it. Any other character,
//! the backslash too, is part of the segment it stands in.

use crate::text::extend_chars;
use vstd::prelude::*;

verus! {

/// Whether `c` separates the segments of a path: the slash does, and no
/// other character.
pub open spec fn is_separator(c: char) -> bool {
    c == '/'
}

/// The segment `.`, which names the directory itself.
pub open spec fn is_dot(seg: Seq<char>) -> bool {
    seg.len() == 1 && seg[0] == '.'
}

/// The segment `..`, which names the parent directory.
pub open spec fn is_dot_dot(seg: Seq<char>) -> bool {
    seg.len() == 2 && seg[0] == '.' && seg[1] == '.'
}

/// A segment that names an entry below a directory: not empty, not `.` and
/// not `..`.
pub open spec fn is_plain(seg: Seq<char>) -> bool {
    seg.len() > 0 && !is_dot(seg) && !is_dot_dot(seg)
}

/// No character of `seg` is a separator.
pub open spec fn separator_free(seg: Seq<char>) -> bool {
    forall|i: int| 0 <= i < seg.len() ==> !is_separator(#[trigger] seg[i])
}

/// A segment that is safe to append to a directory: plain and free of
/// separators.
pub open spec fn is_safe_segment(seg: Seq<char>) -> bool {
    is_plain(seg) && separator_free(seg)
}

/// Every segment of `segs` is safe.
pub open spec fn all_safe(segs: Seq<Seq<char>>) -> bool {
    forall|i: int| 0 <= i < segs.len() ==> is_safe_segment(#[trigger] segs[i])
}

/// The pieces of `s` between its separators, empty pieces included. A text
/// with `n` separators has `n + 1` pieces.
pub open spec fn split(s: Seq<char>) -> Seq<Seq<char>>
    decreases s.len(),
{
    if s.len() == 0 {
        seq![Seq::<char>::empty()]
    } else {
        let before = split(s.drop_last());
        if is_separator(s.last()) {
            before.push(Seq::<char>::empty())
        } else {
            before.drop_last().push(before.last().push(s.last()))
        }
    }
}

/// The plain segments of `segs`, in their order.
pub open spec fn plain_only(segs: Seq<Seq<char>>) -> Seq<Seq<char>>
    decreases segs.len(),
{
    if segs.len() == 0 {
        Seq::<Seq<char>>::empty()
    } else {
        let before = plain_only(segs.drop_last());
        if is_plain(segs.last()) {
            before.push(segs.last())
        } else {
            before
        }
    }
}

/// The segments that sanitising keeps of a raw path.
pub open spec fn sanitized_segments(raw: Seq<char>) -> Seq<Seq<char>> {
    plain_only(split(raw))
}

/// The segments written as one text, with a slash between neighbours. No
/// segments give the empty text, which stands for the root of the tree.
pub open spec fn join(segs: Seq<Seq<char>>) -> Seq<char>
    decreases segs.len(),
{
    if segs.len() == 0 {
        Seq::<char>::empty()
    } else if segs.len() == 1 {
        segs[0]
    } else {
        join(segs.drop_last()) + seq!['/'] + segs.last()
    }
}

/// Where a walk ends that starts in directory `base` and follows the segments
/// of `rel` one by one: an empty segment or `.` stays, `..` goes up (and stays
/// at the top), any other segment goes down.
pub open spec fn walk(base: Seq<Seq<char>>, rel: Seq<Seq<char>>) -> Seq<Seq<char>>
    decreases rel.len(),
{
    if rel.len() == 0 {
        base
    } else {
        let at = walk(base, rel.drop_last());
        let seg = rel.last();
        if seg.len() == 0 || is_dot(seg) {
            at
        } else if is_dot_dot(seg) {
            if at.len() > 0 {
                at.drop_last()
            } else {
                at
            }
        } else {
            at.push(seg)
        }
    }
}

/// Where the text `rel` leads when it is joined onto directory `base`. A text
/// that begins with a separator is absolute: it replaces `base` and is
/// followed from the top.
pub open spec fn joined_onto(base: Seq<Seq<char>>, rel: Seq<char>) -> Seq<Seq<char>> {
    if rel.len() > 0 && is_separator(rel[0]) {
        walk(Seq::<Seq<char>>::empty(), split(rel))
    } else {
        walk(base, split(rel))
    }
}

/// The views of a vector of segments.
pub open spec fn views(segs: Seq<Vec<char>>) -> Seq<Seq<char>> {
    Seq::new(segs.len(), |i: int| segs[i]@)
}

/// `split` never gives an empty sequence, and none of its pieces holds a
/// separator.
pub proof fn lemma_split_pieces(s: Seq<char>)
    ensures
        split(s).len() >= 1,
        forall|i: int| 0 <= i < split(s).len() ==> separator_free(#[trigger] split(s)[i]),
    decreases s.len(),
{
    if s.len() > 0 {
        lemma_split_pieces(s.drop_last());
        let before = split(s.drop_last());
        if !is_separator(s.last()) {
            let grown = before.last().push(s.last());
            assert(separator_free(before.last()));
            assert(separator_free(grown)) by {
                assert forall|i: int| 0 <= i < grown.len() implies !is_separator(
                    #[trigger] grown[i],
                ) by {
                    if i < before.last().len() {
                        assert(grown[i] == before.last()[i]);
                    }
                }
            }
            let after = before.drop_last().push(grown);
            assert forall|i: int| 0 <= i < after.len() implies separator_free(
                #[trigger] after[i],
            ) by {
                if i < after.len() - 1 {
                    assert(after[i] == before[i]);
                }
            }
        } else {
            let after = before.push(Seq::<char>::empty());
            assert forall|i: int| 0 <= i < after.len() implies separator_free(
                #[trigger] after[i],
            ) by {
                if i < after.len() - 1 {
                    assert(after[i] == before[i]);
                }
            }
        }
    }
}

/// The pieces of a text hold characters of the text only: what holds of
/// every character of `s` holds of every character of every piece.
pub proof fn lemma_split_chars(s: Seq<char>, allowed: spec_fn(char) -> bool)
    requires
        forall|i: int| 0 <= i < s.len() ==> allowed(#[trigger] s[i]),
    ensures
        forall|k: int, j: int|
            0 <= k < split(s).len() && 0 <= j < split(s)[k].len() ==> allowed(
                #[trigger] split(s)[k][j],
            ),
    decreases s.len(),
{
    if s.len() > 0 {
        let init = s.drop_last();
        assert forall|i: int| 0 <= i < init.len() implies allowed(#[trigger] init[i]) by {
            assert(init[i] == s[i]);
        }
        lemma_split_chars(init, allowed);
        lemma_split_pieces(init);
        let before = split(init);
        let after = split(s);
        assert(allowed(s[s.len() - 1]));
        assert forall|k: int, j: int| 0 <= k < after.len() && 0 <= j < after[k].len() implies allowed(
            #[trigger] after[k][j],
        ) by {
            if is_separator(s.last()) {
                assert(after[k] == before[k]);
            } else if k < after.len() - 1 {
                assert(after[k] == before[k]);
            } else if j < before.last().len() {
                assert(after[k][j] == before.last()[j]);
            }
        }
    }
}

/// `plain_only` keeps plain segments only, and takes each of them from
/// `segs`: what holds of every segment before holds of every segment kept.
pub proof fn lemma_plain_only_keeps(segs: Seq<Seq<char>>, good: spec_fn(Seq<char>) -> bool)
    requires
        forall|i: int| 0 <= i < segs.len() ==> good(#[trigger] segs[i]),
    ensures
        forall|i: int|
            0 <= i < plain_only(segs).len() ==> is_plain(#[trigger] plain_only(segs)[i]) && good(
                plain_only(segs)[i],
            ),
    decreases segs.len(),
{
    if segs.len() > 0 {
        let init = segs.drop_last();
        assert forall|i: int| 0 <= i < init.len() implies good(#[trigger] init[i]) by {
            assert(init[i] == segs[i]);
        }
        lemma_plain_only_keeps(init, good);
        assert(good(segs[segs.len() - 1]));
        let before = plain_only(init);
        let kept = plain_only(segs);
        assert forall|i: int| 0 <= i < kept.len() implies is_plain(#[trigger] kept[i]) && good(
            kept[i],
        ) by {
            if i < before.len() {
                assert(kept[i] == before[i]);
            } else {
                assert(kept[i] == segs.last());
            }
        }
    }
}

/// Where every segment of `segs` is safe and there is one, the segments
/// before the last are all safe, and so is the last.
pub proof fn lemma_all_safe_parts(segs: Seq<Seq<char>>)
    requires
        segs.len() > 0,
        all_safe(segs),
    ensures
        all_safe(segs.drop_last()),
        is_safe_segment(segs.last()),
{
    let init = segs.drop_last();
    assert forall|i: int| 0 <= i < init.len() implies is_safe_segment(#[trigger] init[i]) by {
        assert(init[i] == segs[i]);
    }
    assert(is_safe_segment(segs[segs.len() - 1]));
}

/// What sanitising keeps is safe, segment by segment.
pub proof fn lemma_sanitized_safe(raw: Seq<char>)
    ensures
        all_safe(sanitized_segments(raw)),
{
    lemma_split_pieces(raw);
    let kept = sanitized_segments(raw);
    lemma_plain_only_keeps(split(raw), |seg: Seq<char>| separator_free(seg));
    assert(all_safe(kept));
}

/// Tells whether `c` separates the segments of a path.
pub fn separator(c: char) -> (r: bool)
    ensures
        r == is_separator(c),
{
    c == '/'
}

/// Tells whether `seg` is a plain segment.
pub fn plain(seg: &Vec<char>) -> (r: bool)
    ensures
        r == is_plain(seg@),
{
    if seg.len() == 0 {
        false
    } else if seg.len() == 1 {
        seg[0] != '.'
    } else if seg.len() == 2 {
        !(seg[0] == '.' && seg[1] == '.')
    } else {
        true
    }
}

/// Tells whether `seg` is safe to append to a directory.
pub fn safe_segment(seg: &Vec<char>) -> (r: bool)
    ensures
        r == is_safe_segment(seg@),
{
    if !plain(seg) {
        return false;
    }
    let mut i: usize = 0;
    while i < seg.len()
        invariant
            i <= seg.len(),
            forall|k: int| 0 <= k < i ==> !is_separator(#[trigger] seg@[k]),
        decreases seg.len() - i,
    {
        if separator(seg[i]) {
            return false;
        }
        i = i + 1;
    }
    true
}

/// The characters of `s`, in order.
pub fn chars_of(s: &str) -> (v: Vec<char>)
    ensures
        v@ == s@,
{
    let mut v: Vec<char> = Vec::new();
    for c in it: s.chars()
        invariant
            it.seq() == s@,
            v@ == s@.take(it.index() as int),
    {
        v.push(c);
    }
    v
}

/// Cuts `raw` at its separators and keeps the plain segments.
pub fn plain_segments(raw: &Vec<char>) -> (segs: Vec<Vec<char>>)
    ensures
        views(segs@) == sanitized_segments(raw@),
        all_safe(views(segs@)),
{
    let mut done: Vec<Vec<char>> = Vec::new();
    let mut cur: Vec<char> = Vec::new();
    let mut i: usize = 0;
    assert(raw@.take(0) =~= Seq::<char>::empty());
    assert(views(done@) =~= plain_only(split(raw@.take(0)).drop_last()));
    while i < raw.len()
        invariant
            i <= raw.len(),
            split(raw@.take(i as int)).len() >= 1,
            views(done@) == plain_only(split(raw@.take(i as int)).drop_last()),
            cur@ == split(raw@.take(i as int)).last(),
        decreases raw.len() - i,
    {
        let c = raw[i];
        proof {
            let next = raw@.take(i + 1);
            assert(next.drop_last() =~= raw@.take(i as int));
            assert(next.last() == c);
            lemma_split_pieces(next);
        }
        let ghost before = split(raw@.take(i as int));
        if separator(c) {
            proof {
                assert(split(raw@.take(i + 1)).drop_last() =~= before);
                assert(before.last() == cur@);
            }
            if plain(&cur) {
                let ghost old_done = done@;
                done.push(cur);
                assert(views(done@) =~= views(old_done).push(before.last()));
            }
            cur = Vec::new();
        } else {
            proof {
                assert(split(raw@.take(i + 1)).drop_last() =~= before.drop_last());
            }
            cur.push(c);
        }
        i = i + 1;
    }
    proof {
        assert(raw@.take(i as int) =~= raw@);
        lemma_sanitized_safe(raw@);
    }
    if plain(&cur) {
        let ghost old_done = done@;
        done.push(cur);
        assert(views(done@) =~= views(old_done).push(split(raw@).last()));
    }
    done
}

/// Writes the segments as one text, with a slash between neighbours.
pub fn join_segments(segs: &Vec<Vec<char>>) -> (text: Vec<char>)
    ensures
        text@ == join(views(segs@)),
{
    let mut text: Vec<char> = Vec::new();
    let mut k: usize = 0;
    assert(views(segs@).take(0) =~= Seq::<Seq<char>>::empty());
    while k < segs.len()
        invariant
            k <= segs.len(),
            text@ == join(views(segs@).take(k as int)),
        decreases segs.len() - k,
    {
        proof {
            let next = views(segs@).take(k + 1);
            assert(next.drop_last() =~= views(segs@).take(k as int));
            assert(next.last() == segs@[k as int]@);
            if k == 0 {
                assert(text@ + segs@[k as int]@ =~= next[0]);
            }
        }
        if k > 0 {
            text.push('/');
        }
        extend_chars(&mut text, &segs[k]);
        proof {
            if k > 0 {
                assert(text@ =~= join(views(segs@).take(k as int)) + seq!['/'] + segs@[k as int]@);
            }
        }
        k = k + 1;
    }
    assert(views(segs@).take(k as int) =~= views(segs@));
    text
}

} // verus!
