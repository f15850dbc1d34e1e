//! Why sanitised paths and names stay inside the directory they are joined
//! onto.

use crate::sanitize::{
    all_safe, is_plain, is_safe_segment, is_separator, join, joined_onto, lemma_all_safe_parts,
    lemma_plain_only_keeps, lemma_sanitized_safe, lemma_split_chars, lemma_split_pieces,
    plain_only, sanitized_segments, separator_free, split, walk,
};
use crate::scratch::{scratch_name_is_safe, scratch_name_of};
use crate::workspace::{
    backslash_free, fallback_name, is_safe_name, sanitized_name, slashed,
};
use vstd::prelude::*;

verus! {

/// Cutting a text that ends in a piece without separators: the piece is added
/// to the last piece of what stands before it.
pub proof fn lemma_split_append(a: Seq<char>, b: Seq<char>)
    requires
        separator_free(b),
    ensures
        split(a).len() >= 1,
        split(a + b) == split(a).drop_last().push(split(a).last() + b),
    decreases b.len(),
{
    lemma_split_pieces(a);
    if b.len() == 0 {
        assert(a + b =~= a);
        assert(split(a).last() + b =~= split(a).last());
        assert(split(a).drop_last().push(split(a).last()) =~= split(a));
    } else {
        let init = b.drop_last();
        assert(separator_free(init)) by {
            assert forall|i: int| 0 <= i < init.len() implies !is_separator(#[trigger] init[i]) by {
                assert(init[i] == b[i]);
            }
        }
        lemma_split_append(a, init);
        assert((a + b).drop_last() =~= a + init);
        assert((a + b).last() == b.last());
        assert(!is_separator(b[b.len() - 1]));
        let before = split(a + init);
        assert(before.last() == split(a).last() + init);
        assert(before.last().push(b.last()) =~= split(a).last() + b);
        assert(before.drop_last() =~= split(a).drop_last());
    }
}

/// Cutting a joined text gives the segments back, where there is at least one
/// and all are safe.
pub proof fn lemma_split_join(segs: Seq<Seq<char>>)
    requires
        segs.len() >= 1,
        all_safe(segs),
    ensures
        split(join(segs)) == segs,
    decreases segs.len(),
{
    let empty = Seq::<char>::empty();
    if segs.len() == 1 {
        assert(is_safe_segment(segs[0]));
        lemma_split_append(empty, segs[0]);
        assert(empty + segs[0] =~= segs[0]);
        assert(split(empty) =~= seq![empty]);
        assert(split(empty).drop_last().push(split(empty).last() + segs[0]) =~= segs);
    } else {
        let init = segs.drop_last();
        lemma_all_safe_parts(segs);
        lemma_split_join(init);
        let head = join(init) + seq!['/'];
        assert(head.drop_last() =~= join(init));
        assert(head.last() == '/');
        assert(split(head) == init.push(empty));
        lemma_split_append(head, segs.last());
        assert(empty + segs.last() =~= segs.last());
        assert(split(head).drop_last() =~= init);
        assert(init.push(segs.last()) =~= segs);
    }
}

/// Following safe segments only goes down: the walk ends at `base` with the
/// segments appended.
pub proof fn lemma_walk_safe(base: Seq<Seq<char>>, segs: Seq<Seq<char>>)
    requires
        all_safe(segs),
    ensures
        walk(base, segs) == base + segs,
    decreases segs.len(),
{
    if segs.len() == 0 {
        assert(base + segs =~= base);
    } else {
        let init = segs.drop_last();
        lemma_all_safe_parts(segs);
        lemma_walk_safe(base, init);
        assert((base + init).push(segs.last()) =~= base + segs);
    }
}

/// A text joined from safe segments, joined onto `base`, leads to `base` with
/// those segments appended, and so to a place in or below `base`.
pub proof fn lemma_joined_safe(base: Seq<Seq<char>>, segs: Seq<Seq<char>>)
    requires
        all_safe(segs),
    ensures
        joined_onto(base, join(segs)) == base + segs,
        base.is_prefix_of(joined_onto(base, join(segs))),
{
    let text = join(segs);
    if segs.len() == 0 {
        assert(split(text) =~= seq![Seq::<char>::empty()]);
        assert(walk(base, split(text).drop_last()) == base);
        assert(base + segs =~= base);
    } else {
        lemma_split_join(segs);
        lemma_walk_safe(base, segs);
        lemma_join_starts_plain(segs);
    }
    assert(base.is_prefix_of(base + segs));
}

/// A text joined from safe segments does not begin with a separator.
pub proof fn lemma_join_starts_plain(segs: Seq<Seq<char>>)
    requires
        segs.len() >= 1,
        all_safe(segs),
    ensures
        join(segs).len() > 0,
        join(segs)[0] == segs[0][0],
        !is_separator(join(segs)[0]),
    decreases segs.len(),
{
    assert(is_safe_segment(segs[0]));
    if segs.len() > 1 {
        let init = segs.drop_last();
        lemma_all_safe_parts(segs);
        lemma_join_starts_plain(init);
        assert(init[0] == segs[0]);
    }
}

/// Traversal safety of paths: whatever the raw text holds (`..`, a leading
/// separator, repeated separators), the sanitised path joined onto any
/// directory `base` leads to `base` followed by the kept segments, never to a
/// place outside `base`.
pub proof fn sanitized_path_stays_inside(raw: Seq<char>, base: Seq<Seq<char>>)
    ensures
        joined_onto(base, join(sanitized_segments(raw))) == base + sanitized_segments(raw),
        base.is_prefix_of(joined_onto(base, join(sanitized_segments(raw)))),
{
    lemma_sanitized_safe(raw);
    lemma_joined_safe(base, sanitized_segments(raw));
}

/// One safe segment, joined onto `base`, leads to the entry of that name in
/// `base`.
pub proof fn lemma_segment_joined(base: Seq<Seq<char>>, seg: Seq<char>)
    requires
        is_safe_segment(seg),
    ensures
        joined_onto(base, seg) == base.push(seg),
        base.is_prefix_of(joined_onto(base, seg)),
{
    let segs = seq![seg];
    assert(all_safe(segs));
    assert(join(segs) == seg);
    lemma_joined_safe(base, segs);
    assert(base + segs =~= base.push(seg));
}

/// The sanitised form of a raw name is a safe name: one plain segment
/// without a slash and without a backslash.
pub proof fn sanitized_name_is_safe(raw: Seq<char>)
    ensures
        is_safe_name(sanitized_name(raw)),
{
    let text = slashed(raw);
    let kept = sanitized_segments(text);
    if kept.len() > 0 {
        lemma_sanitized_safe(text);
        lemma_split_chars(text, |c: char| c != '\\');
        assert forall|k: int| 0 <= k < split(text).len() implies backslash_free(
            #[trigger] split(text)[k],
        ) by {
            assert forall|j: int| 0 <= j < split(text)[k].len() implies split(text)[k][j]
                != '\\' by {
                assert((|c: char| c != '\\')(split(text)[k][j]));
            }
        }
        lemma_plain_only_keeps(split(text), |seg: Seq<char>| backslash_free(seg));
        assert(is_safe_segment(kept[0]));
        assert(backslash_free(kept[0]));
    } else {
        assert(is_safe_name(fallback_name()));
    }
}

/// Confinement of workspace names: whatever the raw name holds (slashes,
/// backslashes, `..`, nothing at all), the sanitised name is one safe name,
/// and joined onto the directory `base` of the workspaces it leads to the
/// entry of that name in `base`, never to a place outside `base`.
pub proof fn sanitized_name_stays_inside(raw: Seq<char>, base: Seq<Seq<char>>)
    ensures
        is_safe_name(sanitized_name(raw)),
        joined_onto(base, sanitized_name(raw)) == base.push(sanitized_name(raw)),
        base.is_prefix_of(joined_onto(base, sanitized_name(raw))),
{
    sanitized_name_is_safe(raw);
    lemma_segment_joined(base, sanitized_name(raw));
}

/// Confinement of scratch directories: the directory of any random number,
/// joined onto the scratch root `base`, is an entry of `base`; and a sanitised
/// path joined onto that directory stays in or below it.
pub proof fn checkout_stays_inside(token: u64, raw: Seq<char>, base: Seq<Seq<char>>)
    ensures
        joined_onto(base, scratch_name_of(token)) == base.push(scratch_name_of(token)),
        base.push(scratch_name_of(token)).is_prefix_of(
            joined_onto(base.push(scratch_name_of(token)), join(sanitized_segments(raw))),
        ),
{
    scratch_name_is_safe(token);
    lemma_segment_joined(base, scratch_name_of(token));
    sanitized_path_stays_inside(raw, base.push(scratch_name_of(token)));
}

/// Of safe segments, all are kept.
pub proof fn lemma_plain_only_keeps_safe(segs: Seq<Seq<char>>)
    requires
        all_safe(segs),
    ensures
        plain_only(segs) == segs,
    decreases segs.len(),
{
    if segs.len() == 0 {
        assert(plain_only(segs) =~= segs);
    } else {
        let init = segs.drop_last();
        lemma_all_safe_parts(segs);
        lemma_plain_only_keeps_safe(init);
        assert(init.push(segs.last()) =~= segs);
    }
}

/// A text joined from safe segments is sanitised to those segments.
pub proof fn lemma_sanitized_join(segs: Seq<Seq<char>>)
    requires
        all_safe(segs),
    ensures
        sanitized_segments(join(segs)) == segs,
{
    if segs.len() == 0 {
        let pieces = split(join(segs));
        assert(pieces =~= seq![Seq::<char>::empty()]);
        assert(plain_only(pieces.drop_last()) =~= Seq::<Seq<char>>::empty());
        assert(plain_only(pieces) =~= segs);
    } else {
        lemma_split_join(segs);
        lemma_plain_only_keeps_safe(segs);
    }
}

/// Sanitising twice is sanitising once: the text of a sanitised path,
/// sanitised again, gives the same path.
pub proof fn sanitising_is_idempotent(raw: Seq<char>)
    ensures
        sanitized_segments(join(sanitized_segments(raw))) == sanitized_segments(raw),
{
    lemma_sanitized_safe(raw);
    lemma_sanitized_join(sanitized_segments(raw));
}

/// Cutting a text and joining the pieces gives the text back.
pub proof fn lemma_join_split(s: Seq<char>)
    ensures
        join(split(s)) == s,
    decreases s.len(),
{
    if s.len() == 0 {
        assert(join(split(s)) =~= s);
    } else {
        let init = s.drop_last();
        lemma_join_split(init);
        lemma_split_pieces(init);
        let before = split(init);
        if is_separator(s.last()) {
            let after = before.push(Seq::<char>::empty());
            assert(after.drop_last() =~= before);
            assert(join(after) =~= init.push(s.last()));
        } else {
            let grown = before.last().push(s.last());
            let after = before.drop_last().push(grown);
            assert(after.drop_last() =~= before.drop_last());
            assert(join(after) =~= join(before).push(s.last()));
        }
        assert(init.push(s.last()) =~= s);
    }
}

/// A raw path whose pieces between slashes are all plain: it has no leading
/// or trailing slash, no two slashes in a row, and no piece `.` or `..`.
pub open spec fn is_clean_path(raw: Seq<char>) -> bool {
    forall|i: int| 0 <= i < split(raw).len() ==> is_plain(#[trigger] split(raw)[i])
}

/// Safe input passes unchanged: of a clean path every piece is kept, in its
/// place and as it was written, so the text of the sanitised path is the raw
/// text.
pub proof fn clean_path_passes_unchanged(raw: Seq<char>)
    requires
        is_clean_path(raw),
    ensures
        sanitized_segments(raw) == split(raw),
        join(sanitized_segments(raw)) == raw,
{
    lemma_split_pieces(raw);
    assert(all_safe(split(raw)));
    lemma_plain_only_keeps_safe(split(raw));
    lemma_join_split(raw);
}

/// The text of segments in two parts is the texts of the parts with a slash
/// between them.
pub proof fn lemma_join_concat(a: Seq<Seq<char>>, b: Seq<Seq<char>>)
    requires
        a.len() > 0,
        b.len() > 0,
    ensures
        join(a + b) == join(a) + seq!['/'] + join(b),
    decreases b.len(),
{
    let all = a + b;
    assert(all.drop_last() =~= a + b.drop_last());
    assert(all.last() == b.last());
    if b.len() == 1 {
        assert(a + b.drop_last() =~= a);
        assert(join(all) =~= join(a) + seq!['/'] + join(b));
    } else {
        lemma_join_concat(a, b.drop_last());
        assert(join(all) =~= join(a) + seq!['/'] + join(b));
    }
}

} // verus!
