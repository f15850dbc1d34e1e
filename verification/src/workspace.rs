//! The values of one query: the workspace's name, the path inside the tree,
//! the revision asked for, and what a query gives back.

use crate::sanitize::{
    all_safe, chars_of, is_safe_segment, join, join_segments, plain_segments, safe_segment,
    sanitized_segments, views,
};
use crate::confine::sanitized_name_is_safe;
use crate::text::{copy_chars, string_of};
use vstd::prelude::*;

verus! {

/// The name that stands in for a raw name of which sanitising keeps nothing.
pub open spec fn fallback_name() -> Seq<char> {
    seq!['_']
}

/// No character of `s` is a backslash.
pub open spec fn backslash_free(s: Seq<char>) -> bool {
    forall|i: int| 0 <= i < s.len() ==> #[trigger] s[i] != '\\'
}

/// A name that is safe on every host: one safe segment, and without a
/// backslash, which separates segments on some hosts.
pub open spec fn is_safe_name(name: Seq<char>) -> bool {
    is_safe_segment(name) && backslash_free(name)
}

/// `raw` with a slash in place of every backslash.
pub open spec fn slashed(raw: Seq<char>) -> Seq<char> {
    Seq::new(
        raw.len(),
        |i: int|
            if raw[i] == '\\' {
                '/'
            } else {
                raw[i]
            },
    )
}

/// The sanitised form of a raw workspace name. A name is cut at slashes and
/// at backslashes alike; it is the first plain piece, and the fallback name
/// where there is none. What follows that piece is dropped, so the name is
/// always one segment.
pub open spec fn sanitized_name(raw: Seq<char>) -> Seq<char> {
    let segs = sanitized_segments(slashed(raw));
    if segs.len() > 0 {
        segs[0]
    } else {
        fallback_name()
    }
}

/// Whether `c` is blank space that is cut from the ends of a revision.
pub open spec fn is_blank(c: char) -> bool {
    c == ' ' || c == '\t' || c == '\n' || c == '\r' || c == '\x0b' || c == '\x0c'
}

/// `s` without the blank characters at its end.
pub open spec fn trim_end(s: Seq<char>) -> Seq<char>
    decreases s.len(),
{
    if s.len() > 0 && is_blank(s.last()) {
        trim_end(s.drop_last())
    } else {
        s
    }
}

/// `s` without the blank characters at its start.
pub open spec fn trim_start(s: Seq<char>) -> Seq<char>
    decreases s.len(),
{
    if s.len() > 0 && is_blank(s.first()) {
        trim_start(s.drop_first())
    } else {
        s
    }
}

/// `s` without the blank characters at either end.
pub open spec fn trimmed(s: Seq<char>) -> Seq<char> {
    trim_start(trim_end(s))
}

/// Tells whether `c` is blank space.
pub fn blank(c: char) -> (r: bool)
    ensures
        r == is_blank(c),
{
    c == ' ' || c == '\t' || c == '\n' || c == '\r' || c == '\x0b' || c == '\x0c'
}

/// `raw` with a slash in place of every backslash.
fn slash_all(raw: &Vec<char>) -> (text: Vec<char>)
    ensures
        text@ == slashed(raw@),
{
    let mut text: Vec<char> = Vec::new();
    let mut i: usize = 0;
    while i < raw.len()
        invariant
            i <= raw.len(),
            text@ == slashed(raw@).take(i as int),
        decreases raw.len() - i,
    {
        let c = raw[i];
        if c == '\\' {
            text.push('/');
        } else {
            text.push(c);
        }
        assert(text@ =~= slashed(raw@).take(i + 1));
        i = i + 1;
    }
    assert(slashed(raw@).take(i as int) =~= slashed(raw@));
    text
}

/// The name of a workspace: one safe name.
#[derive(Debug)]
pub struct WorkspaceName {
    text: String,
}

impl View for WorkspaceName {
    type V = Seq<char>;

    closed spec fn view(&self) -> Seq<char> {
        self.text@
    }
}

impl WorkspaceName {
    #[verifier::type_invariant]
    spec fn well_formed(self) -> bool {
        is_safe_name(self.text@)
    }

    /// Sanitises a raw name. Never fails: a raw name without any plain
    /// piece gives the fallback name.
    pub fn new(name: String) -> (r: Self)
        ensures
            r@ == sanitized_name(name@),
            is_safe_name(r@),
    {
        let raw = chars_of(name.as_str());
        let text = slash_all(&raw);
        let segs = plain_segments(&text);
        proof {
            sanitized_name_is_safe(name@);
        }
        if segs.len() > 0 {
            let first = copy_chars(&segs[0]);
            WorkspaceName { text: string_of(&first) }
        } else {
            let mut v: Vec<char> = Vec::new();
            v.push('_');
            assert(v@ =~= fallback_name());
            WorkspaceName { text: string_of(&v) }
        }
    }

    /// The name as text.
    pub fn as_str(&self) -> (r: &str)
        ensures
            r@ == self@,
            is_safe_name(self@),
    {
        proof {
            use_type_invariant(self);
        }
        self.text.as_str()
    }
}

/// A path below the root of a tree, held as its segments. No segments stand
/// for the root itself.
#[derive(Debug)]
pub struct WorkspacePath {
    segments: Vec<Vec<char>>,
    text: String,
}

impl View for WorkspacePath {
    type V = Seq<Seq<char>>;

    closed spec fn view(&self) -> Seq<Seq<char>> {
        views(self.segments@)
    }
}

impl WorkspacePath {
    #[verifier::type_invariant]
    spec fn well_formed(self) -> bool {
        &&& all_safe(views(self.segments@))
        &&& self.text@ == join(views(self.segments@))
    }

    /// Sanitises a raw path: cuts it at every slash and keeps the
    /// segments that are neither empty nor `.` nor `..`. Never fails.
    pub fn new(path: String) -> (r: Self)
        ensures
            r@ == sanitized_segments(path@),
            all_safe(r@),
    {
        let raw = chars_of(path.as_str());
        let segments = plain_segments(&raw);
        let text = join_segments(&segments);
        WorkspacePath { segments, text: string_of(&text) }
    }

    /// The path of given segments, where each of them is safe; nothing
    /// where one is not.
    pub fn from_segments(segments: Vec<Vec<char>>) -> (r: Option<Self>)
        ensures
            match r {
                Some(path) => all_safe(views(segments@)) && path@ == views(segments@),
                None => !all_safe(views(segments@)),
            },
    {
        let mut i: usize = 0;
        while i < segments.len()
            invariant
                i <= segments.len(),
                forall|k: int| 0 <= k < i ==> is_safe_segment(#[trigger] views(segments@)[k]),
            decreases segments.len() - i,
        {
            if !safe_segment(&segments[i]) {
                assert(!is_safe_segment(views(segments@)[i as int]));
                return None;
            }
            i = i + 1;
        }
        let text = join_segments(&segments);
        Some(WorkspacePath { segments, text: string_of(&text) })
    }

    /// The path as text: its segments with a slash between neighbours, and
    /// the empty text for the root.
    pub fn as_str(&self) -> (r: &str)
        ensures
            r@ == join(self@),
            all_safe(self@),
    {
        proof {
            use_type_invariant(self);
        }
        self.text.as_str()
    }

    /// The segments of the path.
    pub fn segments(&self) -> (r: &Vec<Vec<char>>)
        ensures
            views(r@) == self@,
            all_safe(self@),
    {
        proof {
            use_type_invariant(self);
        }
        &self.segments
    }

    /// Tells whether the path is the root of the tree.
    pub fn is_root(&self) -> (r: bool)
        ensures
            r == (self@.len() == 0),
    {
        self.segments.len() == 0
    }
}

/// The revision asked for, as the caller wrote it but for blank space at its
/// ends.
#[derive(Debug)]
pub struct WorkspaceVersion {
    text: String,
}

impl View for WorkspaceVersion {
    type V = Seq<char>;

    closed spec fn view(&self) -> Seq<char> {
        self.text@
    }
}

impl WorkspaceVersion {
    /// Takes the revision as written, without the blank space at its ends.
    pub fn new(version: String) -> (r: Self)
        ensures
            r@ == trimmed(version@),
    {
        let raw = chars_of(version.as_str());
        let mut end: usize = raw.len();
        assert(raw@.take(end as int) =~= raw@);
        while end > 0 && blank(raw[end - 1])
            invariant
                end <= raw.len(),
                trim_end(raw@) == trim_end(raw@.take(end as int)),
            decreases end,
        {
            assert(raw@.take(end as int).drop_last() =~= raw@.take(end - 1));
            end = end - 1;
        }
        let ghost body = raw@.take(end as int);
        assert(trim_end(raw@) == body);
        let mut start: usize = 0;
        assert(body.skip(0) =~= body);
        while start < end && blank(raw[start])
            invariant
                start <= end <= raw.len(),
                body == raw@.take(end as int),
                trim_start(body) == trim_start(body.skip(start as int)),
            decreases end - start,
        {
            assert(body.skip(start as int).drop_first() =~= body.skip(start + 1));
            assert(body.skip(start as int).first() == raw@[start as int]);
            start = start + 1;
        }
        proof {
            let rest = body.skip(start as int);
            if start < end {
                assert(rest.first() == raw@[start as int]);
            }
            assert(trim_start(rest) == rest);
        }
        let mut kept: Vec<char> = Vec::new();
        let mut i: usize = start;
        while i < end
            invariant
                start <= i <= end <= raw.len(),
                kept@ == raw@.subrange(start as int, i as int),
            decreases end - i,
        {
            kept.push(raw[i]);
            assert(raw@.subrange(start as int, i + 1) =~= raw@.subrange(
                start as int,
                i as int,
            ).push(raw@[i as int]));
            i = i + 1;
        }
        assert(raw@.subrange(start as int, end as int) =~= body.skip(start as int));
        WorkspaceVersion { text: string_of(&kept) }
    }

    /// The revision as text.
    pub fn as_str(&self) -> (r: &str)
        ensures
            r@ == self@,
    {
        self.text.as_str()
    }
}

/// One query: which workspace, which path in its tree, at which revision.
#[derive(Debug)]
pub struct WorkspaceQuery {
    pub workspace_name: WorkspaceName,
    pub workspace_path: WorkspacePath,
    pub workspace_version: WorkspaceVersion,
}

/// What a query found at the path: a file with its bytes, or a directory
/// with the paths of all that lies below it, each written from the root of
/// the tree and in the order of a listing.
#[derive(Debug, PartialEq, Eq)]
pub enum WorkspaceQueryResult {
    File { name: String, contents: Vec<u8> },
    Directory { name: String, items: Vec<String> },
}

/// What a query found, as a mathematical value.
pub enum Found {
    File { name: Seq<char>, contents: Seq<u8> },
    Directory { name: Seq<char>, items: Seq<Seq<char>> },
}

/// The views of a vector of strings.
pub open spec fn texts(items: Seq<String>) -> Seq<Seq<char>> {
    Seq::new(items.len(), |i: int| items[i]@)
}

impl View for WorkspaceQueryResult {
    type V = Found;

    open spec fn view(&self) -> Found {
        match self {
            WorkspaceQueryResult::File { name, contents } => Found::File {
                name: name@,
                contents: contents@,
            },
            WorkspaceQueryResult::Directory { name, items } => Found::Directory {
                name: name@,
                items: texts(items@),
            },
        }
    }
}

} // verus!
