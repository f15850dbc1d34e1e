//! The ways in which a query fails, and what each failure tells the caller.

use vstd::prelude::*;
use vstd::string::StringExecFns;

verus! {

/// The kinds of failure of a query.
#[derive(Clone, Copy, Debug, PartialEq, Eq, Structural)]
pub enum QueryErrorKind {
    /// No repository exists under the workspace's name, or it cannot be
    /// opened.
    WorkspaceNotFound,
    /// The repository exists but holds no commit yet.
    EmptyWorkspace,
    /// The revision is neither a reference's short name nor the prefix of
    /// exactly one commit's identifier.
    RevisionNotFound,
    /// The tree of the revision holds nothing at the path.
    PathNotFound,
    /// The storage failed in a way that the caller cannot mend.
    InternalError,
}

/// A failed query: its kind, the sanitised inputs that it was about, and
/// what the storage said, where the failure came from there. The detail is
/// for the log; the message for the caller does not hold it.
#[derive(Debug)]
pub struct QueryError {
    pub kind: QueryErrorKind,
    pub workspace: String,
    pub revision: String,
    pub path: String,
    pub detail: String,
}

/// A failed query, as a mathematical value.
pub struct Failure {
    pub kind: QueryErrorKind,
    pub workspace: Seq<char>,
    pub revision: Seq<char>,
    pub path: Seq<char>,
    pub detail: Seq<char>,
}

impl View for QueryError {
    type V = Failure;

    open spec fn view(&self) -> Failure {
        Failure {
            kind: self.kind,
            workspace: self.workspace@,
            revision: self.revision@,
            path: self.path@,
            detail: self.detail@,
        }
    }
}

/// `s` between double quotes.
pub open spec fn quoted(s: Seq<char>) -> Seq<char> {
    seq!['"'] + s + seq!['"']
}

/// The message of a failure. An internal error names none of the inputs, and
/// no message holds the detail.
pub open spec fn message_text(f: Failure) -> Seq<char> {
    match f.kind {
        QueryErrorKind::WorkspaceNotFound => "workspace "@ + quoted(f.workspace)
            + " does not exist or cannot be opened"@,
        QueryErrorKind::EmptyWorkspace => "workspace "@ + quoted(f.workspace)
            + " has no commits yet"@,
        QueryErrorKind::RevisionNotFound => "version "@ + quoted(f.revision)
            + " does not exist in workspace "@ + quoted(f.workspace),
        QueryErrorKind::PathNotFound => "path "@ + quoted(f.path) + " does not exist in workspace "@
            + quoted(f.workspace) + " and version "@ + quoted(f.revision),
        QueryErrorKind::InternalError => "internal error"@,
    }
}

/// Appends `s` between double quotes to `out`.
pub fn append_quoted(out: &mut String, s: &str)
    ensures
        final(out)@ == old(out)@ + quoted(s@),
{
    proof {
        reveal_strlit("\"");
    }
    out.append("\"");
    out.append(s);
    out.append("\"");
    assert("\""@ =~= seq!['"']);
    assert(final(out)@ =~= old(out)@ + quoted(s@));
}

impl QueryError {
    /// The message for the caller.
    pub fn message(&self) -> (r: String)
        ensures
            r@ == message_text(self@),
    {
        match self.kind {
            QueryErrorKind::WorkspaceNotFound => {
                let mut out = String::from_str("workspace ");
                append_quoted(&mut out, self.workspace.as_str());
                out.append(" does not exist or cannot be opened");
                out
            },
            QueryErrorKind::EmptyWorkspace => {
                let mut out = String::from_str("workspace ");
                append_quoted(&mut out, self.workspace.as_str());
                out.append(" has no commits yet");
                out
            },
            QueryErrorKind::RevisionNotFound => {
                let mut out = String::from_str("version ");
                append_quoted(&mut out, self.revision.as_str());
                out.append(" does not exist in workspace ");
                append_quoted(&mut out, self.workspace.as_str());
                out
            },
            QueryErrorKind::PathNotFound => {
                let mut out = String::from_str("path ");
                append_quoted(&mut out, self.path.as_str());
                out.append(" does not exist in workspace ");
                append_quoted(&mut out, self.workspace.as_str());
                out.append(" and version ");
                append_quoted(&mut out, self.revision.as_str());
                out
            },
            QueryErrorKind::InternalError => String::from_str("internal error"),
        }
    }
}

} // verus!
