//! From the raw parameters of a request to a query.

use crate::sanitize::{chars_of, sanitized_segments};
use crate::workspace::{
    sanitized_name, trimmed, WorkspaceName, WorkspacePath, WorkspaceQuery, WorkspaceVersion,
};
use vstd::prelude::*;
use vstd::string::StringExecFns;

verus! {

/// The revision of a request that names none.
pub open spec fn default_revision() -> Seq<char> {
    "latest"@
}

/// The reference that stands for the tip of the repository's current
/// branch.
pub open spec fn head_reference() -> Seq<char> {
    "HEAD"@
}

/// The revision that is looked up for the parameter of a request: the
/// parameter without blank space at its ends, with `latest` for a missing
/// parameter, and the head reference in place of `latest`.
pub open spec fn requested_revision(version: Option<Seq<char>>) -> Seq<char> {
    let written = match version {
        Some(v) => trimmed(v),
        None => default_revision(),
    };
    if written == default_revision() {
        head_reference()
    } else {
        written
    }
}

/// The raw path of a request: the parameter, and the empty text, which
/// stands for the root of the tree, for a missing one.
pub open spec fn requested_path(path: Option<Seq<char>>) -> Seq<char> {
    match path {
        Some(p) => p,
        None => Seq::<char>::empty(),
    }
}

/// Tells whether two texts are equal.
fn same_text(a: &str, b: &str) -> (r: bool)
    ensures
        r == (a@ == b@),
{
    let x = chars_of(a);
    let y = chars_of(b);
    if x.len() != y.len() {
        return false;
    }
    let mut i: usize = 0;
    while i < x.len()
        invariant
            i <= x.len(),
            x.len() == y.len(),
            x@ == a@,
            y@ == b@,
            forall|k: int| 0 <= k < i ==> x@[k] == y@[k],
        decreases x.len() - i,
    {
        if x[i] != y[i] {
            return false;
        }
        i = i + 1;
    }
    assert(x@ =~= y@);
    true
}

/// The query of a request for workspace `name`, with its optional
/// parameters `version` and `path`.
pub fn query_workspace(name: String, version: Option<String>, path: Option<String>) -> (query:
    WorkspaceQuery)
    ensures
        query.workspace_name@ == sanitized_name(name@),
        query.workspace_path@ == sanitized_segments(
            requested_path(
                match path {
                    Some(p) => Some(p@),
                    None => None,
                },
            ),
        ),
        query.workspace_version@ == requested_revision(
            match version {
                Some(v) => Some(v@),
                None => None,
            },
        ),
{
    let written = match version {
        Some(v) => WorkspaceVersion::new(v),
        None => {
            proof {
                lemma_default_is_trimmed();
            }
            WorkspaceVersion::new(String::from_str("latest"))
        },
    };
    let workspace_version = if same_text(written.as_str(), "latest") {
        proof {
            lemma_head_is_trimmed();
        }
        WorkspaceVersion::new(String::from_str("HEAD"))
    } else {
        written
    };
    let workspace_path = match path {
        Some(p) => WorkspacePath::new(p),
        None => WorkspacePath::new(String::new()),
    };
    WorkspaceQuery { workspace_name: WorkspaceName::new(name), workspace_path, workspace_version }
}

/// `latest` has no blank space at its ends.
proof fn lemma_default_is_trimmed()
    ensures
        trimmed("latest"@) == "latest"@,
{
    reveal_strlit("latest");
    let s = "latest"@;
    assert(s.len() == 6);
    assert(s.last() == 't');
    assert(s.first() == 'l');
}

/// `HEAD` has no blank space at its ends.
proof fn lemma_head_is_trimmed()
    ensures
        trimmed("HEAD"@) == "HEAD"@,
{
    reveal_strlit("HEAD");
    let s = "HEAD"@;
    assert(s.len() == 4);
    assert(s.last() == 'D');
    assert(s.first() == 'H');
}

} // verus!
