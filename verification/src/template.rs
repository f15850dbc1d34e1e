//! What the presentation layer is handed for an outcome: the name of a
//! template and the values to fill it with.

use crate::engine::outcome_view;
use crate::error::{append_quoted, message_text, quoted, Failure, QueryError};
use crate::scratch::{decimal, decimal_of};
use crate::text::string_of;
use crate::workspace::{texts, Found, WorkspaceQueryResult};
use vstd::prelude::*;
use vstd::string::StringExecFns;
use vstd::utf8::{decode_utf8, valid_utf8};

verus! {

/// The name of a template and its values, each under its key.
#[derive(Debug)]
pub struct Template {
    pub name: String,
    pub values: Vec<(String, String)>,
}

/// A template, as a mathematical value.
pub struct Rendering {
    pub name: Seq<char>,
    pub values: Seq<(Seq<char>, Seq<char>)>,
}

/// The views of keys and values.
pub open spec fn pairs(values: Seq<(String, String)>) -> Seq<(Seq<char>, Seq<char>)> {
    Seq::new(values.len(), |i: int| (values[i].0@, values[i].1@))
}

impl View for Template {
    type V = Rendering;

    open spec fn view(&self) -> Rendering {
        Rendering { name: self.name@, values: pairs(self.values@) }
    }
}

/// How the bytes of a file are shown: as quoted text where they are valid
/// UTF-8, and by their number where they are not.
pub open spec fn contents_text(contents: Seq<u8>) -> Seq<char> {
    if valid_utf8(contents) {
        quoted(decode_utf8(contents))
    } else {
        "<"@ + decimal(contents.len()) + " bytes of binary data>"@
    }
}

/// The items of a directory, each quoted, with a comma and a space between
/// neighbours.
pub open spec fn items_text(items: Seq<Seq<char>>) -> Seq<char>
    decreases items.len(),
{
    if items.len() == 0 {
        Seq::<char>::empty()
    } else if items.len() == 1 {
        quoted(items[0])
    } else {
        items_text(items.drop_last()) + ", "@ + quoted(items.last())
    }
}

/// What was found, as one line of text.
pub open spec fn summary_text(found: Found) -> Seq<char> {
    match found {
        Found::File { name, contents } => "name="@ + quoted(name) + " contents="@ + contents_text(
            contents,
        ),
        Found::Directory { name, items } => "name="@ + quoted(name) + " items=["@ + items_text(
            items,
        ) + "]"@,
    }
}

/// The template of an outcome: `found_file` or `found_directory` with the
/// summary of what was found, `error` with the failure's message; each with
/// the log.
pub open spec fn template_of(outcome: Result<Found, Failure>, logs: Seq<char>) -> Rendering {
    match outcome {
        Ok(found) => Rendering {
            name: if found is File {
                "found_file"@
            } else {
                "found_directory"@
            },
            values: seq![("logs"@, logs), ("workspace_query_result"@, summary_text(found))],
        },
        Err(failure) => Rendering {
            name: "error"@,
            values: seq![("logs"@, logs), ("error"@, message_text(failure))],
        },
    }
}

/// Trusted: `std::str::from_utf8`, which hands back the bytes as text where
/// they are valid UTF-8 and fails where they are not. The contract says so
/// in vstd's terms: validity is `valid_utf8`, and the text is `decode_utf8`
/// of the bytes.
#[verifier::external_body]
fn utf8_text(bytes: &Vec<u8>) -> (text: Option<&str>)
    ensures
        match text {
            Some(t) => valid_utf8(bytes@) && t@ == decode_utf8(bytes@),
            None => !valid_utf8(bytes@),
        },
{
    std::str::from_utf8(bytes.as_slice()).ok()
}

/// Appends the way in which the bytes of a file are shown.
fn append_contents(out: &mut String, contents: &Vec<u8>)
    ensures
        final(out)@ == old(out)@ + contents_text(contents@),
{
    match utf8_text(contents) {
        Some(text) => {
            append_quoted(out, text);
        },
        None => {
            let count = string_of(&decimal_of(contents.len() as u64));
            out.append("<");
            out.append(count.as_str());
            out.append(" bytes of binary data>");
            assert(final(out)@ =~= old(out)@ + contents_text(contents@));
        },
    }
}

/// Appends the items of a directory.
fn append_items(out: &mut String, items: &Vec<String>)
    ensures
        final(out)@ == old(out)@ + items_text(texts(items@)),
{
    let mut i: usize = 0;
    assert(texts(items@).take(0) =~= Seq::<Seq<char>>::empty());
    assert(out@ =~= old(out)@ + items_text(texts(items@).take(0)));
    while i < items.len()
        invariant
            i <= items.len(),
            out@ == old(out)@ + items_text(texts(items@).take(i as int)),
        decreases items.len() - i,
    {
        let ghost before = out@;
        let ghost next = texts(items@).take(i + 1);
        proof {
            assert(next.drop_last() =~= texts(items@).take(i as int));
            assert(next.last() == items@[i as int]@);
        }
        if i > 0 {
            out.append(", ");
        }
        append_quoted(out, items[i].as_str());
        proof {
            if i == 0 {
                assert(items_text(next) == quoted(items@[0]@));
                assert(before =~= old(out)@);
            } else {
                assert(out@ =~= old(out)@ + (items_text(next.drop_last()) + ", "@ + quoted(
                    next.last(),
                )));
            }
        }
        i = i + 1;
    }
    assert(texts(items@).take(i as int) =~= texts(items@));
}

/// What was found, as one line of text.
pub fn summary(found: &WorkspaceQueryResult) -> (line: String)
    ensures
        line@ == summary_text(found@),
{
    let mut out = String::from_str("name=");
    match found {
        WorkspaceQueryResult::File { name, contents } => {
            append_quoted(&mut out, name.as_str());
            out.append(" contents=");
            append_contents(&mut out, contents);
            assert(out@ =~= summary_text(found@));
        },
        WorkspaceQueryResult::Directory { name, items } => {
            append_quoted(&mut out, name.as_str());
            out.append(" items=[");
            append_items(&mut out, items);
            out.append("]");
            assert(out@ =~= summary_text(found@));
        },
    }
    out
}

impl Template {
    /// The template of an outcome, with the log of the query.
    pub fn for_outcome(outcome: &Result<WorkspaceQueryResult, QueryError>, logs: String) -> (t:
        Self)
        ensures
            t@ == template_of(outcome_view(*outcome), logs@),
    {
        let mut values: Vec<(String, String)> = Vec::new();
        values.push((String::from_str("logs"), logs));
        match outcome {
            Ok(found) => {
                values.push((String::from_str("workspace_query_result"), summary(found)));
                let name = match found {
                    WorkspaceQueryResult::File { .. } => String::from_str("found_file"),
                    WorkspaceQueryResult::Directory { .. } => String::from_str("found_directory"),
                };
                let t = Template { name, values };
                assert(t@.values =~= template_of(outcome_view(*outcome), logs@).values);
                t
            },
            Err(error) => {
                values.push((String::from_str("error"), error.message()));
                let t = Template { name: String::from_str("error"), values };
                assert(t@.values =~= template_of(outcome_view(*outcome), logs@).values);
                t
            },
        }
    }
}

} // verus!
