use workspace_query::error::{QueryError, QueryErrorKind};
use workspace_query::exit::{exit_status, ExitCode};
use workspace_query::template::{summary, Template};
use workspace_query::workspace::WorkspaceQueryResult;

fn pair(key: &str, value: &str) -> (String, String) {
    (key.to_string(), value.to_string())
}

#[test]
fn file_is_presented_with_its_text() {
    let outcome = Ok(WorkspaceQueryResult::File {
        name: "hello.txt".to_string(),
        contents: b"hi".to_vec(),
    });
    let t = Template::for_outcome(&outcome, "the log".to_string());
    assert_eq!(t.name, "found_file");
    assert_eq!(
        t.values,
        vec![
            pair("logs", "the log"),
            pair("workspace_query_result", "name=\"hello.txt\" contents=\"hi\""),
        ]
    );
}

#[test]
fn text_of_a_file_may_hold_any_character() {
    let found = WorkspaceQueryResult::File {
        name: "a/b.txt".to_string(),
        contents: "héllo → wörld".as_bytes().to_vec(),
    };
    assert_eq!(summary(&found), "name=\"a/b.txt\" contents=\"héllo → wörld\"");
    let empty = WorkspaceQueryResult::File { name: "e".to_string(), contents: vec![] };
    assert_eq!(summary(&empty), "name=\"e\" contents=\"\"");
}

#[test]
fn binary_file_is_presented_by_its_size() {
    let found = WorkspaceQueryResult::File {
        name: "blob.bin".to_string(),
        contents: vec![0xff, 0xfe, 0x00],
    };
    assert_eq!(summary(&found), "name=\"blob.bin\" contents=<3 bytes of binary data>");
    let long = WorkspaceQueryResult::File { name: "x".to_string(), contents: vec![0x80; 1234] };
    assert_eq!(summary(&long), "name=\"x\" contents=<1234 bytes of binary data>");
}

#[test]
fn directory_is_presented_with_its_items() {
    let outcome = Ok(WorkspaceQueryResult::Directory {
        name: "guide".to_string(),
        items: vec!["guide/api".to_string(), "guide/intro.md".to_string()],
    });
    let t = Template::for_outcome(&outcome, String::new());
    assert_eq!(t.name, "found_directory");
    assert_eq!(
        t.values,
        vec![
            pair("logs", ""),
            pair(
                "workspace_query_result",
                "name=\"guide\" items=[\"guide/api\", \"guide/intro.md\"]"
            ),
        ]
    );
}

#[test]
fn directory_without_items_is_presented_with_none() {
    let one = WorkspaceQueryResult::Directory {
        name: "".to_string(),
        items: vec!["a".to_string()],
    };
    assert_eq!(summary(&one), "name=\"\" items=[\"a\"]");
    let none = WorkspaceQueryResult::Directory { name: "d".to_string(), items: vec![] };
    assert_eq!(summary(&none), "name=\"d\" items=[]");
}

#[test]
fn failure_is_presented_with_its_message() {
    let outcome = Err(QueryError {
        kind: QueryErrorKind::RevisionNotFound,
        workspace: "docs".to_string(),
        revision: "v9".to_string(),
        path: "".to_string(),
        detail: "code=NotFound".to_string(),
    });
    let t = Template::for_outcome(&outcome, "log".to_string());
    assert_eq!(t.name, "error");
    assert_eq!(
        t.values,
        vec![
            pair("logs", "log"),
            pair("error", "version \"v9\" does not exist in workspace \"docs\""),
        ]
    );
}

#[test]
fn exit_codes_are_zero_and_one() {
    assert_eq!(exit_status(ExitCode::Success), 0);
    assert_eq!(exit_status(ExitCode::Failure), 1);
    assert_eq!(i32::from(ExitCode::Success), 0);
    assert_eq!(i32::from(ExitCode::Failure), 1);
}
