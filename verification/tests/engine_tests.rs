use workspace_query::engine::{commit_prefix, Action, Engine, Event, Fault, Finished, NodeKind};
use workspace_query::error::{QueryError, QueryErrorKind};
use workspace_query::listing::{list_items, precedes, sort_texts};
use workspace_query::request::query_workspace;
use workspace_query::workspace::{WorkspacePath, WorkspaceQueryResult};

const COMMIT: &str = "1f2e3d4c5b6a79880123456789abcdef01234567";

fn query(name: &str, revision: &str, path: &str) -> Engine {
    let q = query_workspace(
        name.to_string(),
        Some(revision.to_string()),
        Some(path.to_string()),
    );
    Engine::start_with(q, 42)
}

fn through_checkout(engine: &mut Engine) {
    assert_eq!(engine.pending(), Action::OpenRepository);
    assert_eq!(engine.step(Event::Opened), Action::CheckHistory);
    assert_eq!(engine.step(Event::HistoryChecked { empty: false }), Action::ResolveReference);
    assert_eq!(engine.step(Event::ReferenceFound), Action::PeelReference);
    assert_eq!(
        engine.step(Event::ReferencePeeled { commit: COMMIT.to_string() }),
        Action::CreateScratch
    );
    assert_eq!(engine.step(Event::ScratchCreated), Action::CheckoutTree);
    assert_eq!(engine.step(Event::TreeCheckedOut), Action::InspectPath);
}

fn failed(fault: Fault) -> Event {
    Event::Failed { fault, detail: "the storage said so".to_string() }
}

fn failure(done: Finished) -> QueryError {
    match done.result {
        Err(error) => error,
        Ok(found) => panic!("expected a failure, found {:?}", found),
    }
}

fn chars(s: &str) -> Vec<char> {
    s.chars().collect()
}

#[test]
fn file_at_the_root_is_read_back() {
    let mut engine = query("docs", "main", "hello.txt");
    through_checkout(&mut engine);
    assert_eq!(engine.step(Event::NodeFound { kind: NodeKind::File }), Action::ReadFile);
    assert_eq!(engine.step(Event::FileRead { contents: b"hi".to_vec() }), Action::Finish);
    let done = engine.finish().unwrap();
    assert_eq!(
        done.result.unwrap(),
        WorkspaceQueryResult::File { name: "hello.txt".to_string(), contents: b"hi".to_vec() }
    );
    assert_eq!(done.release, Some("42".to_string()));
}

#[test]
fn file_contents_need_not_be_text() {
    let mut engine = query("docs", "main", "blob.bin");
    through_checkout(&mut engine);
    engine.step(Event::NodeFound { kind: NodeKind::File });
    engine.step(Event::FileRead { contents: vec![0, 159, 146, 150, 255] });
    assert_eq!(
        engine.finish().unwrap().result.unwrap(),
        WorkspaceQueryResult::File {
            name: "blob.bin".to_string(),
            contents: vec![0, 159, 146, 150, 255]
        }
    );
}

#[test]
fn directory_lists_what_lies_below_it() {
    let mut engine = query("docs", "main", "guide");
    through_checkout(&mut engine);
    assert_eq!(
        engine.step(Event::NodeFound { kind: NodeKind::Directory }),
        Action::WalkDirectory
    );
    let entries = vec!["".to_string(), "intro.md".to_string()];
    assert_eq!(engine.step(Event::DirectoryWalked { entries }), Action::Finish);
    assert_eq!(
        engine.finish().unwrap().result.unwrap(),
        WorkspaceQueryResult::Directory {
            name: "guide".to_string(),
            items: vec!["guide/intro.md".to_string()]
        }
    );
}

#[test]
fn root_lists_the_whole_tree_in_walk_order() {
    let mut engine = query("docs", "main", "");
    through_checkout(&mut engine);
    engine.step(Event::NodeFound { kind: NodeKind::Directory });
    let entries = vec![
        "hello.txt".to_string(),
        "guide/intro.md".to_string(),
        "guide-old".to_string(),
        "".to_string(),
        "guide".to_string(),
        "guide/api/index.md".to_string(),
        "guide/api".to_string(),
    ];
    engine.step(Event::DirectoryWalked { entries });
    assert_eq!(
        engine.finish().unwrap().result.unwrap(),
        WorkspaceQueryResult::Directory {
            name: "".to_string(),
            items: vec![
                "guide".to_string(),
                "guide/api".to_string(),
                "guide/api/index.md".to_string(),
                "guide/intro.md".to_string(),
                "guide-old".to_string(),
                "hello.txt".to_string(),
            ]
        }
    );
}

#[test]
fn root_lists_entries_as_the_walk_found_them() {
    let mut engine = query("docs", "main", "/");
    through_checkout(&mut engine);
    engine.step(Event::NodeFound { kind: NodeKind::Directory });
    let entries = vec![
        "a/b".to_string(),
        "a\\b".to_string(),
        "a".to_string(),
        "".to_string(),
        "notes (old).txt".to_string(),
    ];
    engine.step(Event::DirectoryWalked { entries });
    assert_eq!(
        engine.finish().unwrap().result.unwrap(),
        WorkspaceQueryResult::Directory {
            name: "".to_string(),
            items: vec![
                "a".to_string(),
                "a/b".to_string(),
                "a\\b".to_string(),
                "notes (old).txt".to_string(),
            ]
        }
    );
}

#[test]
fn unknown_revision_is_not_found() {
    let mut engine = query("docs", "does-not-exist-ref", "");
    engine.step(Event::Opened);
    engine.step(Event::HistoryChecked { empty: false });
    assert_eq!(engine.step(failed(Fault::NotFound)), Action::Finish);
    let done = engine.finish().unwrap();
    assert_eq!(done.release, None);
    let error = failure(done);
    assert_eq!(error.kind, QueryErrorKind::RevisionNotFound);
    assert_eq!(error.revision, "does-not-exist-ref");
    assert_eq!(error.workspace, "docs");
}

#[test]
fn revision_that_can_be_a_commit_is_looked_up_by_prefix() {
    let mut engine = query("docs", "1f2e3d4", "");
    engine.step(Event::Opened);
    engine.step(Event::HistoryChecked { empty: false });
    assert_eq!(
        engine.step(failed(Fault::NotFound)),
        Action::FindCommitByPrefix
    );
    assert_eq!(
        engine.step(Event::CommitFound { commit: COMMIT.to_string() }),
        Action::CreateScratch
    );
    assert_eq!(engine.snapshot(), Some(COMMIT));
}

#[test]
fn prefix_of_no_commit_or_of_several_is_not_found() {
    for fault in [Fault::NotFound, Fault::Ambiguous] {
        let mut engine = query("docs", "abcd", "");
        engine.step(Event::Opened);
        engine.step(Event::HistoryChecked { empty: false });
        engine.step(failed(Fault::NotFound));
        assert_eq!(engine.step(failed(fault)), Action::Finish);
        assert_eq!(failure(engine.finish().unwrap()).kind, QueryErrorKind::RevisionNotFound);
    }
}

#[test]
fn storage_failure_during_prefix_lookup_is_internal() {
    let mut engine = query("docs", "abcd", "");
    engine.step(Event::Opened);
    engine.step(Event::HistoryChecked { empty: false });
    engine.step(failed(Fault::Other));
    assert_eq!(engine.pending(), Action::FindCommitByPrefix);
    engine.step(failed(Fault::Other));
    assert_eq!(failure(engine.finish().unwrap()).kind, QueryErrorKind::InternalError);
}

#[test]
fn branch_wins_over_commit_prefix() {
    let mut engine = query("docs", "abcd", "");
    engine.step(Event::Opened);
    engine.step(Event::HistoryChecked { empty: false });
    assert_eq!(engine.step(Event::ReferenceFound), Action::PeelReference);
    assert_eq!(
        engine.step(Event::ReferencePeeled { commit: COMMIT.to_string() }),
        Action::CreateScratch
    );
    assert_eq!(engine.snapshot(), Some(COMMIT));
}

#[test]
fn dangling_reference_falls_back_to_the_prefix_lookup() {
    let mut engine = query("docs", "abcd", "");
    engine.step(Event::Opened);
    engine.step(Event::HistoryChecked { empty: false });
    engine.step(Event::ReferenceFound);
    assert_eq!(
        engine.step(failed(Fault::NotFound)),
        Action::FindCommitByPrefix
    );
    let mut engine = query("docs", "main", "");
    engine.step(Event::Opened);
    engine.step(Event::HistoryChecked { empty: false });
    engine.step(Event::ReferenceFound);
    assert_eq!(engine.step(failed(Fault::Other)), Action::Finish);
    assert_eq!(failure(engine.finish().unwrap()).kind, QueryErrorKind::RevisionNotFound);
}

#[test]
fn repository_without_commits_is_an_empty_workspace() {
    let mut engine = query("docs", "main", "");
    engine.step(Event::Opened);
    assert_eq!(engine.step(Event::HistoryChecked { empty: true }), Action::Finish);
    let done = engine.finish().unwrap();
    assert_eq!(done.release, None);
    assert_eq!(failure(done).kind, QueryErrorKind::EmptyWorkspace);
}

#[test]
fn unborn_fault_is_an_empty_workspace_at_every_stage() {
    let mut engine = query("docs", "abcd", "");
    engine.step(Event::Opened);
    engine.step(failed(Fault::Unborn));
    assert_eq!(failure(engine.finish().unwrap()).kind, QueryErrorKind::EmptyWorkspace);

    let mut engine = query("docs", "abcd", "");
    engine.step(Event::Opened);
    engine.step(Event::HistoryChecked { empty: false });
    engine.step(failed(Fault::Unborn));
    assert_eq!(failure(engine.finish().unwrap()).kind, QueryErrorKind::EmptyWorkspace);

    let mut engine = query("docs", "abcd", "");
    engine.step(Event::Opened);
    engine.step(Event::HistoryChecked { empty: false });
    engine.step(Event::ReferenceFound);
    engine.step(failed(Fault::Unborn));
    assert_eq!(failure(engine.finish().unwrap()).kind, QueryErrorKind::EmptyWorkspace);

    let mut engine = query("docs", "abcd", "");
    engine.step(Event::Opened);
    engine.step(Event::HistoryChecked { empty: false });
    engine.step(failed(Fault::NotFound));
    engine.step(failed(Fault::Unborn));
    assert_eq!(failure(engine.finish().unwrap()).kind, QueryErrorKind::EmptyWorkspace);

    let mut engine = query("docs", "main", "");
    engine.step(Event::Opened);
    engine.step(Event::HistoryChecked { empty: false });
    engine.step(Event::ReferenceFound);
    engine.step(Event::ReferencePeeled { commit: COMMIT.to_string() });
    engine.step(Event::ScratchCreated);
    engine.step(failed(Fault::Unborn));
    let done = engine.finish().unwrap();
    assert_eq!(done.release, Some("42".to_string()));
    assert_eq!(failure(done).kind, QueryErrorKind::EmptyWorkspace);
}

#[test]
fn traversal_ends_at_a_harmless_path() {
    let mut engine = query("docs", "main", "../../secret");
    through_checkout(&mut engine);
    assert_eq!(engine.query().workspace_path.as_str(), "secret");
    assert_eq!(engine.step(Event::NodeFound { kind: NodeKind::Missing }), Action::Finish);
    let done = engine.finish().unwrap();
    assert_eq!(done.release, Some("42".to_string()));
    let error = failure(done);
    assert_eq!(error.kind, QueryErrorKind::PathNotFound);
    assert_eq!(error.path, "secret");
    assert_eq!(
        error.message(),
        "path \"secret\" does not exist in workspace \"docs\" and version \"main\""
    );
}

#[test]
fn missing_repository_is_a_workspace_not_found() {
    let mut engine = query("nowhere", "main", "");
    assert_eq!(engine.step(failed(Fault::NotFound)), Action::Finish);
    let done = engine.finish().unwrap();
    assert_eq!(done.release, None);
    let error = failure(done);
    assert_eq!(error.kind, QueryErrorKind::WorkspaceNotFound);
    assert_eq!(error.detail, "the storage said so");
    assert_eq!(error.message(), "workspace \"nowhere\" does not exist or cannot be opened");
}

#[test]
fn storage_failures_are_internal_errors() {
    let mut engine = query("docs", "main", "a");
    engine.step(Event::Opened);
    engine.step(failed(Fault::Other));
    assert_eq!(failure(engine.finish().unwrap()).kind, QueryErrorKind::InternalError);

    let mut engine = query("docs", "main", "a");
    engine.step(Event::Opened);
    engine.step(Event::HistoryChecked { empty: false });
    engine.step(Event::ReferenceFound);
    engine.step(Event::ReferencePeeled { commit: COMMIT.to_string() });
    assert_eq!(engine.step(failed(Fault::Other)), Action::Finish);
    let done = engine.finish().unwrap();
    assert_eq!(done.release, Some("42".to_string()));
    assert_eq!(failure(done).kind, QueryErrorKind::InternalError);

    let mut engine = query("docs", "main", "a");
    through_checkout(&mut engine);
    engine.step(Event::NodeFound { kind: NodeKind::File });
    engine.step(failed(Fault::Other));
    assert_eq!(failure(engine.finish().unwrap()).kind, QueryErrorKind::InternalError);

    let mut engine = query("docs", "main", "a");
    through_checkout(&mut engine);
    engine.step(Event::NodeFound { kind: NodeKind::Directory });
    engine.step(failed(Fault::Other));
    assert_eq!(failure(engine.finish().unwrap()).kind, QueryErrorKind::InternalError);

    let mut engine = query("docs", "main", "a");
    through_checkout(&mut engine);
    engine.step(Event::NodeFound { kind: NodeKind::Other });
    assert_eq!(failure(engine.finish().unwrap()).kind, QueryErrorKind::InternalError);
}

#[test]
fn scratch_directory_that_cannot_be_made_is_an_internal_error() {
    let mut engine = query("docs", "main", "a");
    engine.step(Event::Opened);
    engine.step(Event::HistoryChecked { empty: false });
    engine.step(Event::ReferenceFound);
    engine.step(Event::ReferencePeeled { commit: COMMIT.to_string() });
    assert_eq!(
        engine.step(Event::Failed { fault: Fault::Other, detail: "disk full".to_string() }),
        Action::Finish
    );
    let done = engine.finish().unwrap();
    assert_eq!(done.release, Some("42".to_string()));
    let error = failure(done);
    assert_eq!(error.kind, QueryErrorKind::InternalError);
    assert_eq!(error.detail, "disk full");
    assert_eq!(error.message(), "internal error");
}

#[test]
fn inspection_that_finds_nothing_is_a_path_not_found() {
    let mut engine = query("docs", "main", "a");
    through_checkout(&mut engine);
    engine.step(failed(Fault::NotFound));
    assert_eq!(failure(engine.finish().unwrap()).kind, QueryErrorKind::PathNotFound);
}

#[test]
fn event_that_answers_another_action_is_an_internal_error() {
    let mut engine = query("docs", "main", "a");
    assert_eq!(engine.step(Event::TreeCheckedOut), Action::Finish);
    let error = failure(engine.finish().unwrap());
    assert_eq!(error.kind, QueryErrorKind::InternalError);
    assert_eq!(error.detail, "");
}

#[test]
fn finished_query_ignores_events() {
    let mut engine = query("docs", "main", "a");
    engine.step(Event::Opened);
    engine.step(Event::HistoryChecked { empty: true });
    assert_eq!(engine.step(Event::Opened), Action::Finish);
    assert_eq!(engine.step(Event::FileRead { contents: vec![1] }), Action::Finish);
    assert_eq!(failure(engine.finish().unwrap()).kind, QueryErrorKind::EmptyWorkspace);
}

#[test]
fn unfinished_query_has_no_outcome() {
    let mut engine = query("docs", "main", "a");
    engine.step(Event::Opened);
    assert!(engine.finish().is_none());
}

#[test]
fn same_query_twice_gives_the_same_outcome() {
    let q1 = query_workspace("docs".to_string(), Some("main".to_string()), Some("guide".to_string()));
    let q2 = query_workspace("docs".to_string(), Some("main".to_string()), Some("guide".to_string()));
    let mut first = Engine::start_with(q1, 1);
    let mut second = Engine::start_with(q2, 2);
    through_checkout(&mut first);
    through_checkout(&mut second);
    first.step(Event::NodeFound { kind: NodeKind::Directory });
    second.step(Event::NodeFound { kind: NodeKind::Directory });
    first.step(Event::DirectoryWalked {
        entries: vec!["b.md".to_string(), "a".to_string(), "a/x.md".to_string()],
    });
    second.step(Event::DirectoryWalked {
        entries: vec!["a/x.md".to_string(), "b.md".to_string(), "a".to_string()],
    });
    let first = first.finish().unwrap();
    let second = second.finish().unwrap();
    assert_eq!(first.result.unwrap(), second.result.unwrap());
    assert_eq!(first.release, Some("1".to_string()));
    assert_eq!(second.release, Some("2".to_string()));
}

#[test]
fn replay_takes_recorded_events() {
    let mut engine = query("docs", "main", "hello.txt");
    let action = engine.replay(vec![
        Event::Opened,
        Event::HistoryChecked { empty: false },
        Event::ReferenceFound,
        Event::ReferencePeeled { commit: COMMIT.to_string() },
        Event::ScratchCreated,
        Event::TreeCheckedOut,
        Event::NodeFound { kind: NodeKind::File },
    ]);
    assert_eq!(action, Action::ReadFile);
    assert_eq!(engine.replay(vec![]), Action::ReadFile);
    assert_eq!(engine.scratch(), "42");
    assert_eq!(engine.snapshot(), Some(COMMIT));
}

#[test]
fn started_query_has_a_random_scratch_directory() {
    let q = query_workspace("docs".to_string(), None, None);
    let engine = Engine::start(q);
    assert_eq!(engine.pending(), Action::OpenRepository);
    assert!(engine.scratch().chars().all(|c| c.is_ascii_digit()));
    assert!(!engine.scratch().is_empty());
    assert_eq!(engine.snapshot(), None);
}

#[test]
fn commit_prefix_is_four_to_forty_hex_digits() {
    assert!(commit_prefix("abcd"));
    assert!(commit_prefix("ABCDEF0123"));
    assert!(commit_prefix(COMMIT));
    assert!(!commit_prefix("abc"));
    assert!(!commit_prefix(""));
    assert!(!commit_prefix("abcg"));
    assert!(!commit_prefix("does-not-exist-ref"));
    assert!(!commit_prefix("1f2e3d4c5b6a79880123456789abcdef012345678"));
}

#[test]
fn messages_name_the_inputs() {
    let error = |kind| QueryError {
        kind,
        workspace: "docs".to_string(),
        revision: "main".to_string(),
        path: "a/b".to_string(),
        detail: "code=-3".to_string(),
    };
    assert_eq!(
        error(QueryErrorKind::WorkspaceNotFound).message(),
        "workspace \"docs\" does not exist or cannot be opened"
    );
    assert_eq!(
        error(QueryErrorKind::EmptyWorkspace).message(),
        "workspace \"docs\" has no commits yet"
    );
    assert_eq!(
        error(QueryErrorKind::RevisionNotFound).message(),
        "version \"main\" does not exist in workspace \"docs\""
    );
    assert_eq!(
        error(QueryErrorKind::PathNotFound).message(),
        "path \"a/b\" does not exist in workspace \"docs\" and version \"main\""
    );
    assert_eq!(error(QueryErrorKind::InternalError).message(), "internal error");
}

#[test]
fn directory_comes_before_its_entries_and_before_longer_names() {
    assert!(precedes(&chars("a"), &chars("a/b")));
    assert!(precedes(&chars("a/b"), &chars("a-b")));
    assert!(!precedes(&chars("a-b"), &chars("a/b")));
    assert!(precedes(&chars("a/b"), &chars("a/b")));
    assert!(precedes(&chars(""), &chars("a")));
    assert!(!precedes(&chars("b"), &chars("a")));
    assert!(precedes(&chars("a/z"), &chars("a.txt")));
}

#[test]
fn sorting_keeps_every_entry() {
    let sorted = sort_texts(vec![chars("b"), chars("a/b"), chars("a"), chars("b"), chars("a-b")]);
    assert_eq!(sorted, vec![chars("a"), chars("a/b"), chars("a-b"), chars("b"), chars("b")]);
    assert_eq!(sort_texts(vec![]), Vec::<Vec<char>>::new());
}

#[test]
fn listing_sanitises_and_prefixes_entries() {
    let base = WorkspacePath::new("src".to_string());
    let items = list_items(
        &base,
        &vec![
            "".to_string(),
            "lib.rs".to_string(),
            "./bin/main.rs".to_string(),
            "../escape".to_string(),
            "bin".to_string(),
        ],
    );
    assert_eq!(items, vec!["src/bin", "src/bin/main.rs", "src/escape", "src/lib.rs"]);
    let items = list_items(&base, &vec!["a\\b".to_string(), "a/b".to_string()]);
    assert_eq!(items, vec!["src/a/b", "src/a\\b"]);
    let root = WorkspacePath::new(String::new());
    assert_eq!(list_items(&root, &vec![]), Vec::<String>::new());
    assert_eq!(list_items(&root, &vec!["x".to_string()]), vec!["x"]);
}
