//! The query engine: what to do next, given what the repository and the
//! file system answered so far.
//!
//! The engine does no work on the outside itself. It names the next action;
//! the caller performs it and hands back what happened as an event. One query
//! is one engine, from `OpenRepository` to `Finish`.

use crate::error::{Failure, QueryError, QueryErrorKind};
use crate::listing::{list_items, listing};
use crate::sanitize::{chars_of, is_safe_segment, join};
use crate::scratch::{fresh_scratch_name, scratch_name, scratch_name_of};
use crate::workspace::{texts, Found, WorkspaceQuery, WorkspaceQueryResult};
use vstd::prelude::*;
use vstd::string::StringExecFns;

verus! {

/// Why an action on the outside failed.
#[derive(Clone, Copy, Debug, PartialEq, Eq, Structural)]
pub enum Fault {
    /// The repository holds no commit yet.
    Unborn,
    /// What was looked for does not exist.
    NotFound,
    /// More than one thing answers to what was looked for.
    Ambiguous,
    /// Any other failure of the storage.
    Other,
}

/// What lies at a place in the checked-out tree.
#[derive(Clone, Copy, Debug, PartialEq, Eq, Structural)]
pub enum NodeKind {
    Missing,
    File,
    Directory,
    Other,
}

/// The work on the outside that the engine asks for.
#[derive(Clone, Copy, Debug, PartialEq, Eq, Structural)]
pub enum Action {
    /// Open the repository of the query's workspace.
    OpenRepository,
    /// Find out whether the repository holds any commit.
    CheckHistory,
    /// Look the revision up as the short name of a branch or tag.
    ResolveReference,
    /// Follow the reference that was found to the commit it designates.
    PeelReference,
    /// Look the revision up as the prefix of a commit's identifier.
    FindCommitByPrefix,
    /// Create the scratch directory.
    CreateScratch,
    /// Check the snapshot's tree out into the scratch directory.
    CheckoutTree,
    /// Find out what lies at the query's path below the scratch directory.
    InspectPath,
    /// Read the file at the query's path.
    ReadFile,
    /// Walk the directory at the query's path and collect what lies below.
    WalkDirectory,
    /// Nothing more: the outcome is ready.
    Finish,
}

/// What happened when the action that the engine asked for was performed.
#[derive(Debug)]
pub enum Event {
    Opened,
    HistoryChecked { empty: bool },
    ReferenceFound,
    ReferencePeeled { commit: String },
    CommitFound { commit: String },
    ScratchCreated,
    TreeCheckedOut,
    NodeFound { kind: NodeKind },
    FileRead { contents: Vec<u8> },
    /// The entries below the directory, each relative to it, in any order.
    DirectoryWalked { entries: Vec<String> },
    /// The action failed; `detail` is what the storage said, for the log.
    Failed { fault: Fault, detail: String },
}

/// An event, as a mathematical value.
pub enum Signal {
    Opened,
    HistoryChecked { empty: bool },
    ReferenceFound,
    ReferencePeeled { commit: Seq<char> },
    CommitFound { commit: Seq<char> },
    ScratchCreated,
    TreeCheckedOut,
    NodeFound { kind: NodeKind },
    FileRead { contents: Seq<u8> },
    DirectoryWalked { entries: Seq<Seq<char>> },
    Failed { fault: Fault, detail: Seq<char> },
}

impl View for Event {
    type V = Signal;

    open spec fn view(&self) -> Signal {
        match self {
            Event::Opened => Signal::Opened,
            Event::HistoryChecked { empty } => Signal::HistoryChecked { empty: *empty },
            Event::ReferenceFound => Signal::ReferenceFound,
            Event::ReferencePeeled { commit } => Signal::ReferencePeeled { commit: commit@ },
            Event::CommitFound { commit } => Signal::CommitFound { commit: commit@ },
            Event::ScratchCreated => Signal::ScratchCreated,
            Event::TreeCheckedOut => Signal::TreeCheckedOut,
            Event::NodeFound { kind } => Signal::NodeFound { kind: *kind },
            Event::FileRead { contents } => Signal::FileRead { contents: contents@ },
            Event::DirectoryWalked { entries } => Signal::DirectoryWalked {
                entries: texts(entries@),
            },
            Event::Failed { fault, detail } => Signal::Failed { fault: *fault, detail: detail@ },
        }
    }
}

/// How far a query has come, as a mathematical value.
pub struct Progress {
    /// The sanitised name of the workspace.
    pub workspace: Seq<char>,
    /// The segments of the sanitised path.
    pub path: Seq<Seq<char>>,
    /// The revision asked for.
    pub revision: Seq<char>,
    /// The name of the query's scratch directory.
    pub scratch: Seq<char>,
    /// The action whose event the engine waits for.
    pub pending: Action,
    /// The commit that the revision was resolved to.
    pub snapshot: Option<Seq<char>>,
    /// Whether the scratch directory was asked for, and so has to be
    /// released.
    pub scratch_claimed: bool,
    /// The outcome, once there is one.
    pub outcome: Option<Result<Found, Failure>>,
}

/// A hexadecimal digit, in either case.
pub open spec fn is_hex(c: char) -> bool {
    ('0' <= c && c <= '9') || ('a' <= c && c <= 'f') || ('A' <= c && c <= 'F')
}

/// Whether `revision` can be the abbreviated identifier of a commit: four to
/// forty hexadecimal digits.
pub open spec fn is_commit_prefix(revision: Seq<char>) -> bool {
    &&& 4 <= revision.len() <= 40
    &&& forall|i: int| 0 <= i < revision.len() ==> is_hex(#[trigger] revision[i])
}

/// The query at its start: nothing resolved, nothing claimed, the engine
/// waiting for the repository to be opened.
pub open spec fn initial(
    workspace: Seq<char>,
    path: Seq<Seq<char>>,
    revision: Seq<char>,
    scratch: Seq<char>,
) -> Progress {
    Progress {
        workspace,
        path,
        revision,
        scratch,
        pending: Action::OpenRepository,
        snapshot: None,
        scratch_claimed: false,
        outcome: None,
    }
}

/// The query, failed in the given way. The failure carries the query's
/// sanitised inputs and the detail that came with the event, if any.
pub open spec fn failed_with(s: Progress, kind: QueryErrorKind, detail: Seq<char>) -> Progress {
    Progress {
        pending: Action::Finish,
        outcome: Some(
            Err(
                Failure {
                    kind,
                    workspace: s.workspace,
                    revision: s.revision,
                    path: join(s.path),
                    detail,
                },
            ),
        ),
        ..s
    }
}

/// The query, failed in the given way, with no detail from the storage.
pub open spec fn failed(s: Progress, kind: QueryErrorKind) -> Progress {
    failed_with(s, kind, Seq::<char>::empty())
}

/// The query, answered.
pub open spec fn answered(s: Progress, found: Found) -> Progress {
    Progress { pending: Action::Finish, outcome: Some(Ok(found)), ..s }
}

/// The query, waiting for `action`. To ask for the scratch directory is to
/// claim it.
pub open spec fn asking(s: Progress, action: Action) -> Progress {
    Progress {
        pending: action,
        scratch_claimed: s.scratch_claimed || action == Action::CreateScratch,
        ..s
    }
}

/// The query, resolved to `commit` and asking for its scratch directory.
pub open spec fn resolved(s: Progress, commit: Seq<char>) -> Progress {
    asking(Progress { snapshot: Some(commit), ..s }, Action::CreateScratch)
}

/// After the revision was not found as a reference: look it up as the prefix
/// of a commit's identifier where it can be one, and give up where it cannot.
pub open spec fn after_reference_missed(s: Progress, detail: Seq<char>) -> Progress {
    if is_commit_prefix(s.revision) {
        asking(s, Action::FindCommitByPrefix)
    } else {
        failed_with(s, QueryErrorKind::RevisionNotFound, detail)
    }
}

/// The kind of failure that a fault of the storage amounts to, where the
/// stage gives it no meaning of its own: an unborn repository is an empty
/// workspace, anything else an internal error.
pub open spec fn fault_kind(fault: Fault) -> QueryErrorKind {
    if fault == Fault::Unborn {
        QueryErrorKind::EmptyWorkspace
    } else {
        QueryErrorKind::InternalError
    }
}

/// The next state of a query, from its state and the event that came in.
///
/// An event that does not answer the pending action is an internal error. A
/// finished query ignores every event.
pub open spec fn advance(s: Progress, e: Signal) -> Progress {
    match s.pending {
        Action::Finish => s,
        Action::OpenRepository => match e {
            Signal::Opened => asking(s, Action::CheckHistory),
            Signal::Failed { detail, .. } => failed_with(
                s,
                QueryErrorKind::WorkspaceNotFound,
                detail,
            ),
            _ => failed(s, QueryErrorKind::InternalError),
        },
        Action::CheckHistory => match e {
            Signal::HistoryChecked { empty } => if empty {
                failed(s, QueryErrorKind::EmptyWorkspace)
            } else {
                asking(s, Action::ResolveReference)
            },
            Signal::Failed { fault, detail } => failed_with(s, fault_kind(fault), detail),
            _ => failed(s, QueryErrorKind::InternalError),
        },
        Action::ResolveReference => match e {
            Signal::ReferenceFound => asking(s, Action::PeelReference),
            Signal::Failed { fault, detail } => if fault == Fault::Unborn {
                failed_with(s, QueryErrorKind::EmptyWorkspace, detail)
            } else {
                after_reference_missed(s, detail)
            },
            _ => failed(s, QueryErrorKind::InternalError),
        },
        Action::PeelReference => match e {
            Signal::ReferencePeeled { commit } => resolved(s, commit),
            Signal::Failed { fault, detail } => if fault == Fault::Unborn {
                failed_with(s, QueryErrorKind::EmptyWorkspace, detail)
            } else {
                after_reference_missed(s, detail)
            },
            _ => failed(s, QueryErrorKind::InternalError),
        },
        Action::FindCommitByPrefix => match e {
            Signal::CommitFound { commit } => resolved(s, commit),
            Signal::Failed { fault, detail } => match fault {
                Fault::Unborn => failed_with(s, QueryErrorKind::EmptyWorkspace, detail),
                Fault::NotFound => failed_with(s, QueryErrorKind::RevisionNotFound, detail),
                Fault::Ambiguous => failed_with(s, QueryErrorKind::RevisionNotFound, detail),
                Fault::Other => failed_with(s, QueryErrorKind::InternalError, detail),
            },
            _ => failed(s, QueryErrorKind::InternalError),
        },
        Action::CreateScratch => match e {
            Signal::ScratchCreated => asking(s, Action::CheckoutTree),
            Signal::Failed { detail, .. } => failed_with(
                s,
                QueryErrorKind::InternalError,
                detail,
            ),
            _ => failed(s, QueryErrorKind::InternalError),
        },
        Action::CheckoutTree => match e {
            Signal::TreeCheckedOut => asking(s, Action::InspectPath),
            Signal::Failed { fault, detail } => failed_with(s, fault_kind(fault), detail),
            _ => failed(s, QueryErrorKind::InternalError),
        },
        Action::InspectPath => match e {
            Signal::NodeFound { kind } => match kind {
                NodeKind::Missing => failed(s, QueryErrorKind::PathNotFound),
                NodeKind::File => asking(s, Action::ReadFile),
                NodeKind::Directory => asking(s, Action::WalkDirectory),
                NodeKind::Other => failed(s, QueryErrorKind::InternalError),
            },
            Signal::Failed { fault, detail } => if fault == Fault::NotFound {
                failed_with(s, QueryErrorKind::PathNotFound, detail)
            } else {
                failed_with(s, QueryErrorKind::InternalError, detail)
            },
            _ => failed(s, QueryErrorKind::InternalError),
        },
        Action::ReadFile => match e {
            Signal::FileRead { contents } => answered(
                s,
                Found::File { name: join(s.path), contents },
            ),
            Signal::Failed { detail, .. } => failed_with(
                s,
                QueryErrorKind::InternalError,
                detail,
            ),
            _ => failed(s, QueryErrorKind::InternalError),
        },
        Action::WalkDirectory => match e {
            Signal::DirectoryWalked { entries } => answered(
                s,
                Found::Directory { name: join(s.path), items: listing(s.path, entries) },
            ),
            Signal::Failed { detail, .. } => failed_with(
                s,
                QueryErrorKind::InternalError,
                detail,
            ),
            _ => failed(s, QueryErrorKind::InternalError),
        },
    }
}

/// The state of a query after the events of `events` came in, one after the
/// other.
pub open spec fn run(s: Progress, events: Seq<Signal>) -> Progress
    decreases events.len(),
{
    if events.len() == 0 {
        s
    } else {
        run(advance(s, events.first()), events.drop_first())
    }
}

/// The views of a vector of events.
pub open spec fn signals(events: Seq<Event>) -> Seq<Signal> {
    Seq::new(events.len(), |i: int| events[i]@)
}

/// The view of an outcome.
pub open spec fn outcome_view(r: Result<WorkspaceQueryResult, QueryError>) -> Result<
    Found,
    Failure,
> {
    match r {
        Ok(found) => Ok(found@),
        Err(error) => Err(error@),
    }
}

/// Tells whether `c` is a hexadecimal digit.
fn hex(c: char) -> (r: bool)
    ensures
        r == is_hex(c),
{
    ('0' <= c && c <= '9') || ('a' <= c && c <= 'f') || ('A' <= c && c <= 'F')
}

/// Tells whether `revision` can be the abbreviated identifier of a commit.
pub fn commit_prefix(revision: &str) -> (r: bool)
    ensures
        r == is_commit_prefix(revision@),
{
    let digits = chars_of(revision);
    if digits.len() < 4 || digits.len() > 40 {
        return false;
    }
    let mut i: usize = 0;
    while i < digits.len()
        invariant
            i <= digits.len(),
            digits@ == revision@,
            forall|k: int| 0 <= k < i ==> is_hex(#[trigger] digits@[k]),
        decreases digits.len() - i,
    {
        if !hex(digits[i]) {
            return false;
        }
        i = i + 1;
    }
    true
}

/// One query on its way.
#[derive(Debug)]
pub struct Engine {
    query: WorkspaceQuery,
    scratch: String,
    pending: Action,
    snapshot: Option<String>,
    scratch_claimed: bool,
    outcome: Option<Result<WorkspaceQueryResult, QueryError>>,
}

/// What is left of a finished query: its result, and the scratch directory
/// that the caller has to delete once the result is consumed.
#[derive(Debug)]
pub struct Finished {
    pub result: Result<WorkspaceQueryResult, QueryError>,
    pub release: Option<String>,
}

impl View for Engine {
    type V = Progress;

    closed spec fn view(&self) -> Progress {
        Progress {
            workspace: self.query.workspace_name@,
            path: self.query.workspace_path@,
            revision: self.query.workspace_version@,
            scratch: self.scratch@,
            pending: self.pending,
            snapshot: match self.snapshot {
                Some(commit) => Some(commit@),
                None => None,
            },
            scratch_claimed: self.scratch_claimed,
            outcome: match self.outcome {
                Some(r) => Some(outcome_view(r)),
                None => None,
            },
        }
    }
}

impl Engine {
    /// Starts a query whose scratch directory is named after `token`.
    pub fn start_with(query: WorkspaceQuery, token: u64) -> (engine: Self)
        ensures
            engine@ == initial(
                query.workspace_name@,
                query.workspace_path@,
                query.workspace_version@,
                scratch_name_of(token),
            ),
    {
        Engine {
            query,
            scratch: scratch_name(token),
            pending: Action::OpenRepository,
            snapshot: None,
            scratch_claimed: false,
            outcome: None,
        }
    }

    /// Starts a query with a scratch directory of a fresh random name.
    /// Whatever name was drawn, the query starts in its initial state and
    /// the name is one safe path segment.
    pub fn start(query: WorkspaceQuery) -> (engine: Self)
        ensures
            engine@ == initial(
                query.workspace_name@,
                query.workspace_path@,
                query.workspace_version@,
                engine@.scratch,
            ),
            is_safe_segment(engine@.scratch),
            exists|token: u64| engine@.scratch == scratch_name_of(token),
    {
        Engine {
            query,
            scratch: fresh_scratch_name(),
            pending: Action::OpenRepository,
            snapshot: None,
            scratch_claimed: false,
            outcome: None,
        }
    }

    /// The action whose event the engine waits for.
    pub fn pending(&self) -> (action: Action)
        ensures
            action == self@.pending,
    {
        self.pending
    }

    /// The query.
    pub fn query(&self) -> (q: &WorkspaceQuery)
        ensures
            q.workspace_name@ == self@.workspace,
            q.workspace_path@ == self@.path,
            q.workspace_version@ == self@.revision,
    {
        &self.query
    }

    /// The name of the query's scratch directory.
    pub fn scratch(&self) -> (name: &str)
        ensures
            name@ == self@.scratch,
    {
        self.scratch.as_str()
    }

    /// The commit that the revision was resolved to, once it is.
    pub fn snapshot(&self) -> (commit: Option<&str>)
        ensures
            match commit {
                Some(id) => self@.snapshot == Some(id@),
                None => self@.snapshot is None,
            },
    {
        match &self.snapshot {
            Some(id) => Some(id.as_str()),
            None => None,
        }
    }

    fn ask(&mut self, action: Action)
        ensures
            final(self)@ == asking(old(self)@, action),
    {
        self.pending = action;
        match action {
            Action::CreateScratch => {
                self.scratch_claimed = true;
            },
            _ => {},
        }
    }

    fn fail_with(&mut self, kind: QueryErrorKind, detail: String)
        ensures
            final(self)@ == failed_with(old(self)@, kind, detail@),
    {
        let error = QueryError {
            kind,
            workspace: String::from_str(self.query.workspace_name.as_str()),
            revision: String::from_str(self.query.workspace_version.as_str()),
            path: String::from_str(self.query.workspace_path.as_str()),
            detail,
        };
        self.pending = Action::Finish;
        self.outcome = Some(Err(error));
    }

    fn fail(&mut self, kind: QueryErrorKind)
        ensures
            final(self)@ == failed(old(self)@, kind),
    {
        self.fail_with(kind, String::new());
    }

    fn answer(&mut self, found: WorkspaceQueryResult)
        ensures
            final(self)@ == answered(old(self)@, found@),
    {
        self.pending = Action::Finish;
        self.outcome = Some(Ok(found));
    }

    fn resolve(&mut self, commit: String)
        ensures
            final(self)@ == resolved(old(self)@, commit@),
    {
        self.snapshot = Some(commit);
        self.ask(Action::CreateScratch);
    }

    fn reference_missed(&mut self, detail: String)
        ensures
            final(self)@ == after_reference_missed(old(self)@, detail@),
    {
        if commit_prefix(self.query.workspace_version.as_str()) {
            self.ask(Action::FindCommitByPrefix);
        } else {
            self.fail_with(QueryErrorKind::RevisionNotFound, detail);
        }
    }

    fn fail_on(&mut self, fault: Fault, detail: String)
        ensures
            final(self)@ == failed_with(old(self)@, fault_kind(fault), detail@),
    {
        match fault {
            Fault::Unborn => self.fail_with(QueryErrorKind::EmptyWorkspace, detail),
            _ => self.fail_with(QueryErrorKind::InternalError, detail),
        }
    }

    /// Takes in the event of the pending action and names the next one.
    pub fn step(&mut self, event: Event) -> (action: Action)
        ensures
            final(self)@ == advance(old(self)@, event@),
            action == final(self)@.pending,
    {
        match self.pending {
            Action::Finish => {},
            Action::OpenRepository => match event {
                Event::Opened => self.ask(Action::CheckHistory),
                Event::Failed { detail, .. } => self.fail_with(
                    QueryErrorKind::WorkspaceNotFound,
                    detail,
                ),
                _ => self.fail(QueryErrorKind::InternalError),
            },
            Action::CheckHistory => match event {
                Event::HistoryChecked { empty } => {
                    if empty {
                        self.fail(QueryErrorKind::EmptyWorkspace)
                    } else {
                        self.ask(Action::ResolveReference)
                    }
                },
                Event::Failed { fault, detail } => self.fail_on(fault, detail),
                _ => self.fail(QueryErrorKind::InternalError),
            },
            Action::ResolveReference => match event {
                Event::ReferenceFound => self.ask(Action::PeelReference),
                Event::Failed { fault, detail } => match fault {
                    Fault::Unborn => self.fail_with(QueryErrorKind::EmptyWorkspace, detail),
                    _ => self.reference_missed(detail),
                },
                _ => self.fail(QueryErrorKind::InternalError),
            },
            Action::PeelReference => match event {
                Event::ReferencePeeled { commit } => self.resolve(commit),
                Event::Failed { fault, detail } => match fault {
                    Fault::Unborn => self.fail_with(QueryErrorKind::EmptyWorkspace, detail),
                    _ => self.reference_missed(detail),
                },
                _ => self.fail(QueryErrorKind::InternalError),
            },
            Action::FindCommitByPrefix => match event {
                Event::CommitFound { commit } => self.resolve(commit),
                Event::Failed { fault, detail } => match fault {
                    Fault::Unborn => self.fail_with(QueryErrorKind::EmptyWorkspace, detail),
                    Fault::NotFound => self.fail_with(QueryErrorKind::RevisionNotFound, detail),
                    Fault::Ambiguous => self.fail_with(QueryErrorKind::RevisionNotFound, detail),
                    Fault::Other => self.fail_with(QueryErrorKind::InternalError, detail),
                },
                _ => self.fail(QueryErrorKind::InternalError),
            },
            Action::CreateScratch => match event {
                Event::ScratchCreated => self.ask(Action::CheckoutTree),
                Event::Failed { detail, .. } => self.fail_with(
                    QueryErrorKind::InternalError,
                    detail,
                ),
                _ => self.fail(QueryErrorKind::InternalError),
            },
            Action::CheckoutTree => match event {
                Event::TreeCheckedOut => self.ask(Action::InspectPath),
                Event::Failed { fault, detail } => self.fail_on(fault, detail),
                _ => self.fail(QueryErrorKind::InternalError),
            },
            Action::InspectPath => match event {
                Event::NodeFound { kind } => match kind {
                    NodeKind::Missing => self.fail(QueryErrorKind::PathNotFound),
                    NodeKind::File => self.ask(Action::ReadFile),
                    NodeKind::Directory => self.ask(Action::WalkDirectory),
                    NodeKind::Other => self.fail(QueryErrorKind::InternalError),
                },
                Event::Failed { fault, detail } => match fault {
                    Fault::NotFound => self.fail_with(QueryErrorKind::PathNotFound, detail),
                    _ => self.fail_with(QueryErrorKind::InternalError, detail),
                },
                _ => self.fail(QueryErrorKind::InternalError),
            },
            Action::ReadFile => match event {
                Event::FileRead { contents } => {
                    let name = String::from_str(self.query.workspace_path.as_str());
                    self.answer(WorkspaceQueryResult::File { name, contents })
                },
                Event::Failed { detail, .. } => self.fail_with(
                    QueryErrorKind::InternalError,
                    detail,
                ),
                _ => self.fail(QueryErrorKind::InternalError),
            },
            Action::WalkDirectory => match event {
                Event::DirectoryWalked { entries } => {
                    let name = String::from_str(self.query.workspace_path.as_str());
                    let items = list_items(&self.query.workspace_path, &entries);
                    self.answer(WorkspaceQueryResult::Directory { name, items })
                },
                Event::Failed { detail, .. } => self.fail_with(
                    QueryErrorKind::InternalError,
                    detail,
                ),
                _ => self.fail(QueryErrorKind::InternalError),
            },
        }
        self.pending
    }

    /// Takes in recorded events, one after the other, and names the action
    /// that is pending after the last.
    pub fn replay(&mut self, events: Vec<Event>) -> (action: Action)
        ensures
            final(self)@ == run(old(self)@, signals(events@)),
            action == final(self)@.pending,
    {
        let mut rest = events;
        while rest.len() > 0
            invariant
                run(old(self)@, signals(events@)) == run(self@, signals(rest@)),
            decreases rest.len(),
        {
            let ghost before = signals(rest@);
            let event = rest.remove(0);
            assert(before.first() == event@);
            assert(before.drop_first() =~= signals(rest@));
            self.step(event);
        }
        self.pending
    }

    /// Ends the query: hands out the outcome, and with it the name of the
    /// scratch directory where the query claimed one. A query without an
    /// outcome yet gives nothing.
    pub fn finish(self) -> (done: Option<Finished>)
        ensures
            match self@.outcome {
                Some(outcome) => {
                    &&& done matches Some(finished)
                    &&& outcome_view(finished.result) == outcome
                    &&& match finished.release {
                        Some(name) => self@.scratch_claimed && name@ == self@.scratch,
                        None => !self@.scratch_claimed,
                    }
                },
                None => done is None,
            },
    {
        let claimed = self.scratch_claimed;
        let scratch = self.scratch;
        match self.outcome {
            Some(result) => Some(
                Finished { result, release: if claimed {
                    Some(scratch)
                } else {
                    None
                } },
            ),
            None => None,
        }
    }
}

} // verus!
