//! One run over the reconciled entries, as a machine that is told what
//! happened and answers what to do next.
//!
//! The program around the library performs each action and reports back:
//! it applies a script and stores its record as one unit of work that
//! either takes effect as a whole or not at all, and then reports
//! `Committed` or `Failed`.

use crate::filesystem::{FileData, FileDataView};
use crate::migrator::{
    comparison_views, ComparisonView, MetadataComparison, MigrationStatus, status_of,
};
use crate::names::Name;
use crate::sql::{record_of, MetadataRow, MetadataRowView};
use vstd::prelude::*;

verus! {

/// Why a run was given up.
#[derive(Debug, PartialEq, Eq)]
pub enum MigrationError {
    /// A record names a script that is no longer on disk.
    OrphanedRecord(String),
    /// A script, named first, failed for the reason given second.
    ScriptFailed(String, String),
}

pub enum MigrationErrorView {
    OrphanedRecord(Name),
    ScriptFailed(Name, Seq<char>),
}

impl View for MigrationError {
    type V = MigrationErrorView;

    open spec fn view(&self) -> MigrationErrorView {
        match self {
            MigrationError::OrphanedRecord(name) => MigrationErrorView::OrphanedRecord(name@),
            MigrationError::ScriptFailed(name, cause) => MigrationErrorView::ScriptFailed(
                name@,
                cause@,
            ),
        }
    }
}

impl Clone for MigrationError {
    fn clone(&self) -> (copy: Self)
        ensures
            copy@ == self@,
    {
        match self {
            MigrationError::OrphanedRecord(name) => MigrationError::OrphanedRecord(name.clone()),
            MigrationError::ScriptFailed(name, cause) => MigrationError::ScriptFailed(
                name.clone(),
                cause.clone(),
            ),
        }
    }
}

/// What the user is told of an error.
pub open spec fn error_message(error: MigrationErrorView) -> Seq<char> {
    match error {
        MigrationErrorView::OrphanedRecord(name) => "no matching file found for record '"@ + name
            + "'"@,
        MigrationErrorView::ScriptFailed(name, cause) => "migration '"@ + name + "' failed: "@
            + cause,
    }
}

impl MigrationError {
    /// What the user is told of the error.
    pub fn message(&self) -> (text: String)
        ensures
            text@ == error_message(self@),
    {
        match self {
            MigrationError::OrphanedRecord(name) => {
                let mut text = String::from_str("no matching file found for record '");
                text.append(name.as_str());
                text.append("'");
                text
            },
            MigrationError::ScriptFailed(name, cause) => {
                let mut text = String::from_str("migration '");
                text.append(name.as_str());
                text.append("' failed: ");
                text.append(cause.as_str());
                text
            },
        }
    }
}

/// What the program reports to the run.
#[derive(Debug, PartialEq, Eq)]
pub enum MigrationEvent {
    /// Nothing to report: the last action needed no work.
    Continue,
    /// The script was applied and its record stored.
    Committed,
    /// The unit of work failed, for the reason given, and left no trace.
    Failed(String),
}

pub enum MigrationEventView {
    Continue,
    Committed,
    Failed(Seq<char>),
}

impl View for MigrationEvent {
    type V = MigrationEventView;

    open spec fn view(&self) -> MigrationEventView {
        match self {
            MigrationEvent::Continue => MigrationEventView::Continue,
            MigrationEvent::Committed => MigrationEventView::Committed,
            MigrationEvent::Failed(cause) => MigrationEventView::Failed(cause@),
        }
    }
}

/// What the run asks of the program.
#[derive(Debug, PartialEq, Eq)]
pub enum MigrationAction {
    /// The script of this name was applied by an earlier run; there is
    /// nothing to do but to say so.
    AlreadyMigrated(String),
    /// Apply this script and store this record, as one unit of work.
    Migrate(FileData, MetadataRow),
    /// The run is over; so many scripts were applied by it.
    Done(usize),
    /// The run is given up.
    Abort(MigrationError),
}

pub enum MigrationActionView {
    AlreadyMigrated(Name),
    Migrate(FileDataView, MetadataRowView),
    Done(nat),
    Abort(MigrationErrorView),
}

impl View for MigrationAction {
    type V = MigrationActionView;

    open spec fn view(&self) -> MigrationActionView {
        match self {
            MigrationAction::AlreadyMigrated(name) => MigrationActionView::AlreadyMigrated(name@),
            MigrationAction::Migrate(file, row) => MigrationActionView::Migrate(file@, row@),
            MigrationAction::Done(count) => MigrationActionView::Done(*count as nat),
            MigrationAction::Abort(error) => MigrationActionView::Abort(error@),
        }
    }
}

/// An entry that holds a script or a record, each of the entry's name, and
/// whose status is the status of what it holds.
pub open spec fn consistent(entry: ComparisonView) -> bool {
    &&& entry.file_data is Some || entry.table_row is Some
    &&& entry.file_data is Some ==> entry.file_data->Some_0.filename == entry.filename
    &&& entry.table_row is Some ==> entry.table_row->Some_0.filename == entry.filename
    &&& entry.status == status_of(entry.file_data is Some, entry.table_row is Some)
}

/// Every entry is consistent.
pub open spec fn all_consistent(entries: Seq<ComparisonView>) -> bool {
    forall|i: int| 0 <= i < entries.len() ==> consistent(#[trigger] entries[i])
}

/// A run as contracts see it.
pub struct RunView {
    /// The entries, in the order in which they are taken.
    pub entries: Seq<ComparisonView>,
    /// The place of the entry that is taken next.
    pub cursor: nat,
    /// How many scripts this run has applied.
    pub applied: nat,
    /// Whether the entry at the cursor is being applied by the program.
    pub awaiting: bool,
    /// Why the run was given up, if it was.
    pub failure: Option<MigrationErrorView>,
}

/// What holds of every run.
pub open spec fn run_wf(run: RunView) -> bool {
    &&& all_consistent(run.entries)
    &&& run.applied <= run.cursor <= run.entries.len()
    &&& run.awaiting ==> {
        &&& run.failure is None
        &&& run.cursor < run.entries.len()
        &&& run.entries[run.cursor as int].status == MigrationStatus::Unmigrated
    }
}

/// A run that has not begun.
pub open spec fn start(entries: Seq<ComparisonView>) -> RunView {
    RunView { entries, cursor: 0, applied: 0, awaiting: false, failure: None }
}

/// Takes the entry at the cursor of a run that waits for nothing.
pub open spec fn proceed(run: RunView) -> (RunView, MigrationActionView) {
    if run.cursor >= run.entries.len() {
        (run, MigrationActionView::Done(run.applied))
    } else {
        let entry = run.entries[run.cursor as int];
        match entry.status {
            MigrationStatus::FileMissing => {
                let error = MigrationErrorView::OrphanedRecord(entry.filename);
                (RunView { failure: Some(error), ..run }, MigrationActionView::Abort(error))
            },
            MigrationStatus::Migrated => (
                RunView { cursor: run.cursor + 1, ..run },
                MigrationActionView::AlreadyMigrated(entry.filename),
            ),
            MigrationStatus::Unmigrated => (
                RunView { awaiting: true, ..run },
                MigrationActionView::Migrate(
                    entry.file_data->Some_0,
                    record_of(entry.file_data->Some_0),
                ),
            ),
        }
    }
}

/// One step of a run: the state it is left in, and what it asks for.
///
/// A run that was given up stays so and says so again. A run that waits
/// for a script goes on to the next entry when told `Committed`, is given
/// up when told `Failed`, and asks again when told neither. A run that
/// waits for nothing takes the entry at its cursor: an orphaned record
/// ends it, an applied script is passed over, a pending one is asked for.
pub open spec fn step(run: RunView, event: MigrationEventView) -> (RunView, MigrationActionView) {
    if run.failure is Some {
        (run, MigrationActionView::Abort(run.failure->Some_0))
    } else if run.awaiting {
        let entry = run.entries[run.cursor as int];
        match event {
            MigrationEventView::Committed => proceed(
                RunView {
                    cursor: run.cursor + 1,
                    applied: run.applied + 1,
                    awaiting: false,
                    ..run
                },
            ),
            MigrationEventView::Failed(cause) => {
                let error = MigrationErrorView::ScriptFailed(entry.filename, cause);
                (
                    RunView { awaiting: false, failure: Some(error), ..run },
                    MigrationActionView::Abort(error),
                )
            },
            MigrationEventView::Continue => (
                run,
                MigrationActionView::Migrate(
                    entry.file_data->Some_0,
                    record_of(entry.file_data->Some_0),
                ),
            ),
        }
    } else {
        proceed(run)
    }
}

/// A step leaves a run as every run is.
pub proof fn lemma_step_wf(run: RunView, event: MigrationEventView)
    requires
        run_wf(run),
    ensures
        run_wf(step(run, event).0),
        step(run, event).0.entries == run.entries,
{
}

/// A run over reconciled entries.
pub struct MigrationRun {
    entries: Vec<MetadataComparison>,
    cursor: usize,
    applied: usize,
    awaiting: bool,
    failure: Option<MigrationError>,
}

impl View for MigrationRun {
    type V = RunView;

    closed spec fn view(&self) -> RunView {
        RunView {
            entries: comparison_views(self.entries@),
            cursor: self.cursor as nat,
            applied: self.applied as nat,
            awaiting: self.awaiting,
            failure: match self.failure {
                Some(error) => Some(error@),
                None => None,
            },
        }
    }
}

impl MigrationRun {
    #[verifier::type_invariant]
    spec fn wf(&self) -> bool {
        run_wf(self@)
    }

    /// A run over `entries` that has not begun.
    pub fn new(entries: Vec<MetadataComparison>) -> (run: Self)
        requires
            all_consistent(comparison_views(entries@)),
        ensures
            run@ == start(comparison_views(entries@)),
    {
        Self { entries, cursor: 0, applied: 0, awaiting: false, failure: None }
    }

    /// Takes the entry at the cursor; the run waits for nothing.
    fn take(&mut self) -> (action: MigrationAction)
        requires
            !old(self)@.awaiting,
            old(self)@.failure is None,
        ensures
            (final(self)@, action@) == proceed(old(self)@),
    {
        proof {
            use_type_invariant(&*self);
        }
        if self.cursor >= self.entries.len() {
            return MigrationAction::Done(self.applied);
        }
        assert(comparison_views(self.entries@)[self.cursor as int] == self.entries@[self.cursor as int]@);
        let entry = &self.entries[self.cursor];
        match entry.status {
            MigrationStatus::FileMissing => {
                let error = MigrationError::OrphanedRecord(entry.filename.clone());
                self.failure = Some(error.clone());
                MigrationAction::Abort(error)
            },
            MigrationStatus::Migrated => {
                let name = entry.filename.clone();
                self.cursor += 1;
                MigrationAction::AlreadyMigrated(name)
            },
            MigrationStatus::Unmigrated => {
                match &entry.file_data {
                    Some(file) => {
                        let action = MigrationAction::Migrate(file.clone(), MetadataRow::from(file));
                        self.awaiting = true;
                        action
                    },
                    None => {
                        proof {
                            assert(false);
                        }
                        MigrationAction::Done(self.applied)
                    },
                }
            },
        }
    }

    /// Tells the run what happened and learns what to do next.
    pub fn advance(&mut self, event: MigrationEvent) -> (action: MigrationAction)
        ensures
            (final(self)@, action@) == step(old(self)@, event@),
            run_wf(old(self)@),
            run_wf(final(self)@),
    {
        proof {
            use_type_invariant(&*self);
        }
        match &self.failure {
            Some(error) => {
                return MigrationAction::Abort(error.clone());
            },
            None => {},
        }
        if self.awaiting {
            assert(comparison_views(self.entries@)[self.cursor as int] == self.entries@[self.cursor as int]@);
            match event {
                MigrationEvent::Committed => {
                    assert(self.applied <= self.cursor < self.entries.len());
                    self.awaiting = false;
                    self.cursor += 1;
                    self.applied += 1;
                },
                MigrationEvent::Failed(cause) => {
                    let error = MigrationError::ScriptFailed(
                        self.entries[self.cursor].filename.clone(),
                        cause,
                    );
                    self.awaiting = false;
                    self.failure = Some(error.clone());
                    return MigrationAction::Abort(error);
                },
                MigrationEvent::Continue => {
                    match &self.entries[self.cursor].file_data {
                        Some(file) => {
                            return MigrationAction::Migrate(file.clone(), MetadataRow::from(file));
                        },
                        None => {
                            proof {
                                assert(false);
                            }
                            return MigrationAction::Done(self.applied);
                        },
                    }
                },
            }
        }
        self.take()
    }
}

} // verus!
