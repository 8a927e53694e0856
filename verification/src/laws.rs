//! What holds of a whole run.
//!
//! The run of `crate::run` only answers events. Here it is put together
//! with a database that does as it is asked: it applies a script and
//! stores its record as one unit of work, or fails and changes nothing.
//! Which scripts fail, and why, is given as a map from names to causes.

use crate::filesystem::{file_names, lemma_script_names, scripts_of, DirEntryView, FileDataView};
use crate::migrator::{
    comparison_names, comparison_of, discovered, is_reconciliation,
    lemma_reconciliation_consistent, names_with, status_test, ComparisonView, MigrationStatus,
};
use crate::names::{
    last_index, lemma_last_index, lemma_lt_irreflexive, name_lt, strictly_ascending, Name,
};
use crate::run::{
    all_consistent, consistent, proceed, start, step, MigrationActionView, MigrationErrorView,
    MigrationEventView, RunView,
};
use crate::sql::{record_of, row_names, MetadataRowView};
use vstd::prelude::*;

verus! {

/// The status of an entry says where its name occurs: among the scripts
/// and the records, among the scripts only, or among the records only.
pub proof fn lemma_status(
    files: Seq<FileDataView>,
    rows: Seq<MetadataRowView>,
    entries: Seq<ComparisonView>,
    i: int,
)
    requires
        is_reconciliation(files, rows, entries),
        0 <= i < entries.len(),
    ensures
        file_names(files).contains(entries[i].filename) || row_names(rows).contains(
            entries[i].filename,
        ),
        entries[i].file_data is Some <==> file_names(files).contains(entries[i].filename),
        entries[i].table_row is Some <==> row_names(rows).contains(entries[i].filename),
        entries[i].file_data is Some && entries[i].table_row is Some ==> entries[i].status
            == MigrationStatus::Migrated,
        entries[i].file_data is Some && entries[i].table_row is None ==> entries[i].status
            == MigrationStatus::Unmigrated,
        entries[i].file_data is None && entries[i].table_row is Some ==> entries[i].status
            == MigrationStatus::FileMissing,
{
    assert(entries[i] == comparison_of(files, rows, entries[i].filename));
    lemma_last_index(file_names(files), entries[i].filename);
    lemma_last_index(row_names(rows), entries[i].filename);
}

/// How a run ended.
pub struct Outcome {
    /// The last answer of the run: `Done` or `Abort`.
    pub last: MigrationActionView,
    /// The stored records after the run.
    pub store: Seq<MetadataRowView>,
    /// The names of the scripts that the database was asked to apply, in
    /// the order in which it was asked.
    pub attempted: Seq<Name>,
}

/// What the database reports to a run: the fate of the script that the run
/// waits for, or nothing where it waits for none.
pub open spec fn reply(run: RunView, failures: Map<Name, Seq<char>>) -> MigrationEventView {
    if run.awaiting && run.failure is None {
        let name = run.entries[run.cursor as int].filename;
        if failures.contains_key(name) {
            MigrationEventView::Failed(failures[name])
        } else {
            MigrationEventView::Committed
        }
    } else {
        MigrationEventView::Continue
    }
}

/// The stored records once the database has done what the run waits for:
/// one record more where the script succeeds, and no change otherwise.
pub open spec fn store_after(
    run: RunView,
    failures: Map<Name, Seq<char>>,
    store: Seq<MetadataRowView>,
) -> Seq<MetadataRowView> {
    if run.awaiting && run.failure is None && !failures.contains_key(
        run.entries[run.cursor as int].filename,
    ) {
        store.push(record_of(run.entries[run.cursor as int].file_data->Some_0))
    } else {
        store
    }
}

/// How far a run is from its end.
pub open spec fn distance(run: RunView) -> nat {
    if run.cursor < run.entries.len() {
        (2 * (run.entries.len() - run.cursor) + if run.awaiting {
            0int
        } else {
            1int
        }) as nat
    } else {
        0
    }
}

/// Drives a run to its end: the database does what the run waits for and
/// reports, the run answers, and so on until the run says `Done` or
/// `Abort`.
pub open spec fn finish(
    run: RunView,
    failures: Map<Name, Seq<char>>,
    store: Seq<MetadataRowView>,
    attempted: Seq<Name>,
) -> Outcome
    decreases distance(run),
{
    let event = reply(run, failures);
    let store = store_after(run, failures, store);
    let (next, action) = step(run, event);
    match action {
        MigrationActionView::Done(_) | MigrationActionView::Abort(_) => Outcome {
            last: action,
            store,
            attempted,
        },
        MigrationActionView::AlreadyMigrated(_) => finish(next, failures, store, attempted),
        MigrationActionView::Migrate(file, _) => finish(
            next,
            failures,
            store,
            attempted.push(file.filename),
        ),
    }
}

/// The run over `entries` from place `i` on, said directly: an orphaned
/// record ends it at once, an applied script is passed over, and a pending
/// script is applied and recorded, or ends the run where it fails.
pub open spec fn apply_from(
    entries: Seq<ComparisonView>,
    failures: Map<Name, Seq<char>>,
    i: nat,
    applied: nat,
    store: Seq<MetadataRowView>,
    attempted: Seq<Name>,
) -> Outcome
    decreases entries.len() - i,
{
    if i >= entries.len() {
        Outcome { last: MigrationActionView::Done(applied), store, attempted }
    } else {
        let entry = entries[i as int];
        match entry.status {
            MigrationStatus::FileMissing => Outcome {
                last: MigrationActionView::Abort(
                    MigrationErrorView::OrphanedRecord(entry.filename),
                ),
                store,
                attempted,
            },
            MigrationStatus::Migrated => apply_from(
                entries,
                failures,
                i + 1,
                applied,
                store,
                attempted,
            ),
            MigrationStatus::Unmigrated => if failures.contains_key(entry.filename) {
                Outcome {
                    last: MigrationActionView::Abort(
                        MigrationErrorView::ScriptFailed(entry.filename, failures[entry.filename]),
                    ),
                    store,
                    attempted: attempted.push(entry.filename),
                }
            } else {
                apply_from(
                    entries,
                    failures,
                    i + 1,
                    applied + 1,
                    store.push(record_of(entry.file_data->Some_0)),
                    attempted.push(entry.filename),
                )
            },
        }
    }
}

/// The whole run over `entries` against a database that holds `store`.
pub open spec fn apply(
    entries: Seq<ComparisonView>,
    failures: Map<Name, Seq<char>>,
    store: Seq<MetadataRowView>,
) -> Outcome {
    apply_from(entries, failures, 0, 0, store, Seq::empty())
}

/// A run over `entries` that stands at place `i` and waits for nothing.
pub open spec fn standing_at(entries: Seq<ComparisonView>, i: nat, applied: nat) -> RunView {
    RunView { entries, cursor: i, applied, awaiting: false, failure: None }
}

/// Driven to its end from any place, the run of `crate::run` does what
/// `apply_from` says.
pub proof fn lemma_finish_from(
    entries: Seq<ComparisonView>,
    failures: Map<Name, Seq<char>>,
    i: nat,
    applied: nat,
    store: Seq<MetadataRowView>,
    attempted: Seq<Name>,
)
    requires
        all_consistent(entries),
    ensures
        finish(standing_at(entries, i, applied), failures, store, attempted) == apply_from(
            entries,
            failures,
            i,
            applied,
            store,
            attempted,
        ),
    decreases entries.len() - i,
{
    let run = standing_at(entries, i, applied);
    if i < entries.len() {
        let entry = entries[i as int];
        assert(consistent(entry));
        match entry.status {
            MigrationStatus::FileMissing => {},
            MigrationStatus::Migrated => {
                assert(step(run, reply(run, failures)).0 == standing_at(entries, i + 1, applied));
                lemma_finish_from(entries, failures, i + 1, applied, store, attempted);
            },
            MigrationStatus::Unmigrated => {
                let waiting = RunView { awaiting: true, ..run };
                let asked = attempted.push(entry.filename);
                assert(step(run, reply(run, failures)) == (
                    waiting,
                    MigrationActionView::Migrate(
                        entry.file_data->Some_0,
                        record_of(entry.file_data->Some_0),
                    ),
                ));
                assert(finish(run, failures, store, attempted) == finish(
                    waiting,
                    failures,
                    store,
                    asked,
                ));
                if !failures.contains_key(entry.filename) {
                    let stored = store.push(record_of(entry.file_data->Some_0));
                    let onward = standing_at(entries, i + 1, applied + 1);
                    assert(step(waiting, reply(waiting, failures)) == proceed(onward));
                    assert(step(onward, reply(onward, failures)) == proceed(onward));
                    assert(store_after(onward, failures, stored) == stored);
                    assert(finish(waiting, failures, store, asked) == finish(
                        onward,
                        failures,
                        stored,
                        asked,
                    ));
                    lemma_finish_from(entries, failures, i + 1, applied + 1, stored, asked);
                }
            },
        }
    }
}

/// The run of `crate::run`, begun on `entries` and driven to its end, does
/// what `apply` says.
pub proof fn lemma_run_applies(
    entries: Seq<ComparisonView>,
    failures: Map<Name, Seq<char>>,
    store: Seq<MetadataRowView>,
)
    requires
        all_consistent(entries),
    ensures
        finish(start(entries), failures, store, Seq::empty()) == apply(entries, failures, store),
{
    lemma_finish_from(entries, failures, 0, 0, store, Seq::empty());
}

/// The pending entries among `entries`, in their order.
pub open spec fn pending(entries: Seq<ComparisonView>) -> Seq<ComparisonView> {
    entries.filter(status_test(MigrationStatus::Unmigrated))
}

/// The records that are stored when the scripts of `entries` are applied.
pub open spec fn records_of(entries: Seq<ComparisonView>) -> Seq<MetadataRowView> {
    entries.map_values(|entry: ComparisonView| record_of(entry.file_data->Some_0))
}

/// The run ends at this entry: it is an orphaned record, or a pending
/// script that fails.
pub open spec fn stops(entry: ComparisonView, failures: Map<Name, Seq<char>>) -> bool {
    entry.status == MigrationStatus::FileMissing || (entry.status == MigrationStatus::Unmigrated
        && failures.contains_key(entry.filename))
}

/// The run does not end before place `k`.
pub open spec fn runs_through(
    entries: Seq<ComparisonView>,
    failures: Map<Name, Seq<char>>,
    k: nat,
) -> bool {
    &&& k <= entries.len()
    &&& forall|j: int| 0 <= j < k ==> !stops(#[trigger] entries[j], failures)
}

/// A run that does not end before place `k` arrives there having applied
/// and recorded every pending script before `k`, in order, and nothing
/// else.
pub proof fn lemma_prefix(
    entries: Seq<ComparisonView>,
    failures: Map<Name, Seq<char>>,
    store: Seq<MetadataRowView>,
    k: nat,
)
    requires
        runs_through(entries, failures, k),
    ensures
        apply(entries, failures, store) == apply_from(
            entries,
            failures,
            k,
            pending(entries.take(k as int)).len(),
            store + records_of(pending(entries.take(k as int))),
            comparison_names(pending(entries.take(k as int))),
        ),
    decreases k,
{
    reveal(Seq::filter);
    if k == 0 {
        assert(entries.take(0) =~= Seq::empty());
        assert(store + records_of(pending(entries.take(0))) =~= store);
        assert(comparison_names(pending(entries.take(0))) =~= Seq::empty());
    } else {
        let before = (k - 1) as nat;
        lemma_prefix(entries, failures, store, before);
        let entry = entries[before as int];
        let front = entries.take(before as int);
        assert(!stops(entry, failures));
        assert(entries.take(k as int) =~= front.push(entry));
        front.lemma_filter_push(entry, status_test(MigrationStatus::Unmigrated));
        if entry.status == MigrationStatus::Unmigrated {
            assert(records_of(pending(front).push(entry)) =~= records_of(pending(front)).push(
                record_of(entry.file_data->Some_0),
            ));
            assert(store + records_of(pending(front).push(entry)) =~= (store + records_of(
                pending(front),
            )).push(record_of(entry.file_data->Some_0)));
            assert(comparison_names(pending(front).push(entry)) =~= comparison_names(
                pending(front),
            ).push(entry.filename));
        }
    }
}

/// Nothing pending, nothing done: a run over entries of which none is
/// pending asks the database for nothing and leaves the stored records as
/// they are. It ends with a count of 0, or at the first orphaned record.
pub proof fn lemma_nothing_pending(
    entries: Seq<ComparisonView>,
    failures: Map<Name, Seq<char>>,
    store: Seq<MetadataRowView>,
)
    requires
        forall|i: int|
            0 <= i < entries.len() ==> (#[trigger] entries[i]).status
                != MigrationStatus::Unmigrated,
    ensures
        apply(entries, failures, store).store == store,
        apply(entries, failures, store).attempted == Seq::<Name>::empty(),
        apply(entries, failures, store).last == MigrationActionView::Done(0) || exists|k: int|
            0 <= k < entries.len() && (#[trigger] entries[k]).status
                == MigrationStatus::FileMissing && apply(entries, failures, store).last
                == MigrationActionView::Abort(MigrationErrorView::OrphanedRecord(entries[k].filename)),
        (forall|i: int|
            0 <= i < entries.len() ==> (#[trigger] entries[i]).status == MigrationStatus::Migrated)
            ==> apply(entries, failures, store).last == MigrationActionView::Done(0),
{
    lemma_nothing_pending_from(entries, failures, 0, 0, store, Seq::empty());
}

proof fn lemma_nothing_pending_from(
    entries: Seq<ComparisonView>,
    failures: Map<Name, Seq<char>>,
    i: nat,
    applied: nat,
    store: Seq<MetadataRowView>,
    attempted: Seq<Name>,
)
    requires
        forall|i: int|
            0 <= i < entries.len() ==> (#[trigger] entries[i]).status
                != MigrationStatus::Unmigrated,
    ensures
        apply_from(entries, failures, i, applied, store, attempted).store == store,
        apply_from(entries, failures, i, applied, store, attempted).attempted == attempted,
        apply_from(entries, failures, i, applied, store, attempted).last
            == MigrationActionView::Done(applied) || exists|k: int|
            0 <= k < entries.len() && (#[trigger] entries[k]).status
                == MigrationStatus::FileMissing && apply_from(
                entries,
                failures,
                i,
                applied,
                store,
                attempted,
            ).last == MigrationActionView::Abort(
                MigrationErrorView::OrphanedRecord(entries[k].filename),
            ),
        (forall|i: int|
            0 <= i < entries.len() ==> (#[trigger] entries[i]).status == MigrationStatus::Migrated)
            ==> apply_from(entries, failures, i, applied, store, attempted).last
            == MigrationActionView::Done(applied),
    decreases entries.len() - i,
{
    if i < entries.len() {
        let entry = entries[i as int];
        if entry.status == MigrationStatus::Migrated {
            lemma_nothing_pending_from(entries, failures, i + 1, applied, store, attempted);
        }
    }
}

/// Fail fast: a run that meets an orphaned record at place `k` ends there
/// with that record's name. The pending scripts before `k` were applied
/// and recorded, in order; no entry after `k` was touched.
pub proof fn lemma_fail_fast(
    entries: Seq<ComparisonView>,
    failures: Map<Name, Seq<char>>,
    store: Seq<MetadataRowView>,
    k: nat,
)
    requires
        runs_through(entries, failures, k),
        k < entries.len(),
        entries[k as int].status == MigrationStatus::FileMissing,
    ensures
        apply(entries, failures, store) == (Outcome {
            last: MigrationActionView::Abort(
                MigrationErrorView::OrphanedRecord(entries[k as int].filename),
            ),
            store: store + records_of(pending(entries.take(k as int))),
            attempted: comparison_names(pending(entries.take(k as int))),
        }),
{
    lemma_prefix(entries, failures, store, k);
}

/// A run that meets a failing script at place `k` ends there with that
/// script's name and the cause. The pending scripts before `k` were applied
/// and recorded, in order; the failing one was tried and left no record; no
/// entry after `k` was touched.
pub proof fn lemma_failed_script(
    entries: Seq<ComparisonView>,
    failures: Map<Name, Seq<char>>,
    store: Seq<MetadataRowView>,
    k: nat,
)
    requires
        runs_through(entries, failures, k),
        k < entries.len(),
        entries[k as int].status == MigrationStatus::Unmigrated,
        failures.contains_key(entries[k as int].filename),
    ensures
        apply(entries, failures, store) == (Outcome {
            last: MigrationActionView::Abort(
                MigrationErrorView::ScriptFailed(
                    entries[k as int].filename,
                    failures[entries[k as int].filename],
                ),
            ),
            store: store + records_of(pending(entries.take(k as int))),
            attempted: comparison_names(pending(entries.take(k as int))).push(
                entries[k as int].filename,
            ),
        }),
{
    lemma_prefix(entries, failures, store, k);
}

/// A run that meets neither an orphaned record nor a failing script
/// applies and records every pending script, in order, and counts them.
pub proof fn lemma_success(
    entries: Seq<ComparisonView>,
    failures: Map<Name, Seq<char>>,
    store: Seq<MetadataRowView>,
)
    requires
        runs_through(entries, failures, entries.len()),
    ensures
        apply(entries, failures, store) == (Outcome {
            last: MigrationActionView::Done(pending(entries).len()),
            store: store + records_of(pending(entries)),
            attempted: comparison_names(pending(entries)),
        }),
{
    lemma_prefix(entries, failures, store, entries.len());
    assert(entries.take(entries.len() as int) =~= entries);
}

/// The place at or after `i` where the run ends, or the number of entries
/// where it runs to the end.
pub open spec fn first_stop(
    entries: Seq<ComparisonView>,
    failures: Map<Name, Seq<char>>,
    i: nat,
) -> nat
    decreases entries.len() - i,
{
    if i >= entries.len() {
        entries.len()
    } else if stops(entries[i as int], failures) {
        i
    } else {
        first_stop(entries, failures, i + 1)
    }
}

/// The run does not end before `first_stop`, and ends there if that is the
/// place of an entry.
pub proof fn lemma_first_stop(entries: Seq<ComparisonView>, failures: Map<Name, Seq<char>>, i: nat)
    requires
        runs_through(entries, failures, i),
    ensures
        i <= first_stop(entries, failures, i) <= entries.len(),
        runs_through(entries, failures, first_stop(entries, failures, i)),
        first_stop(entries, failures, i) < entries.len() ==> stops(
            entries[first_stop(entries, failures, i) as int],
            failures,
        ),
    decreases entries.len() - i,
{
    if i < entries.len() && !stops(entries[i as int], failures) {
        lemma_first_stop(entries, failures, i + 1);
    }
}

/// The names of the records of pending entries are the names of the
/// entries.
pub proof fn lemma_pending_names(entries: Seq<ComparisonView>)
    requires
        all_consistent(entries),
    ensures
        row_names(records_of(pending(entries))) == comparison_names(pending(entries)),
        forall|k: int|
            0 <= k < pending(entries).len() ==> entries.contains(#[trigger] pending(entries)[k])
                && pending(entries)[k].status == MigrationStatus::Unmigrated,
{
    let chosen = pending(entries);
    assert forall|k: int| 0 <= k < chosen.len() implies entries.contains(#[trigger] chosen[k])
        && chosen[k].status == MigrationStatus::Unmigrated by {
        entries.lemma_filter_pred(status_test(MigrationStatus::Unmigrated), k);
        assert(chosen.contains(chosen[k]));
        entries.lemma_filter_contains_rev(status_test(MigrationStatus::Unmigrated), chosen[k]);
    }
    assert forall|k: int| 0 <= k < chosen.len() implies row_names(records_of(chosen))[k]
        == comparison_names(chosen)[k] by {
        let at = choose|at: int| 0 <= at < entries.len() && entries[at] == chosen[k];
        assert(consistent(entries[at]));
    }
    assert(row_names(records_of(chosen)) =~= comparison_names(chosen));
}

/// Atomicity: when a run over reconciled entries ends because the script
/// `name` failed, and no record of that name was stored before the run,
/// none is stored after it. The run ended at that script's entry, and
/// every pending script before it was applied and recorded: none was
/// passed over.
pub proof fn lemma_atomicity(
    entries: Seq<ComparisonView>,
    failures: Map<Name, Seq<char>>,
    store: Seq<MetadataRowView>,
    name: Name,
    cause: Seq<char>,
)
    requires
        all_consistent(entries),
        strictly_ascending(comparison_names(entries)),
        apply(entries, failures, store).last == MigrationActionView::Abort(
            MigrationErrorView::ScriptFailed(name, cause),
        ),
        !row_names(store).contains(name),
    ensures
        !row_names(apply(entries, failures, store).store).contains(name),
        exists|k: nat|
            {
                &&& k < entries.len()
                &&& runs_through(entries, failures, k)
                &&& (#[trigger] entries[k as int]).filename == name
                &&& entries[k as int].status == MigrationStatus::Unmigrated
                &&& apply(entries, failures, store).store == store + records_of(
                    pending(entries.take(k as int)),
                )
            },
{
    let k = first_stop(entries, failures, 0);
    lemma_first_stop(entries, failures, 0);
    if k == entries.len() {
        lemma_success(entries, failures, store);
    } else if entries[k as int].status == MigrationStatus::FileMissing {
        lemma_fail_fast(entries, failures, store, k);
    } else {
        lemma_failed_script(entries, failures, store, k);
        let front = entries.take(k as int);
        let added = records_of(pending(front));
        let after = apply(entries, failures, store).store;
        assert(after == store + added);
        assert forall|j: int| 0 <= j < front.len() implies consistent(
            #[trigger] front[j],
        ) by {
            assert(front[j] == entries[j]);
        }
        lemma_pending_names(front);
        if row_names(after).contains(name) {
            let at = choose|at: int| 0 <= at < row_names(after).len() && row_names(after)[at] == name;
            if at < store.len() {
                assert(row_names(store)[at] == name);
            } else {
                let p = at - store.len();
                assert(row_names(added)[p] == name);
                assert(comparison_names(pending(front))[p] == name);
                assert(front.contains(pending(front)[p]));
                let j = choose|j: int| 0 <= j < front.len() && front[j] == pending(front)[p];
                assert(comparison_names(entries)[j] == name);
                assert(comparison_names(entries)[k as int] == name);
                assert(name_lt(comparison_names(entries)[j], comparison_names(entries)[k as int]));
                lemma_lt_irreflexive(name);
            }
        }
    }
}

/// Idempotence: after a run that came to its end, every script on disk is
/// recorded. While the scripts on disk keep their names, reconciling them
/// with the records as the run left them gives only applied entries, and a
/// second run applies nothing and changes nothing, whatever the database
/// would do with a script.
pub proof fn lemma_idempotent(
    files: Seq<FileDataView>,
    rows: Seq<MetadataRowView>,
    failures: Map<Name, Seq<char>>,
    first: Seq<ComparisonView>,
    files_again: Seq<FileDataView>,
    second: Seq<ComparisonView>,
    again: Map<Name, Seq<char>>,
)
    requires
        is_reconciliation(files, rows, first),
        apply(first, failures, rows).last is Done,
        forall|name: Name|
            file_names(files_again).contains(name) <==> file_names(files).contains(name),
        is_reconciliation(files_again, apply(first, failures, rows).store, second),
    ensures
        forall|i: int|
            0 <= i < second.len() ==> (#[trigger] second[i]).status == MigrationStatus::Migrated,
        apply(second, again, apply(first, failures, rows).store) == (Outcome {
            last: MigrationActionView::Done(0),
            store: apply(first, failures, rows).store,
            attempted: Seq::empty(),
        }),
{
    let k = first_stop(first, failures, 0);
    lemma_first_stop(first, failures, 0);
    if k < first.len() {
        if first[k as int].status == MigrationStatus::FileMissing {
            lemma_fail_fast(first, failures, rows, k);
        } else {
            lemma_failed_script(first, failures, rows, k);
        }
    }
    lemma_success(first, failures, rows);
    lemma_reconciliation_consistent(files, rows, first);
    lemma_pending_names(first);
    let added = records_of(pending(first));
    let after = apply(first, failures, rows).store;
    assert(after == rows + added);
    assert(row_names(after) =~= row_names(rows) + row_names(added));
    assert forall|i: int| 0 <= i < second.len() implies (#[trigger] second[i]).status
        == MigrationStatus::Migrated by {
        let n = second[i].filename;
        assert(second[i] == comparison_of(files_again, after, n));
        lemma_last_index(file_names(files_again), n);
        lemma_last_index(file_names(files), n);
        lemma_last_index(row_names(after), n);
        lemma_last_index(row_names(rows), n);
        if row_names(after).contains(n) && !file_names(files).contains(n) {
            let at = choose|at: int| 0 <= at < row_names(after).len() && row_names(after)[at] == n;
            if at < rows.len() {
                assert(row_names(rows)[at] == n);
                assert(comparison_names(first).contains(n));
                let j = choose|j: int|
                    0 <= j < comparison_names(first).len() && comparison_names(first)[j] == n;
                assert(first[j] == comparison_of(files, rows, first[j].filename));
                assert(!stops(first[j], failures));
            } else {
                let p = at - rows.len();
                assert(row_names(added)[p] == n);
                assert(comparison_names(pending(first))[p] == n);
                assert(first.contains(pending(first)[p]));
                let j = choose|j: int| 0 <= j < first.len() && first[j] == pending(first)[p];
                assert(first[j] == comparison_of(files, rows, first[j].filename));
            }
        }
        if file_names(files).contains(n) && !row_names(after).contains(n) {
            assert(comparison_names(first).contains(n));
            let j = choose|j: int|
                0 <= j < comparison_names(first).len() && comparison_names(first)[j] == n;
            assert(first[j] == comparison_of(files, rows, first[j].filename));
            if first[j].table_row is Some {
                let at = last_index(row_names(rows), n);
                assert(row_names(after)[at] == n);
            } else {
                first.lemma_filter_contains(status_test(MigrationStatus::Unmigrated), j);
                let p = choose|p: int| 0 <= p < pending(first).len() && pending(first)[p] == first[j];
                assert(comparison_names(pending(first))[p] == n);
                assert(row_names(after)[rows.len() + p] == n);
            }
        }
    }
    lemma_nothing_pending(second, again, after);
}

/// Two migrations in a row: when a migration of a directory came to its
/// end and the directory is listed as before, a second migration, at
/// whatever time, finds every entry applied, applies nothing and leaves the
/// stored records as the first left them.
pub proof fn lemma_second_run(
    listing: Seq<DirEntryView>,
    rows: Seq<MetadataRowView>,
    ts: int,
    failures: Map<Name, Seq<char>>,
    first: Seq<ComparisonView>,
    ts_again: int,
    second: Seq<ComparisonView>,
    again: Map<Name, Seq<char>>,
)
    requires
        is_reconciliation(scripts_of(discovered(listing), ts), rows, first),
        apply(first, failures, rows).last is Done,
        is_reconciliation(
            scripts_of(discovered(listing), ts_again),
            apply(first, failures, rows).store,
            second,
        ),
    ensures
        forall|i: int|
            0 <= i < second.len() ==> (#[trigger] second[i]).status == MigrationStatus::Migrated,
        apply(second, again, apply(first, failures, rows).store) == (Outcome {
            last: MigrationActionView::Done(0),
            store: apply(first, failures, rows).store,
            attempted: Seq::empty(),
        }),
{
    lemma_script_names(discovered(listing), ts);
    lemma_script_names(discovered(listing), ts_again);
    lemma_idempotent(
        scripts_of(discovered(listing), ts),
        rows,
        failures,
        first,
        scripts_of(discovered(listing), ts_again),
        second,
        again,
    );
}

/// The check foretells the run: where the check of some entries reports
/// no orphaned record, a run over the same entries against a database that
/// fails no script applies the scripts that the check reports as pending,
/// in that order, and counts them.
pub proof fn lemma_check_foretells_run(entries: Seq<ComparisonView>, store: Seq<MetadataRowView>)
    requires
        names_with(entries, MigrationStatus::FileMissing).len() == 0,
    ensures
        apply(entries, Map::empty(), store).last == MigrationActionView::Done(
            names_with(entries, MigrationStatus::Unmigrated).len(),
        ),
        apply(entries, Map::empty(), store).attempted == names_with(
            entries,
            MigrationStatus::Unmigrated,
        ),
{
    assert forall|j: int| 0 <= j < entries.len() implies !stops(
        #[trigger] entries[j],
        Map::empty(),
    ) by {
        if entries[j].status == MigrationStatus::FileMissing {
            entries.lemma_filter_contains(status_test(MigrationStatus::FileMissing), j);
            assert(entries.filter(status_test(MigrationStatus::FileMissing)).len() > 0);
        }
    }
    lemma_success(entries, Map::empty(), store);
}

} // verus!
