use db_migrator::filesystem::{DirEntry, FileData};
use db_migrator::migrator::{gen_comparisons, MetadataComparison, MigrationStatus, Migrator};
use db_migrator::run::{MigrationAction, MigrationError, MigrationEvent, MigrationRun};
use db_migrator::sql::MetadataRow;

/// A database that does as it is asked, but for the scripts named in
/// `failing`.
struct Database {
    rows: Vec<MetadataRow>,
    failing: Vec<(String, String)>,
    attempted: Vec<String>,
    skipped: Vec<String>,
}

fn database(rows: Vec<MetadataRow>, failing: &[(&str, &str)]) -> Database {
    Database {
        rows,
        failing: failing.iter().map(|(n, c)| (n.to_string(), c.to_string())).collect(),
        attempted: vec![],
        skipped: vec![],
    }
}

fn drive(run: &mut MigrationRun, db: &mut Database) -> Result<usize, MigrationError> {
    let mut event = MigrationEvent::Continue;
    for _ in 0..1000 {
        match run.advance(event) {
            MigrationAction::Done(count) => return Ok(count),
            MigrationAction::Abort(error) => return Err(error),
            MigrationAction::AlreadyMigrated(name) => {
                db.skipped.push(name);
                event = MigrationEvent::Continue;
            }
            MigrationAction::Migrate(file, record) => {
                db.attempted.push(file.filename.clone());
                match db.failing.iter().find(|(n, _)| *n == file.filename) {
                    Some((_, cause)) => event = MigrationEvent::Failed(cause.clone()),
                    None => {
                        db.rows.push(record);
                        event = MigrationEvent::Committed;
                    }
                }
            }
        }
    }
    panic!("the run did not end");
}

fn script(name: &str) -> FileData {
    FileData { checksum: 0, filename: name.to_string(), path: format!("/m/{}", name), ts: 7 }
}

fn record(name: &str) -> MetadataRow {
    MetadataRow::new(0, name.to_string(), 3)
}

fn on_disk(name: &str) -> DirEntry {
    DirEntry { path: format!("/m/{}", name), file_name: name.to_string(), is_file: true }
}

fn stored_names(db: &Database) -> Vec<String> {
    db.rows.iter().map(|r| r.filename.clone()).collect()
}

fn reconciled(files: &[&str], rows: &Vec<MetadataRow>) -> Vec<MetadataComparison> {
    gen_comparisons(files.iter().map(|n| script(n)).collect(), rows.clone())
}

#[test]
fn two_scripts_and_an_empty_store() {
    let migrator = Migrator::new("/m".to_string());
    let listing = vec![on_disk("002_add_col.sql"), on_disk("001_init.sql")];
    let mut db = database(vec![], &[]);
    let mut run = migrator.do_migration(&listing, db.rows.clone(), 42);
    assert_eq!(drive(&mut run, &mut db), Ok(2));
    assert_eq!(db.attempted, vec!["001_init.sql", "002_add_col.sql"]);
    assert_eq!(
        db.rows,
        vec![
            MetadataRow::new(0, "001_init.sql".to_string(), 42),
            MetadataRow::new(0, "002_add_col.sql".to_string(), 42),
        ]
    );
}

#[test]
fn a_legacy_record_stops_the_run() {
    let migrator = Migrator::new("/m".to_string());
    let mut db = database(vec![record("000_legacy.sql")], &[]);
    let mut run = migrator.do_migration(&vec![], db.rows.clone(), 42);
    assert_eq!(
        drive(&mut run, &mut db),
        Err(MigrationError::OrphanedRecord("000_legacy.sql".to_string()))
    );
    assert!(db.attempted.is_empty());
    assert_eq!(stored_names(&db), vec!["000_legacy.sql"]);
}

#[test]
fn the_run_stops_at_an_orphaned_record() {
    let mut db = database(vec![record("A"), record("B")], &[]);
    let entries = reconciled(&["A", "C"], &db.rows);
    assert_eq!(entries[0].status, MigrationStatus::Migrated);
    assert_eq!(entries[1].status, MigrationStatus::FileMissing);
    assert_eq!(entries[2].status, MigrationStatus::Unmigrated);
    let mut run = MigrationRun::new(entries);
    assert_eq!(drive(&mut run, &mut db), Err(MigrationError::OrphanedRecord("B".to_string())));
    assert!(db.attempted.is_empty());
    assert_eq!(db.skipped, vec!["A"]);
    assert_eq!(stored_names(&db), vec!["A", "B"]);
}

#[test]
fn scripts_before_an_orphaned_record_stay_applied() {
    let mut db = database(vec![record("b")], &[]);
    let mut run = MigrationRun::new(reconciled(&["a", "c"], &db.rows));
    assert_eq!(drive(&mut run, &mut db), Err(MigrationError::OrphanedRecord("b".to_string())));
    assert_eq!(db.attempted, vec!["a"]);
    assert_eq!(stored_names(&db), vec!["b", "a"]);
}

#[test]
fn nothing_pending_nothing_done() {
    let mut db = database(vec![record("a"), record("b")], &[]);
    let mut run = MigrationRun::new(reconciled(&["a", "b"], &db.rows));
    assert_eq!(drive(&mut run, &mut db), Ok(0));
    assert!(db.attempted.is_empty());
    assert_eq!(db.skipped, vec!["a", "b"]);
    assert_eq!(db.rows, vec![record("a"), record("b")]);
}

#[test]
fn no_entries_at_all() {
    let mut db = database(vec![], &[]);
    let mut run = MigrationRun::new(vec![]);
    assert_eq!(drive(&mut run, &mut db), Ok(0));
    assert!(db.rows.is_empty());
}

#[test]
fn a_second_run_applies_nothing() {
    let files = ["1.sql", "2.sql", "3.sql"];
    let mut db = database(vec![record("1.sql")], &[]);
    let mut first = MigrationRun::new(reconciled(&files, &db.rows));
    assert_eq!(drive(&mut first, &mut db), Ok(2));
    let after = db.rows.clone();
    let entries = reconciled(&files, &db.rows);
    assert!(entries.iter().all(|e| e.status == MigrationStatus::Migrated));
    db.attempted.clear();
    let mut second = MigrationRun::new(entries);
    assert_eq!(drive(&mut second, &mut db), Ok(0));
    assert!(db.attempted.is_empty());
    assert_eq!(db.rows, after);
}

#[test]
fn a_failing_script_leaves_no_record() {
    let files = ["1.sql", "2.sql", "3.sql", "4.sql"];
    let mut db = database(vec![], &[("3.sql", "syntax error")]);
    let mut run = MigrationRun::new(reconciled(&files, &db.rows));
    assert_eq!(
        drive(&mut run, &mut db),
        Err(MigrationError::ScriptFailed("3.sql".to_string(), "syntax error".to_string()))
    );
    assert_eq!(db.attempted, vec!["1.sql", "2.sql", "3.sql"]);
    assert_eq!(stored_names(&db), vec!["1.sql", "2.sql"]);
}

#[test]
fn a_run_resumes_after_a_failure_is_mended() {
    let files = ["1.sql", "2.sql", "3.sql"];
    let mut db = database(vec![], &[("2.sql", "boom")]);
    let mut run = MigrationRun::new(reconciled(&files, &db.rows));
    assert!(drive(&mut run, &mut db).is_err());
    db.failing.clear();
    db.attempted.clear();
    let mut again = MigrationRun::new(reconciled(&files, &db.rows));
    assert_eq!(drive(&mut again, &mut db), Ok(2));
    assert_eq!(db.attempted, vec!["2.sql", "3.sql"]);
    assert_eq!(stored_names(&db), vec!["1.sql", "2.sql", "3.sql"]);
}

#[test]
fn a_run_given_up_stays_given_up() {
    let mut run = MigrationRun::new(reconciled(&[], &vec![record("gone")]));
    let first = run.advance(MigrationEvent::Continue);
    assert_eq!(first, MigrationAction::Abort(MigrationError::OrphanedRecord("gone".to_string())));
    assert_eq!(run.advance(MigrationEvent::Committed), first);
    assert_eq!(run.advance(MigrationEvent::Continue), first);
}

#[test]
fn a_run_asks_again_until_it_is_told() {
    let mut run = MigrationRun::new(reconciled(&["a"], &vec![]));
    let asked = run.advance(MigrationEvent::Continue);
    assert_eq!(asked, MigrationAction::Migrate(script("a"), MetadataRow::new(0, "a".to_string(), 7)));
    assert_eq!(run.advance(MigrationEvent::Continue), asked);
    assert_eq!(run.advance(MigrationEvent::Committed), MigrationAction::Done(1));
    assert_eq!(run.advance(MigrationEvent::Continue), MigrationAction::Done(1));
}

#[test]
fn a_report_that_nothing_waits_for_is_passed_over() {
    let mut run = MigrationRun::new(reconciled(&["a", "b"], &vec![record("a")]));
    assert_eq!(
        run.advance(MigrationEvent::Failed("stray".to_string())),
        MigrationAction::AlreadyMigrated("a".to_string())
    );
    assert_eq!(
        run.advance(MigrationEvent::Committed),
        MigrationAction::Migrate(script("b"), MetadataRow::new(0, "b".to_string(), 7))
    );
    assert_eq!(
        run.advance(MigrationEvent::Failed("no such table".to_string())),
        MigrationAction::Abort(MigrationError::ScriptFailed(
            "b".to_string(),
            "no such table".to_string()
        ))
    );
}

#[test]
fn error_messages_differ() {
    assert_eq!(
        MigrationError::OrphanedRecord("000_legacy.sql".to_string()).message(),
        "no matching file found for record '000_legacy.sql'"
    );
    assert_eq!(
        MigrationError::ScriptFailed("1.sql".to_string(), "syntax error".to_string()).message(),
        "migration '1.sql' failed: syntax error"
    );
}
