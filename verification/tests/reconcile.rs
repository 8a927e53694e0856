use db_migrator::filesystem::{DirEntry, FileData};
use db_migrator::migrator::{
    as_map, check_comparisons, gen_comparisons, MetadataComparison, MigrationStatus, Migrator,
};
use db_migrator::names::{find_last, is_last_occurrence, sorted_distinct};
use db_migrator::sql::MetadataRow;

fn file(name: &str) -> FileData {
    FileData { checksum: 0, filename: name.to_string(), path: format!("/m/{}", name), ts: 7 }
}

fn row(name: &str) -> MetadataRow {
    MetadataRow::new(0, name.to_string(), 3)
}

fn entry(name: &str) -> DirEntry {
    DirEntry { path: format!("/m/{}", name), file_name: name.to_string(), is_file: true }
}

fn names(entries: &Vec<MetadataComparison>) -> Vec<String> {
    entries.iter().map(|e| e.filename.clone()).collect()
}

#[test]
fn statuses_follow_presence() {
    let out = gen_comparisons(vec![file("b.sql"), file("a.sql")], vec![row("c.sql"), row("a.sql")]);
    assert_eq!(out.len(), 3);
    assert_eq!(out[0].filename, "a.sql");
    assert_eq!(out[0].status, MigrationStatus::Migrated);
    assert_eq!(out[0].file_data, Some(file("a.sql")));
    assert_eq!(out[0].table_row, Some(row("a.sql")));
    assert_eq!(out[1].filename, "b.sql");
    assert_eq!(out[1].status, MigrationStatus::Unmigrated);
    assert_eq!(out[1].file_data, Some(file("b.sql")));
    assert_eq!(out[1].table_row, None);
    assert_eq!(out[2].filename, "c.sql");
    assert_eq!(out[2].status, MigrationStatus::FileMissing);
    assert_eq!(out[2].file_data, None);
    assert_eq!(out[2].table_row, Some(row("c.sql")));
}

#[test]
fn reconciling_nothing_gives_nothing() {
    assert!(gen_comparisons(vec![], vec![]).is_empty());
}

#[test]
fn output_is_sorted_by_name() {
    let out = gen_comparisons(
        vec![file("010_z.sql"), file("002_b.sql"), file("001_a.sql")],
        vec![row("003_c.sql"), row("000_legacy.sql")],
    );
    assert_eq!(
        names(&out),
        vec!["000_legacy.sql", "001_a.sql", "002_b.sql", "003_c.sql", "010_z.sql"]
    );
}

#[test]
fn same_inputs_same_output() {
    let first = gen_comparisons(vec![file("b"), file("a")], vec![row("a"), row("c")]);
    let second = gen_comparisons(vec![file("b"), file("a")], vec![row("a"), row("c")]);
    assert_eq!(first.len(), second.len());
    for i in 0..first.len() {
        assert_eq!(first[i].filename, second[i].filename);
        assert_eq!(first[i].status, second[i].status);
        assert_eq!(first[i].file_data, second[i].file_data);
        assert_eq!(first[i].table_row, second[i].table_row);
    }
}

#[test]
fn order_of_inputs_does_not_matter() {
    let one = gen_comparisons(vec![file("b"), file("a")], vec![row("c"), row("a")]);
    let other = gen_comparisons(vec![file("a"), file("b")], vec![row("a"), row("c")]);
    assert_eq!(names(&one), names(&other));
    for i in 0..one.len() {
        assert_eq!(one[i].status, other[i].status);
    }
}

#[test]
fn one_entry_for_each_name() {
    let out = gen_comparisons(vec![file("a"), file("b")], vec![row("a"), row("b")]);
    assert_eq!(names(&out), vec!["a", "b"]);
    assert!(out.iter().all(|e| e.status == MigrationStatus::Migrated));
}

#[test]
fn last_of_a_name_counts() {
    let mut late = file("a");
    late.path = "/late/a".to_string();
    let mut newer = row("a");
    newer.ts = 99;
    let out = gen_comparisons(vec![file("a"), late], vec![row("a"), newer]);
    assert_eq!(out.len(), 1);
    assert_eq!(out[0].file_data.as_ref().unwrap().path, "/late/a");
    assert_eq!(out[0].table_row.as_ref().unwrap().ts, 99);
}

#[test]
fn names_are_ordered_by_code_point() {
    let out = gen_comparisons(
        vec![file("a.sql"), file("a"), file("B"), file("é"), file("z"), file("10"), file("9")],
        vec![],
    );
    assert_eq!(names(&out), vec!["10", "9", "B", "a", "a.sql", "z", "é"]);
}

#[test]
fn sorted_distinct_sorts_and_drops_repeats() {
    let given: Vec<String> =
        vec!["b", "a", "b", "c", "a", "a"].into_iter().map(String::from).collect();
    assert_eq!(sorted_distinct(given), vec!["a", "b", "c"]);
    assert!(sorted_distinct(vec![]).is_empty());
}

#[test]
fn find_last_finds_the_last() {
    let given: Vec<String> = vec!["a", "b", "a", "c"].into_iter().map(String::from).collect();
    assert_eq!(find_last(&given, &"a".to_string()), Some(2));
    assert_eq!(find_last(&given, &"c".to_string()), Some(3));
    assert_eq!(find_last(&given, &"d".to_string()), None);
    assert!(!is_last_occurrence(&given, 0));
    assert!(is_last_occurrence(&given, 1));
    assert!(is_last_occurrence(&given, 2));
}

#[test]
fn new_comparison_is_empty_and_pending() {
    let fresh = MetadataComparison::new("x.sql".to_string());
    assert_eq!(fresh.filename, "x.sql");
    assert_eq!(fresh.file_data, None);
    assert_eq!(fresh.table_row, None);
    assert_eq!(fresh.status, MigrationStatus::Unmigrated);
}

#[test]
fn as_map_keeps_the_last_of_each_name() {
    let mut newer = row("a");
    newer.ts = 50;
    let keyed = as_map(vec![row("a"), row("b"), newer]);
    assert_eq!(keyed.len(), 2);
    assert_eq!(keyed[0], row("b"));
    assert_eq!(keyed[1].filename, "a");
    assert_eq!(keyed[1].ts, 50);
}

#[test]
fn get_map_keeps_the_last_of_each_name() {
    let mut late = entry("a.sql");
    late.path = "/late/a.sql".to_string();
    let files = FileData::get_map(&vec![entry("a.sql"), entry("b.sql"), late], 11);
    assert_eq!(files.len(), 2);
    assert_eq!(
        files[0],
        FileData { checksum: 0, filename: "b.sql".to_string(), path: "/m/b.sql".to_string(), ts: 11 }
    );
    assert_eq!(
        files[1],
        FileData {
            checksum: 0,
            filename: "a.sql".to_string(),
            path: "/late/a.sql".to_string(),
            ts: 11
        }
    );
}

#[test]
fn check_lists_orphaned_and_pending() {
    let out = gen_comparisons(
        vec![file("a"), file("b"), file("d")],
        vec![row("a"), row("c"), row("e")],
    );
    let report = check_comparisons(&out);
    assert_eq!(report.orphaned, vec!["c", "e"]);
    assert_eq!(report.pending, vec!["b", "d"]);
}

#[test]
fn check_of_a_legacy_record() {
    let migrator = Migrator::new("/m".to_string());
    let report = migrator.do_checks(&vec![], vec![row("000_legacy.sql")], 1);
    assert_eq!(report.orphaned, vec!["000_legacy.sql"]);
    assert!(report.pending.is_empty());
}

#[test]
fn check_and_run_see_the_same_entries() {
    let migrator = Migrator::new("/m".to_string());
    let listing = vec![entry("2.sql"), entry("1.sql"), entry("notes.txt")];
    let entries = migrator.reconcile(&listing, vec![row("1.sql"), row("0.sql")], 5);
    assert_eq!(names(&entries), vec!["0.sql", "1.sql", "2.sql"]);
    let report = migrator.do_checks(&listing, vec![row("1.sql"), row("0.sql")], 5);
    assert_eq!(report.orphaned, vec!["0.sql"]);
    assert_eq!(report.pending, vec!["2.sql"]);
}
