use db_migrator::filesystem::DirEntry;
use db_migrator::migrator::{listed_scripts, Migrator};

fn listed(name: &str, is_file: bool) -> DirEntry {
    DirEntry { path: format!("/scripts/{}", name), file_name: name.to_string(), is_file }
}

fn file_names(entries: &Vec<DirEntry>) -> Vec<String> {
    entries.iter().map(|e| e.file_name.clone()).collect()
}

#[test]
fn migrator_keeps_its_directory() {
    let migrator = Migrator::new("/scripts".to_string());
    assert_eq!(migrator.directory(), "/scripts");
}

fn mixed_listing() -> Vec<DirEntry> {
    vec![
        listed("002_add_col.sql", true),
        listed("readme.md", true),
        listed("old.sql", false),
        listed("001_init.sql", true),
        listed("sql", true),
        listed(".sql", true),
        listed("x.sql.bak", true),
        listed("X.SQL", true),
    ]
}

#[test]
fn target_files_are_the_sql_files_by_name() {
    let migrator = Migrator::new("/scripts".to_string());
    let found = migrator.get_target_files(&mixed_listing());
    assert_eq!(file_names(&found), vec![".sql", "001_init.sql", "002_add_col.sql"]);
    assert_eq!(found[1], listed("001_init.sql", true));
}

#[test]
fn target_files_come_sorted_whatever_the_listing() {
    let migrator = Migrator::new("/scripts".to_string());
    let found = migrator.get_target_files(&vec![listed("b.sql", true), listed("a.sql", true)]);
    assert_eq!(file_names(&found), vec!["a.sql", "b.sql"]);
    let sorted = migrator.get_sorted_target_files(&vec![listed("b.sql", true), listed("a.sql", true)]);
    assert_eq!(found, sorted);
}

#[test]
fn listed_scripts_keep_the_order_of_the_listing() {
    let found = listed_scripts(&mixed_listing());
    assert_eq!(file_names(&found), vec!["002_add_col.sql", "001_init.sql", ".sql"]);
    assert_eq!(found[0], listed("002_add_col.sql", true));
    assert!(listed_scripts(&vec![]).is_empty());
}

#[test]
fn sorted_target_files_ascend_by_name() {
    let migrator = Migrator::new("/scripts".to_string());
    let listing = vec![
        listed("010.sql", true),
        listed("002.sql", true),
        listed("dir.sql", false),
        listed("001.sql", true),
        listed("a.txt", true),
    ];
    let found = migrator.get_sorted_target_files(&listing);
    assert_eq!(file_names(&found), vec!["001.sql", "002.sql", "010.sql"]);
    assert_eq!(found[1].path, "/scripts/002.sql");
}

#[test]
fn empty_directory_has_no_targets() {
    let migrator = Migrator::new("/scripts".to_string());
    assert!(migrator.get_target_files(&vec![]).is_empty());
    assert!(migrator.get_sorted_target_files(&vec![]).is_empty());
}

#[test]
fn a_name_listed_twice_is_found_once() {
    let migrator = Migrator::new("/scripts".to_string());
    let mut second = listed("a.sql", true);
    second.path = "/elsewhere/a.sql".to_string();
    let found = migrator.get_sorted_target_files(&vec![listed("a.sql", true), second]);
    assert_eq!(found.len(), 1);
    assert_eq!(found[0].path, "/elsewhere/a.sql");
}
