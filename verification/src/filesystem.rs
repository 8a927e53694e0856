//! What the file system contributes: the entries of a directory, and the
//! scripts found among them.

use crate::names::{
    is_last_occurrence, kept_indices, lemma_kept_all, lemma_lt_irreflexive, name_lt, names_of,
    strictly_ascending, Name,
};
use vstd::prelude::*;

verus! {

/// One entry of a directory listing.
#[derive(Debug, PartialEq, Eq)]
pub struct DirEntry {
    /// Where the entry is found.
    pub path: String,
    /// Its name within the directory.
    pub file_name: String,
    /// Whether it is a regular file.
    pub is_file: bool,
}

pub struct DirEntryView {
    pub path: Seq<char>,
    pub file_name: Name,
    pub is_file: bool,
}

impl View for DirEntry {
    type V = DirEntryView;

    open spec fn view(&self) -> DirEntryView {
        DirEntryView { path: self.path@, file_name: self.file_name@, is_file: self.is_file }
    }
}

impl Clone for DirEntry {
    fn clone(&self) -> (copy: Self)
        ensures
            copy@ == self@,
    {
        DirEntry {
            path: self.path.clone(),
            file_name: self.file_name.clone(),
            is_file: self.is_file,
        }
    }
}

/// One script found on disk.
#[derive(Debug, PartialEq, Eq)]
pub struct FileData {
    pub checksum: i32,
    /// The script's name, by which it is matched with stored records.
    pub filename: String,
    /// Where the script's content is read from.
    pub path: String,
    /// When the script was found, in microseconds since the epoch.
    pub ts: i64,
}

pub struct FileDataView {
    pub checksum: int,
    pub filename: Name,
    pub path: Seq<char>,
    pub ts: int,
}

impl View for FileData {
    type V = FileDataView;

    open spec fn view(&self) -> FileDataView {
        FileDataView {
            checksum: self.checksum as int,
            filename: self.filename@,
            path: self.path@,
            ts: self.ts as int,
        }
    }
}

impl Clone for FileData {
    fn clone(&self) -> (copy: Self)
        ensures
            copy@ == self@,
    {
        FileData {
            checksum: self.checksum,
            filename: self.filename.clone(),
            path: self.path.clone(),
            ts: self.ts,
        }
    }
}

/// The views of a sequence of entries.
pub open spec fn entry_views(entries: Seq<DirEntry>) -> Seq<DirEntryView> {
    entries.map_values(|e: DirEntry| e@)
}

/// The file names of a sequence of entries.
pub open spec fn entry_names(entries: Seq<DirEntryView>) -> Seq<Name> {
    entries.map_values(|e: DirEntryView| e.file_name)
}

/// The views of a sequence of scripts.
pub open spec fn file_views(files: Seq<FileData>) -> Seq<FileDataView> {
    files.map_values(|f: FileData| f@)
}

/// The names of a sequence of scripts.
pub open spec fn file_names(files: Seq<FileDataView>) -> Seq<Name> {
    files.map_values(|f: FileDataView| f.filename)
}

/// The script that an entry stands for when found at time `ts`.
pub open spec fn script_of(entry: DirEntryView, ts: int) -> FileDataView {
    FileDataView { checksum: 0, filename: entry.file_name, path: entry.path, ts }
}

/// What `FileData::get_map` makes of a listing: one script for each name,
/// taken from the last entry of that name, in the order of those entries.
pub open spec fn scripts_by_name(entries: Seq<DirEntryView>, ts: int) -> Seq<FileDataView> {
    let kept = kept_indices(entry_names(entries), entries.len());
    Seq::new(kept.len(), |k: int| script_of(entries[kept[k]], ts))
}

/// The scripts that the entries stand for when found at time `ts`.
pub open spec fn scripts_of(entries: Seq<DirEntryView>, ts: int) -> Seq<FileDataView> {
    entries.map_values(|entry: DirEntryView| script_of(entry, ts))
}

/// The scripts have the names of the entries, whenever they are found.
pub proof fn lemma_script_names(entries: Seq<DirEntryView>, ts: int)
    ensures
        file_names(scripts_of(entries, ts)) == entry_names(entries),
{
    assert(file_names(scripts_of(entries, ts)) =~= entry_names(entries));
}

/// Where no two entries share a name, keying them by name keeps them all.
pub proof fn lemma_scripts_by_name(entries: Seq<DirEntryView>, ts: int)
    requires
        strictly_ascending(entry_names(entries)),
    ensures
        scripts_by_name(entries, ts) == scripts_of(entries, ts),
{
    let names = entry_names(entries);
    assert forall|i: int, j: int| 0 <= i < j < names.len() implies names[i] != names[j] by {
        assert(name_lt(names[i], names[j]));
        lemma_lt_irreflexive(names[i]);
    }
    lemma_kept_all(names, entries.len());
    assert(scripts_by_name(entries, ts) =~= scripts_of(entries, ts));
}

/// The file names of `entries`, copied.
pub fn names_of_entries(entries: &Vec<DirEntry>) -> (names: Vec<String>)
    ensures
        names_of(names@) == entry_names(entry_views(entries@)),
{
    let mut names: Vec<String> = Vec::new();
    let mut i: usize = 0;
    while i < entries.len()
        invariant
            i <= entries.len(),
            names_of(names@) == entry_names(entry_views(entries@)).take(i as int),
        decreases entries.len() - i,
    {
        let ghost before = names_of(names@);
        names.push(entries[i].file_name.clone());
        assert(names_of(names@) =~= before.push(entries@[i as int]@.file_name));
        assert(entry_names(entry_views(entries@)).take(i + 1) =~= entry_names(
            entry_views(entries@),
        ).take(i as int).push(entries@[i as int]@.file_name));
        i += 1;
    }
    assert(entry_names(entry_views(entries@)).take(i as int) =~= entry_names(
        entry_views(entries@),
    ));
    names
}

/// The names of `files`, copied.
pub fn names_of_files(files: &Vec<FileData>) -> (names: Vec<String>)
    ensures
        names_of(names@) == file_names(file_views(files@)),
{
    let ghost all = file_names(file_views(files@));
    let mut names: Vec<String> = Vec::new();
    let mut i: usize = 0;
    while i < files.len()
        invariant
            i <= files.len(),
            all == file_names(file_views(files@)),
            names_of(names@) == all.take(i as int),
        decreases files.len() - i,
    {
        let ghost before = names_of(names@);
        names.push(files[i].filename.clone());
        assert(names_of(names@) =~= before.push(files@[i as int]@.filename));
        assert(all.take(i + 1) =~= all.take(i as int).push(files@[i as int]@.filename));
        i += 1;
    }
    assert(all.take(i as int) =~= all);
    names
}

impl FileData {
    /// Keys the scripts of a listing by name. A name that occurs more than
    /// once keeps its last entry. Every script gets checksum 0 and the time
    /// `ts`.
    pub fn get_map(paths: &Vec<DirEntry>, ts: i64) -> (files: Vec<FileData>)
        ensures
            file_views(files@) == scripts_by_name(entry_views(paths@), ts as int),
    {
        let names = names_of_entries(paths);
        let ghost entries = entry_views(paths@);
        let ghost all = entry_names(entries);
        assert(names_of(names@).len() == names.len() && all.len() == paths.len());
        let mut files: Vec<FileData> = Vec::new();
        let mut i: usize = 0;
        while i < paths.len()
            invariant
                i <= paths.len(),
                names.len() == paths.len(),
                entries == entry_views(paths@),
                all == entry_names(entries),
                all == names_of(names@),
                file_views(files@).len() == kept_indices(all, i as nat).len(),
                forall|k: int|
                    0 <= k < files.len() ==> #[trigger] file_views(files@)[k] == script_of(
                        entries[kept_indices(all, i as nat)[k]],
                        ts as int,
                    ),
            decreases paths.len() - i,
        {
            if is_last_occurrence(&names, i) {
                let ghost before = file_views(files@);
                let file = FileData {
                    checksum: 0,
                    filename: paths[i].file_name.clone(),
                    path: paths[i].path.clone(),
                    ts,
                };
                files.push(file);
                assert(file_views(files@) =~= before.push(script_of(entries[i as int], ts as int)));
            }
            i += 1;
        }
        assert(file_views(files@) =~= scripts_by_name(entries, ts as int));
        files
    }
}

} // verus!
