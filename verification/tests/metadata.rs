//! File records: the cache, the record files and the lookups between them.

use hiveflow_core::cell::{Cell, FileInfo, FileLookup};
use hiveflow_core::disk::LoadOutcome;
use hiveflow_core::error::StorageError;
use hiveflow_core::metadata::MetadataIndex;
use std::collections::{BTreeMap, HashMap};
use std::path::PathBuf;

/// The record files under a storage root, by path.
struct Records {
    files: BTreeMap<String, FileInfo>,
    loads: usize,
}

fn put(cell: &mut Cell, records: &mut Records, info: FileInfo) {
    let write = cell.store_file_info(info);
    records.files.insert(write.path, write.record);
}

fn get(
    cell: &mut Cell,
    records: &mut Records,
    file_id: &str,
) -> Result<Option<FileInfo>, StorageError> {
    match cell.get_file_info(file_id) {
        FileLookup::Cached(info) => Ok(Some(info)),
        FileLookup::Load(path) => {
            records.loads += 1;
            let loaded = match records.files.get(&path) {
                Some(record) => LoadOutcome::Record(record.clone()),
                None => LoadOutcome::Missing,
            };
            cell.load_file_info(loaded)
        }
    }
}

fn sample_info() -> FileInfo {
    FileInfo {
        file_id: "test123".to_string(),
        name: "test.txt".to_string(),
        size: 1000,
        chunk_size: 1024,
        mime_type: "text/plain".to_string(),
        chunk_hashes: vec![],
        created_at: 12345,
        version: 1,
        category: Some("documents".to_string()),
        signature: None,
        checksums: HashMap::new(),
        tags: HashMap::new(),
    }
}

fn rich_info() -> FileInfo {
    let mut checksums = HashMap::new();
    checksums.insert("sha256".to_string(), vec![1u8, 2, 3]);
    let mut tags = HashMap::new();
    tags.insert("kind".to_string(), "report".to_string());
    tags.insert("year".to_string(), "2024".to_string());
    FileInfo {
        file_id: "rich".to_string(),
        name: "report.pdf".to_string(),
        size: u64::MAX,
        chunk_size: u32::MAX,
        mime_type: "application/pdf".to_string(),
        chunk_hashes: vec![vec![7u8; 32], vec![8u8; 32], vec![]],
        created_at: 1_700_000_000,
        version: 42,
        category: None,
        signature: Some(vec![]),
        checksums,
        tags,
    }
}

fn new_cell() -> Cell {
    Cell::new(PathBuf::from("/tmp/hive"), 1024 * 1024)
}

#[test]
fn test_store_and_retrieve_file_info() {
    let mut records = Records { files: BTreeMap::new(), loads: 0 };
    let mut cell = new_cell();

    let info = sample_info();

    put(&mut cell, &mut records, info.clone());

    let retrieved = get(&mut cell, &mut records, "test123").unwrap().unwrap();
    assert_eq!(retrieved.file_id, info.file_id);
    assert_eq!(retrieved.size, info.size);
}

#[test]
fn record_is_written_under_the_name_of_its_file() {
    let mut cell = new_cell();
    let write = cell.store_file_info(sample_info());
    assert_eq!(write.path, "metadata/test123.json");
    assert_eq!(write.record, sample_info());
}

#[test]
fn cached_record_equals_what_was_put_in_every_field() {
    let mut records = Records { files: BTreeMap::new(), loads: 0 };
    let mut cell = new_cell();
    put(&mut cell, &mut records, rich_info());
    assert_eq!(get(&mut cell, &mut records, "rich"), Ok(Some(rich_info())));
    assert_eq!(records.loads, 0);
}

#[test]
fn record_survives_the_loss_of_the_cache() {
    let mut records = Records { files: BTreeMap::new(), loads: 0 };
    let mut cell = new_cell();
    put(&mut cell, &mut records, rich_info());

    let mut restarted = new_cell();
    assert_eq!(get(&mut restarted, &mut records, "rich"), Ok(Some(rich_info())));
    assert_eq!(records.loads, 1);
    assert_eq!(get(&mut restarted, &mut records, "rich"), Ok(Some(rich_info())));
    assert_eq!(records.loads, 1);
}

#[test]
fn later_put_replaces_the_earlier_record() {
    let mut records = Records { files: BTreeMap::new(), loads: 0 };
    let mut cell = new_cell();
    put(&mut cell, &mut records, sample_info());
    let mut revised = sample_info();
    revised.version = 2;
    revised.name = "renamed.txt".to_string();
    put(&mut cell, &mut records, revised.clone());
    assert_eq!(get(&mut cell, &mut records, "test123"), Ok(Some(revised)));
    assert_eq!(records.files.len(), 1);
}

#[test]
fn unknown_file_is_absent_not_an_error() {
    let mut records = Records { files: BTreeMap::new(), loads: 0 };
    let mut cell = new_cell();
    put(&mut cell, &mut records, sample_info());
    assert_eq!(get(&mut cell, &mut records, "nobody"), Ok(None));
    assert_eq!(cell.get_file_info("nobody"), FileLookup::Load("metadata/nobody.json".to_string()));
}

#[test]
fn unreadable_and_corrupt_record_files_fail_differently() {
    let mut cell = new_cell();
    assert_eq!(cell.load_file_info(LoadOutcome::Unreadable), Err(StorageError::Io));
    assert_eq!(cell.load_file_info(LoadOutcome::Corrupt), Err(StorageError::Deserialize));
    assert_eq!(cell.load_file_info(LoadOutcome::Missing), Ok(None));
    assert_eq!(cell.get_file_info("test123"), FileLookup::Load("metadata/test123.json".to_string()));
}

#[test]
fn loaded_record_is_cached() {
    let mut cell = new_cell();
    assert_eq!(cell.load_file_info(LoadOutcome::Record(sample_info())), Ok(Some(sample_info())));
    assert_eq!(cell.get_file_info("test123"), FileLookup::Cached(sample_info()));
}

#[test]
fn index_keeps_one_record_per_file() {
    let mut index = MetadataIndex::new();
    assert_eq!(index.get("rich"), None);
    index.put(rich_info());
    index.put(sample_info());
    let mut newer = rich_info();
    newer.version = 43;
    index.put(newer.clone());
    assert_eq!(index.get("rich"), Some(newer));
    assert_eq!(index.get("test123"), Some(sample_info()));
    assert_eq!(index.get("ric"), None);
    assert_eq!(index.get(""), None);
}

#[test]
fn copy_of_a_record_equals_the_record() {
    assert_eq!(rich_info().clone(), rich_info());
    assert_eq!(sample_info().clone(), sample_info());
}

#[test]
fn index_tells_files_of_one_bucket_apart() {
    // "Aa" and "BB" fold to the same number.
    let mut index = MetadataIndex::new();
    let mut first = sample_info();
    first.file_id = "Aa".to_string();
    let mut second = rich_info();
    second.file_id = "BB".to_string();
    index.put(first.clone());
    assert_eq!(index.get("BB"), None);
    index.put(second.clone());
    assert_eq!(index.get("Aa"), Some(first.clone()));
    assert_eq!(index.get("BB"), Some(second.clone()));
    first.version = 9;
    index.put(first.clone());
    assert_eq!(index.get("Aa"), Some(first));
    assert_eq!(index.get("BB"), Some(second));
    assert_eq!(index.get("Ab"), None);
}

#[test]
fn index_holds_many_files() {
    let mut index = MetadataIndex::new();
    for place in 0..300u64 {
        let mut info = sample_info();
        info.file_id = format!("file-{}-\u{e9}", place);
        info.size = place;
        index.put(info);
    }
    for place in 0..300u64 {
        let found = index.get(&format!("file-{}-\u{e9}", place)).unwrap();
        assert_eq!(found.size, place);
    }
    assert_eq!(index.get("file-300-\u{e9}"), None);
}
