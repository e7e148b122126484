//! The chunk store, the reference counts and the sweep, driven the way a
//! node drives them, against a disk held in memory.

use hiveflow_core::cell::{Cell, Chunk};
use hiveflow_core::digest::content_matches;
use hiveflow_core::disk::ReadOutcome;
use hiveflow_core::error::StorageError;
use std::collections::BTreeMap;
use std::path::PathBuf;

/// The files under a storage root, by path.
struct Disk {
    files: BTreeMap<String, Vec<u8>>,
    writes: usize,
}

impl Disk {
    fn new() -> Disk {
        Disk { files: BTreeMap::new(), writes: 0 }
    }

    fn read(&self, path: &str) -> ReadOutcome {
        match self.files.get(path) {
            Some(bytes) => ReadOutcome::Data(bytes.clone()),
            None => ReadOutcome::Missing,
        }
    }
}

fn store(cell: &mut Cell, disk: &mut Disk, data: &[u8], file_id: &str, index: u32) -> Chunk {
    let pending = Cell::prepare_store(data, file_id, index);
    let present = disk.files.contains_key(pending.file_path().as_str());
    if pending.needs_write(present) {
        disk.files.insert(pending.file_path().clone(), data.to_vec());
        disk.writes += 1;
    }
    assert!(cell.ref_count(pending.hash_bytes()) < u32::MAX);
    cell.store_chunk(pending)
}

fn retrieve(cell: &Cell, disk: &Disk, hash: &[u8]) -> Result<Vec<u8>, StorageError> {
    let read = match cell.get_chunk_path(hash) {
        Ok(path) => disk.read(&path),
        Err(error) => return Err(error),
    };
    cell.get_chunk(hash, read)
}

fn release(cell: &mut Cell, disk: &mut Disk, hash: &[u8]) {
    if let Some(path) = cell.dec_chunk_ref(hash) {
        disk.files.remove(&path);
    }
}

fn sweep(cell: &Cell, disk: &mut Disk) -> usize {
    let paths: Vec<String> = disk.files.keys().cloned().collect();
    let names: Vec<String> =
        paths.iter().map(|path| path.rsplit('/').next().unwrap().to_string()).collect();
    let victims = cell.collect_garbage(&names);
    for place in victims.iter() {
        disk.files.remove(&paths[*place]);
    }
    victims.len()
}

fn hex(bytes: &[u8]) -> String {
    let mut text = String::new();
    for byte in bytes {
        text.push_str(&format!("{:02x}", byte));
    }
    text
}

fn new_cell() -> Cell {
    Cell::new(PathBuf::from("/tmp/hive"), 1024 * 1024)
}

#[test]
fn test_store_and_retrieve_chunk() {
    let mut disk = Disk::new();
    let mut cell = new_cell();

    let test_data = b"Hello, World!";
    let chunk = store(&mut cell, &mut disk, test_data, "test_file", 0);

    let retrieved = retrieve(&cell, &disk, &chunk.hash_bytes).unwrap();
    assert_eq!(retrieved, test_data);
}

#[test]
fn test_garbage_collection() {
    let mut disk = Disk::new();
    let mut cell = new_cell();

    let chunk1 = store(&mut cell, &mut disk, b"data1", "file1", 0);
    let chunk2 = store(&mut cell, &mut disk, b"data2", "file1", 1);

    // The reference to the first chunk goes while its file stays behind.
    let orphaned = cell.dec_chunk_ref(&chunk1.hash_bytes);
    assert!(orphaned.is_some());
    assert_eq!(cell.ref_count(&chunk1.hash_bytes), 0);

    let removed = sweep(&cell, &mut disk);
    assert_eq!(removed, 1, "Should remove one unreferenced chunk");

    assert!(retrieve(&cell, &disk, &chunk1.hash_bytes).is_err());
    assert!(retrieve(&cell, &disk, &chunk2.hash_bytes).is_ok());
}

#[test]
fn new_cell_is_empty() {
    let cell = Cell::new(PathBuf::from("/srv/node"), 4096);
    assert_eq!(cell.base_path(), &PathBuf::from("/srv/node"));
    assert_eq!(cell.default_chunk_size(), 4096);
    assert_eq!(cell.ref_count(&[0u8; 32]), 0);
}

#[test]
fn stored_chunk_record_describes_the_payload() {
    let mut disk = Disk::new();
    let mut cell = new_cell();
    let chunk = store(&mut cell, &mut disk, b"Hello, World!", "f1", 7);
    assert_eq!(chunk.hash_bytes, blake3::hash(b"Hello, World!").as_bytes().to_vec());
    assert_eq!(chunk.size, 13);
    assert_eq!(chunk.index, 7);
    assert_eq!(chunk.file_id, "f1");
    assert_eq!(chunk.signature, None);
    assert_eq!(chunk.sequence, 0);
}

#[test]
fn hash_of_the_empty_payload_is_the_published_one() {
    let pending = Cell::prepare_store(b"", "empty", 0);
    assert_eq!(
        hex(pending.hash_bytes()),
        "af1349b9f5f9a1a6a0404dea36dcc9499bcb25c9adc112b7cc9a93cae41f3262"
    );
    assert_ne!(pending.hash_bytes().to_vec(), Vec::<u8>::new());
}

#[test]
fn chunk_file_lives_in_the_shard_of_its_name() {
    let pending = Cell::prepare_store(b"", "empty", 0);
    assert_eq!(pending.dir_path(), "chunks/af13");
    assert_eq!(
        pending.file_path(),
        "chunks/af13/af1349b9f5f9a1a6a0404dea36dcc9499bcb25c9adc112b7cc9a93cae41f3262"
    );
}

#[test]
fn chunk_path_spells_the_hash_in_lowercase_hex() {
    let cell = new_cell();
    let mut hash = [0u8; 32];
    for (place, byte) in hash.iter_mut().enumerate() {
        *byte = (place as u8) * 8 + 7;
    }
    let path = cell.get_chunk_path(&hash).unwrap();
    assert_eq!(
        path,
        "chunks/070f/070f171f272f373f474f575f676f777f878f979fa7afb7bfc7cfd7dfe7eff7ff"
    );
}

#[test]
fn chunk_path_refuses_a_hash_of_the_wrong_length() {
    let cell = new_cell();
    assert_eq!(cell.get_chunk_path(&[1u8; 31]), Err(StorageError::InvalidHash));
    assert_eq!(cell.get_chunk_path(&[1u8; 33]), Err(StorageError::InvalidHash));
    assert_eq!(cell.get_chunk_path(&[]), Err(StorageError::InvalidHash));
    assert!(cell.get_chunk_path(&[1u8; 32]).is_ok());
}

#[test]
fn dedup_keeps_one_file_and_counts_both_references() {
    let mut disk = Disk::new();
    let mut cell = new_cell();
    let first = store(&mut cell, &mut disk, b"shared bytes", "f1", 0);
    let second = store(&mut cell, &mut disk, b"shared bytes", "f2", 4);
    assert_eq!(first.hash_bytes, second.hash_bytes);
    assert_eq!(first.file_id, "f1");
    assert_eq!(second.file_id, "f2");
    assert_eq!(disk.files.len(), 1);
    assert_eq!(disk.writes, 1);
    assert_eq!(cell.ref_count(&first.hash_bytes), 2);
}

#[test]
fn second_store_of_the_same_content_writes_nothing() {
    let pending = Cell::prepare_store(b"abc", "f1", 0);
    assert!(pending.needs_write(false));
    assert!(!pending.needs_write(true));
}

#[test]
fn round_trip_returns_what_was_stored() {
    let mut disk = Disk::new();
    let mut cell = new_cell();
    let payloads: [&[u8]; 4] = [b"", b"a", b"Hello, World!", &[0u8, 255, 7, 7, 7]];
    for (place, payload) in payloads.iter().enumerate() {
        let chunk = store(&mut cell, &mut disk, payload, "file", place as u32);
        assert_eq!(retrieve(&cell, &disk, &chunk.hash_bytes).unwrap(), payload.to_vec());
    }
}

#[test]
fn retrieval_tells_missing_from_unreadable() {
    let cell = new_cell();
    let hash = [9u8; 32];
    assert_eq!(cell.get_chunk(&hash, ReadOutcome::Missing), Err(StorageError::NotFound));
    assert_eq!(cell.get_chunk(&hash, ReadOutcome::Failed), Err(StorageError::Io));
    assert_eq!(cell.get_chunk(&hash, ReadOutcome::Data(vec![1, 2, 3])), Ok(vec![1, 2, 3]));
}

#[test]
fn retrieval_refuses_a_short_hash_before_looking_at_the_disk() {
    let cell = new_cell();
    assert_eq!(
        cell.get_chunk(&[9u8; 5], ReadOutcome::Data(vec![1])),
        Err(StorageError::InvalidHash)
    );
    assert_eq!(cell.get_chunk(&[9u8; 5], ReadOutcome::Missing), Err(StorageError::InvalidHash));
}

#[test]
fn retrieval_of_an_unknown_hash_is_not_found() {
    let disk = Disk::new();
    let cell = new_cell();
    assert_eq!(retrieve(&cell, &disk, &[3u8; 32]), Err(StorageError::NotFound));
}

#[test]
fn balanced_releases_remove_entry_and_file() {
    let mut disk = Disk::new();
    let mut cell = new_cell();
    let mut hash = Vec::new();
    for place in 0..5u32 {
        hash = store(&mut cell, &mut disk, b"many owners", "file", place).hash_bytes;
    }
    assert_eq!(cell.ref_count(&hash), 5);
    for left in (1..5u32).rev() {
        release(&mut cell, &mut disk, &hash);
        assert_eq!(cell.ref_count(&hash), left);
        assert_eq!(retrieve(&cell, &disk, &hash).unwrap(), b"many owners".to_vec());
    }
    release(&mut cell, &mut disk, &hash);
    assert_eq!(cell.ref_count(&hash), 0);
    assert_eq!(retrieve(&cell, &disk, &hash), Err(StorageError::NotFound));
    assert!(disk.files.is_empty());
}

#[test]
fn release_of_an_unreferenced_hash_changes_nothing() {
    let mut disk = Disk::new();
    let mut cell = new_cell();
    let chunk = store(&mut cell, &mut disk, b"kept", "file", 0);
    assert_eq!(cell.dec_chunk_ref(&[5u8; 32]), None);
    assert_eq!(cell.dec_chunk_ref(&[5u8; 3]), None);
    assert_eq!(cell.ref_count(&chunk.hash_bytes), 1);
    assert_eq!(cell.ref_count(&[5u8; 32]), 0);
}

#[test]
fn last_release_names_the_file_to_delete() {
    let mut disk = Disk::new();
    let mut cell = new_cell();
    let pending = Cell::prepare_store(b"short lived", "file", 0);
    let path = pending.file_path().clone();
    disk.files.insert(path.clone(), b"short lived".to_vec());
    let chunk = cell.store_chunk(pending);
    assert_eq!(cell.dec_chunk_ref(&chunk.hash_bytes), Some(path));
    assert_eq!(cell.dec_chunk_ref(&chunk.hash_bytes), None);
}

#[test]
fn hello_world_scenario() {
    let mut disk = Disk::new();
    let mut cell = new_cell();
    let expected = blake3::hash(b"Hello, World!");

    let first = store(&mut cell, &mut disk, b"Hello, World!", "f1", 0);
    assert_eq!(first.hash_bytes, expected.as_bytes().to_vec());
    let payload = retrieve(&cell, &disk, &first.hash_bytes).unwrap();
    assert_eq!(payload, b"Hello, World!".to_vec());
    assert_eq!(payload.len(), 13);

    let second = store(&mut cell, &mut disk, b"Hello, World!", "f2", 0);
    assert_eq!(second.hash_bytes, first.hash_bytes);
    assert_eq!(cell.ref_count(&first.hash_bytes), 2);

    release(&mut cell, &mut disk, &first.hash_bytes);
    assert_eq!(cell.ref_count(&first.hash_bytes), 1);
    let path = cell.get_chunk_path(&first.hash_bytes).unwrap();
    assert!(disk.files.contains_key(&path));

    release(&mut cell, &mut disk, &first.hash_bytes);
    assert!(!disk.files.contains_key(&path));
    assert_eq!(cell.ref_count(&first.hash_bytes), 0);
}

#[test]
fn sweep_removes_exactly_the_unreferenced_chunk() {
    let mut disk = Disk::new();
    let mut cell = new_cell();
    let a = store(&mut cell, &mut disk, b"chunk A", "file", 0);
    let b = store(&mut cell, &mut disk, b"chunk B", "file", 1);
    let _ = cell.dec_chunk_ref(&b.hash_bytes);

    assert_eq!(sweep(&cell, &mut disk), 1);
    assert_eq!(retrieve(&cell, &disk, &a.hash_bytes).unwrap(), b"chunk A".to_vec());
    assert_eq!(retrieve(&cell, &disk, &b.hash_bytes), Err(StorageError::NotFound));
    assert_eq!(sweep(&cell, &mut disk), 0);
}

#[test]
fn sweep_picks_orphans_in_rising_order_and_keeps_the_rest() {
    let mut disk = Disk::new();
    let mut cell = new_cell();
    let kept = store(&mut cell, &mut disk, b"referenced", "file", 0);
    let names = vec![
        "00ff".to_string(),
        hex(&kept.hash_bytes),
        "not hex at all".to_string(),
        "abc".to_string(),
        hex(&kept.hash_bytes).to_uppercase(),
        hex(blake3::hash(b"orphan").as_bytes()),
        "".to_string(),
        "0G".to_string(),
        "caf\u{e9}".to_string(),
    ];
    assert_eq!(cell.collect_garbage(&names), vec![0, 5, 6]);
}

#[test]
fn sweep_of_an_empty_directory_removes_nothing() {
    let cell = new_cell();
    assert_eq!(cell.collect_garbage(&Vec::new()), Vec::<usize>::new());
}

#[test]
fn sweep_reads_upper_and_lower_case_alike() {
    let mut disk = Disk::new();
    let mut cell = new_cell();
    let kept = store(&mut cell, &mut disk, b"x", "file", 0);
    let mut unknown = [0u8; 32];
    unknown[0] = 0xAB;
    unknown[31] = 0xCD;
    let names = vec![
        hex(&unknown),
        hex(&unknown).to_uppercase(),
        hex(&kept.hash_bytes),
        hex(&kept.hash_bytes).to_uppercase(),
    ];
    assert_eq!(cell.collect_garbage(&names), vec![0, 1]);
}

#[test]
fn stored_content_matches_its_hash_and_no_other() {
    let mut disk = Disk::new();
    let mut cell = new_cell();
    let chunk = store(&mut cell, &mut disk, b"Hello, World!", "f1", 0);
    assert!(content_matches(b"Hello, World!", &chunk.hash_bytes));
    assert!(!content_matches(b"Hello, World?", &chunk.hash_bytes));
    assert!(!content_matches(b"Hello, World!", &chunk.hash_bytes[..31]));
    assert!(!content_matches(b"Hello, World!", b"Hello, World!"));
}
