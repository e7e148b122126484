//! The in-memory index of file metadata.
//!
//! The index caches the records that have passed through the node, by file
//! id. The durable copy of each record is a file on disk; the index serves
//! reads without touching it.
//!
//! The records are kept in buckets, by a number folded from the bytes of
//! their file ids, so that looking a file up does not mean looking at every
//! record.

use crate::file_info::{FileInfo, FileInfoView};
use std::collections::HashMap;
use vstd::prelude::*;
use vstd::string::*;

verus! {

broadcast use vstd::std_specs::hash::group_hash_axioms;

/// Whether one of `entries` describes the file `file_id`.
spec fn indexed(entries: Seq<FileInfo>, file_id: Seq<char>) -> bool {
    exists|i: int| 0 <= i < entries.len() && (#[trigger] entries[i]).file_id@ == file_id
}

/// The place of the record of `file_id` among `entries`.
spec fn position(entries: Seq<FileInfo>, file_id: Seq<char>) -> int {
    choose|i: int| 0 <= i < entries.len() && (#[trigger] entries[i]).file_id@ == file_id
}

/// Whether no two of `entries` describe the same file.
spec fn ids_distinct(entries: Seq<FileInfo>) -> bool {
    forall|i: int, j: int|
        0 <= i < j < entries.len() ==> (#[trigger] entries[i]).file_id@ != (
        #[trigger] entries[j]).file_id@
}

/// The records in `entries`, by file id.
spec fn records_of(entries: Seq<FileInfo>) -> Map<Seq<char>, FileInfoView> {
    Map::new(
        |file_id: Seq<char>| indexed(entries, file_id),
        |file_id: Seq<char>| entries[position(entries, file_id)]@,
    )
}

/// Where no file is described twice, the record at place `i` is the one that
/// the index shows for its file.
proof fn lemma_record_indexed(entries: Seq<FileInfo>, i: int)
    requires
        ids_distinct(entries),
        0 <= i < entries.len(),
    ensures
        records_of(entries).contains_key(entries[i].file_id@),
        records_of(entries)[entries[i].file_id@] == entries[i]@,
{
    let found = position(entries, entries[i].file_id@);
    assert(found == i);
}

/// Putting a record in the place of the one of the same file replaces that
/// record in the index and leaves the others alone.
proof fn lemma_record_replaced(entries: Seq<FileInfo>, i: int, info: FileInfo)
    requires
        ids_distinct(entries),
        0 <= i < entries.len(),
        entries[i].file_id@ == info.file_id@,
    ensures
        ids_distinct(entries.update(i, info)),
        records_of(entries.update(i, info)) == records_of(entries).insert(info.file_id@, info@),
{
    let after = entries.update(i, info);
    let expected = records_of(entries).insert(info.file_id@, info@);
    assert forall|id: Seq<char>| indexed(after, id) == indexed(entries, id) by {
        if indexed(entries, id) {
            assert(after[position(entries, id)].file_id@ == id);
        }
        if indexed(after, id) {
            assert(entries[position(after, id)].file_id@ == id);
        }
    }
    assert forall|id: Seq<char>| indexed(after, id) implies records_of(after)[id]
        == expected[id] by {
        lemma_record_indexed(after, position(after, id));
        lemma_record_indexed(entries, position(after, id));
    }
    assert(records_of(after) =~= expected);
}

/// A record of a file that the index does not describe adds the file to the
/// index and leaves the others alone.
proof fn lemma_record_added(entries: Seq<FileInfo>, info: FileInfo)
    requires
        ids_distinct(entries),
        !indexed(entries, info.file_id@),
    ensures
        ids_distinct(entries.push(info)),
        records_of(entries.push(info)) == records_of(entries).insert(info.file_id@, info@),
{
    let after = entries.push(info);
    let last = entries.len() as int;
    let expected = records_of(entries).insert(info.file_id@, info@);
    assert(ids_distinct(after)) by {
        assert forall|i: int, j: int| 0 <= i < j < after.len() implies (
        #[trigger] after[i]).file_id@ != (#[trigger] after[j]).file_id@ by {
            if j == last {
                assert(entries[i].file_id@ != info.file_id@);
            }
        }
    }
    assert forall|id: Seq<char>| indexed(after, id) == (indexed(entries, id) || id
        == info.file_id@) by {
        if indexed(entries, id) {
            assert(after[position(entries, id)].file_id@ == id);
        }
        if id == info.file_id@ {
            assert(after[last].file_id@ == id);
        }
        if indexed(after, id) && position(after, id) < last {
            assert(entries[position(after, id)].file_id@ == id);
        }
    }
    assert forall|id: Seq<char>| indexed(after, id) implies records_of(after)[id]
        == expected[id] by {
        lemma_record_indexed(after, position(after, id));
        if position(after, id) < last {
            lemma_record_indexed(entries, position(after, id));
        }
    }
    assert(records_of(after) =~= expected);
}

/// A string of bytes folded into one number below 2^32.
spec fn folded(bytes: Seq<u8>) -> u64
    decreases bytes.len(),
{
    if bytes.len() == 0 {
        0
    } else {
        ((folded(bytes.drop_last()) * 31 + bytes.last()) % 0x1_0000_0000) as u64
    }
}

/// The bucket of a file id: its bytes, as the text is encoded, folded into
/// one number.
spec fn bucket_of(file_id: Seq<char>) -> u64 {
    folded(vstd::utf8::encode_utf8(file_id))
}

/// The records of the bucket `bucket`: none where there is no such bucket.
spec fn entries_in(buckets: Map<u64, Vec<FileInfo>>, bucket: u64) -> Seq<FileInfo> {
    if buckets.contains_key(bucket) {
        buckets[bucket]@
    } else {
        Seq::empty()
    }
}

/// Whether `entries` describe no file twice and all belong in the bucket
/// `bucket`.
spec fn bucket_valid(entries: Seq<FileInfo>, bucket: u64) -> bool {
    &&& ids_distinct(entries)
    &&& forall|i: int|
        0 <= i < entries.len() ==> bucket_of((#[trigger] entries[i]).file_id@) == bucket
}

/// Whether every bucket is valid.
spec fn buckets_valid(buckets: Map<u64, Vec<FileInfo>>) -> bool {
    forall|bucket: u64| #[trigger]
        buckets.contains_key(bucket) ==> bucket_valid(buckets[bucket]@, bucket)
}

/// The records in `buckets`, by file id: each file is looked for in its
/// bucket.
spec fn records_of_buckets(buckets: Map<u64, Vec<FileInfo>>) -> Map<Seq<char>, FileInfoView> {
    Map::new(
        |file_id: Seq<char>|
            records_of(entries_in(buckets, bucket_of(file_id))).contains_key(file_id),
        |file_id: Seq<char>| records_of(entries_in(buckets, bucket_of(file_id)))[file_id],
    )
}

/// Whether two indexes say the same of `file_id`.
spec fn agree_at(
    first: Map<Seq<char>, FileInfoView>,
    second: Map<Seq<char>, FileInfoView>,
    file_id: Seq<char>,
) -> bool {
    &&& first.contains_key(file_id) == second.contains_key(file_id)
    &&& first.contains_key(file_id) ==> first[file_id] == second[file_id]
}

/// With new records in the place of a bucket, the index says of the files of
/// that bucket what the new records say, and of all others what it said
/// before.
proof fn lemma_bucket_replaced(
    buckets: Map<u64, Vec<FileInfo>>,
    home: u64,
    entries: Vec<FileInfo>,
    expected: Map<Seq<char>, FileInfoView>,
)
    requires
        buckets_valid(buckets),
        bucket_valid(entries@, home),
        forall|file_id: Seq<char>|
            bucket_of(file_id) == home ==> #[trigger] agree_at(
                expected,
                records_of(entries@),
                file_id,
            ),
        forall|file_id: Seq<char>|
            bucket_of(file_id) != home ==> #[trigger] agree_at(
                expected,
                records_of_buckets(buckets),
                file_id,
            ),
    ensures
        buckets_valid(buckets.insert(home, entries)),
        records_of_buckets(buckets.insert(home, entries)) == expected,
{
    let replaced = buckets.insert(home, entries);
    assert forall|file_id: Seq<char>| #[trigger]
        records_of_buckets(replaced).contains_key(file_id) == expected.contains_key(file_id) && (
        expected.contains_key(file_id) ==> records_of_buckets(replaced)[file_id]
            == expected[file_id]) by {
        if bucket_of(file_id) == home {
            assert(agree_at(expected, records_of(entries@), file_id));
        } else {
            assert(agree_at(expected, records_of_buckets(buckets), file_id));
            assert(entries_in(replaced, bucket_of(file_id)) == entries_in(
                buckets,
                bucket_of(file_id),
            ));
        }
    }
    assert(records_of_buckets(replaced) =~= expected);
}

/// The cached file records of one node.
pub struct MetadataIndex {
    buckets: HashMap<u64, Vec<FileInfo>>,
}

impl View for MetadataIndex {
    type V = Map<Seq<char>, FileInfoView>;

    closed spec fn view(&self) -> Map<Seq<char>, FileInfoView> {
        records_of_buckets(self.buckets@)
    }
}

/// The bucket of a file id.
fn bucket(file_id: &str) -> (bucket: u64)
    ensures
        bucket == bucket_of(file_id@),
{
    let bytes = file_id.as_bytes();
    let mut folded_so_far: u64 = 0;
    let mut i: usize = 0;
    while i < bytes.len()
        invariant
            0 <= i <= bytes@.len(),
            folded_so_far == folded(bytes@.take(i as int)),
            folded_so_far < 0x1_0000_0000,
        decreases bytes@.len() - i,
    {
        assert(bytes@.take(i + 1).drop_last() =~= bytes@.take(i as int));
        folded_so_far = (folded_so_far * 31 + bytes[i] as u64) % 0x1_0000_0000;
        i = i + 1;
    }
    assert(bytes@.take(i as int) =~= bytes@);
    folded_so_far
}

/// The place of the record of `file_id` among `entries`, if there is one.
fn find(entries: &Vec<FileInfo>, file_id: &str) -> (found: Option<usize>)
    ensures
        match found {
            Some(i) => i < entries@.len() && entries@[i as int].file_id@ == file_id@,
            None => !indexed(entries@, file_id@),
        },
{
    let wanted = String::from_str(file_id);
    let mut i: usize = 0;
    while i < entries.len()
        invariant
            0 <= i <= entries@.len(),
            wanted@ == file_id@,
            forall|k: int| 0 <= k < i ==> (#[trigger] entries@[k]).file_id@ != file_id@,
        decreases entries@.len() - i,
    {
        if entries[i].file_id == wanted {
            return Some(i);
        }
        i = i + 1;
    }
    None
}

impl MetadataIndex {
    /// Whether the index is sound inside: every record is in the bucket of
    /// its file id, and no bucket describes a file twice. Every index that
    /// this module hands out is.
    pub closed spec fn wf(&self) -> bool {
        buckets_valid(self.buckets@)
    }

    /// Every record is filed under its own file id.
    pub proof fn lemma_keyed_by_id(&self, file_id: Seq<char>)
        requires
            self.wf(),
            self@.contains_key(file_id),
        ensures
            self@[file_id].file_id == file_id,
    {
    }

    /// An index without records.
    pub fn new() -> (index: MetadataIndex)
        ensures
            index.wf(),
            index@ == Map::<Seq<char>, FileInfoView>::empty(),
    {
        let index = MetadataIndex { buckets: HashMap::new() };
        assert(index@ =~= Map::<Seq<char>, FileInfoView>::empty());
        index
    }

    /// Files `info` under its file id, in place of any record that was there.
    pub fn put(&mut self, info: FileInfo)
        requires
            old(self).wf(),
        ensures
            final(self).wf(),
            final(self)@ == old(self)@.insert(info.file_id@, info@),
    {
        let home = bucket(info.file_id.as_str());
        let ghost before = self.buckets@;
        let ghost expected = old(self)@.insert(info.file_id@, info@);
        let mut entries = match self.buckets.remove(&home) {
            Some(entries) => entries,
            None => Vec::new(),
        };
        assert(entries@ =~= entries_in(before, home));
        match find(&entries, info.file_id.as_str()) {
            Some(i) => {
                proof {
                    lemma_record_replaced(entries@, i as int, info);
                }
                entries.set(i, info);
            },
            None => {
                proof {
                    lemma_record_added(entries@, info);
                }
                entries.push(info);
            },
        }
        proof {
            assert forall|other: Seq<char>| bucket_of(other) == home implies #[trigger] agree_at(
                expected,
                records_of(entries@),
                other,
            ) by {}
            assert forall|other: Seq<char>| bucket_of(other) != home implies #[trigger] agree_at(
                expected,
                records_of_buckets(before),
                other,
            ) by {}
            lemma_bucket_replaced(before, home, entries, expected);
            assert(before.remove(home).insert(home, entries) =~= before.insert(home, entries));
        }
        self.buckets.insert(home, entries);
    }

    /// A copy of the record of `file_id`, if the index holds one.
    pub fn get(&self, file_id: &str) -> (found: Option<FileInfo>)
        requires
            self.wf(),
        ensures
            match found {
                Some(info) => self@.contains_key(file_id@) && info@ == self@[file_id@],
                None => !self@.contains_key(file_id@),
            },
    {
        match self.buckets.get(&bucket(file_id)) {
            Some(entries) => match find(entries, file_id) {
                Some(i) => {
                    proof {
                        lemma_record_indexed(entries@, i as int);
                    }
                    Some(entries[i].clone())
                },
                None => None,
            },
            None => None,
        }
    }
}

} // verus!
