//! Reference counts of chunks.
//!
//! The table maps a chunk hash to the number of files that currently depend
//! on the chunk. A hash with no references has no entry: an entry is removed,
//! not kept at zero, when its count reaches zero.
//!
//! The entries are kept in buckets, by the first four bytes of their hashes.
//! The hashes are digests, so the buckets stay short however many chunks
//! there are, and looking one hash up costs the same in a small table and in
//! a large one.

use crate::digest::bytes_equal;
use std::collections::HashMap;
use vstd::prelude::*;

verus! {

broadcast use vstd::std_specs::hash::group_hash_axioms;

/// How many references `table` holds for `hash`: 0 where it has no entry.
pub open spec fn count_of(table: Map<Seq<u8>, nat>, hash: Seq<u8>) -> nat {
    if table.contains_key(hash) {
        table[hash]
    } else {
        0
    }
}

/// `table` with one more reference to `hash`.
pub open spec fn incremented(table: Map<Seq<u8>, nat>, hash: Seq<u8>) -> Map<Seq<u8>, nat> {
    table.insert(hash, count_of(table, hash) + 1)
}

/// `table` with one reference to `hash` less. The entry goes with its last
/// reference, and a hash without an entry is left without one.
pub open spec fn decremented(table: Map<Seq<u8>, nat>, hash: Seq<u8>) -> Map<Seq<u8>, nat> {
    if count_of(table, hash) <= 1 {
        table.remove(hash)
    } else {
        table.insert(hash, (table[hash] - 1) as nat)
    }
}

/// What holds of every table that a `RefCounter` can be in: counts are
/// positive and fit the counter, and hashes are 32 bytes long.
pub open spec fn table_valid(table: Map<Seq<u8>, nat>) -> bool {
    forall|hash: Seq<u8>| #[trigger]
        table.contains_key(hash) ==> 1 <= table[hash] <= u32::MAX && hash.len() == 32
}

/// One chunk and the number of references to it.
#[derive(Clone, Copy)]
struct RefEntry {
    hash: [u8; 32],
    count: u32,
}

/// Whether one of `entries` is for `hash`.
spec fn listed(entries: Seq<RefEntry>, hash: Seq<u8>) -> bool {
    exists|i: int| 0 <= i < entries.len() && (#[trigger] entries[i]).hash@ == hash
}

/// The place of the entry for `hash` among `entries`.
spec fn place(entries: Seq<RefEntry>, hash: Seq<u8>) -> int {
    choose|i: int| 0 <= i < entries.len() && (#[trigger] entries[i]).hash@ == hash
}

/// Whether `entries` can be the contents of a table: no hash twice, no count
/// of zero.
spec fn entries_valid(entries: Seq<RefEntry>) -> bool {
    &&& forall|i: int| 0 <= i < entries.len() ==> (#[trigger] entries[i]).count >= 1
    &&& forall|i: int, j: int|
        0 <= i < j < entries.len() ==> (#[trigger] entries[i]).hash@ != (#[trigger] entries[j]).hash@
}

/// The table that `entries` stand for.
spec fn table_of(entries: Seq<RefEntry>) -> Map<Seq<u8>, nat> {
    Map::new(
        |hash: Seq<u8>| listed(entries, hash),
        |hash: Seq<u8>| entries[place(entries, hash)].count as nat,
    )
}

/// In valid entries, the entry at place `i` is the one that the table shows
/// for its hash.
proof fn lemma_entry_in_table(entries: Seq<RefEntry>, i: int)
    requires
        entries_valid(entries),
        0 <= i < entries.len(),
    ensures
        table_of(entries).contains_key(entries[i].hash@),
        table_of(entries)[entries[i].hash@] == entries[i].count,
{
    let found = place(entries, entries[i].hash@);
    assert(found == i);
}

/// The table of valid entries is a valid table.
proof fn lemma_table_valid(entries: Seq<RefEntry>)
    requires
        entries_valid(entries),
    ensures
        table_valid(table_of(entries)),
{
    let table = table_of(entries);
    assert forall|hash: Seq<u8>| #[trigger] table.contains_key(hash) implies 1 <= table[hash]
        <= u32::MAX && hash.len() == 32 by {
        lemma_entry_in_table(entries, place(entries, hash));
    }
}

/// Setting the count of the entry at place `i` sets the count of its hash in
/// the table and leaves the rest of the table alone.
proof fn lemma_count_set(entries: Seq<RefEntry>, i: int, count: u32)
    requires
        entries_valid(entries),
        0 <= i < entries.len(),
        count >= 1,
    ensures
        entries_valid(entries.update(i, RefEntry { hash: entries[i].hash, count })),
        table_of(entries.update(i, RefEntry { hash: entries[i].hash, count })) == table_of(
            entries,
        ).insert(entries[i].hash@, count as nat),
{
    let after = entries.update(i, RefEntry { hash: entries[i].hash, count });
    let expected = table_of(entries).insert(entries[i].hash@, count as nat);
    assert forall|hash: Seq<u8>| listed(after, hash) == listed(entries, hash) by {
        if listed(entries, hash) {
            assert(after[place(entries, hash)].hash@ == hash);
        }
        if listed(after, hash) {
            assert(entries[place(after, hash)].hash@ == hash);
        }
    }
    assert forall|hash: Seq<u8>| listed(after, hash) implies table_of(after)[hash]
        == expected[hash] by {
        lemma_entry_in_table(after, place(after, hash));
        lemma_entry_in_table(entries, place(after, hash));
    }
    assert(table_of(after) =~= expected);
}

/// A new entry for a hash that has none adds the hash to the table and
/// leaves the rest of the table alone.
proof fn lemma_entry_added(entries: Seq<RefEntry>, entry: RefEntry)
    requires
        entries_valid(entries),
        !listed(entries, entry.hash@),
        entry.count >= 1,
    ensures
        entries_valid(entries.push(entry)),
        table_of(entries.push(entry)) == table_of(entries).insert(
            entry.hash@,
            entry.count as nat,
        ),
{
    let after = entries.push(entry);
    let last = entries.len() as int;
    let expected = table_of(entries).insert(entry.hash@, entry.count as nat);
    assert(entries_valid(after)) by {
        assert forall|i: int, j: int| 0 <= i < j < after.len() implies (#[trigger] after[i]).hash@
            != (#[trigger] after[j]).hash@ by {
            if j == last {
                assert(entries[i].hash@ != entry.hash@);
            }
        }
    }
    assert forall|hash: Seq<u8>| listed(after, hash) == (listed(entries, hash) || hash
        == entry.hash@) by {
        if listed(entries, hash) {
            assert(after[place(entries, hash)].hash@ == hash);
        }
        if hash == entry.hash@ {
            assert(after[last].hash@ == hash);
        }
        if listed(after, hash) && place(after, hash) < last {
            assert(entries[place(after, hash)].hash@ == hash);
        }
    }
    assert forall|hash: Seq<u8>| listed(after, hash) implies table_of(after)[hash]
        == expected[hash] by {
        lemma_entry_in_table(after, place(after, hash));
        if place(after, hash) < last {
            lemma_entry_in_table(entries, place(after, hash));
        }
    }
    assert(table_of(after) =~= expected);
}

/// Moving the last entry into place `i` takes the hash of the entry that was
/// there out of the table and leaves the rest of the table alone.
proof fn lemma_entry_dropped(entries: Seq<RefEntry>, i: int)
    requires
        entries_valid(entries),
        0 <= i < entries.len(),
    ensures
        entries_valid(entries.update(i, entries.last()).drop_last()),
        table_of(entries.update(i, entries.last()).drop_last()) == table_of(entries).remove(
            entries[i].hash@,
        ),
{
    let after = entries.update(i, entries.last()).drop_last();
    let last = entries.len() - 1;
    let gone = entries[i].hash@;
    let expected = table_of(entries).remove(gone);
    // Where the entry at each place of `after` stood before.
    let origin = |k: int| if k == i { last } else { k };
    assert forall|k: int| 0 <= k < after.len() implies #[trigger] after[k] == entries[origin(
        k,
    )] by {}
    assert(entries_valid(after)) by {
        assert forall|a: int, b: int| 0 <= a < b < after.len() implies (#[trigger] after[a]).hash@
            != (#[trigger] after[b]).hash@ by {
            if origin(a) < origin(b) {
                assert(entries[origin(a)].hash@ != entries[origin(b)].hash@);
            } else {
                assert(entries[origin(b)].hash@ != entries[origin(a)].hash@);
            }
        }
    }
    assert forall|hash: Seq<u8>| listed(after, hash) == (listed(entries, hash) && hash
        != gone) by {
        if listed(entries, hash) && hash != gone {
            let from = place(entries, hash);
            if from == last {
                assert(after[i].hash@ == hash);
            } else {
                assert(after[from].hash@ == hash);
            }
        }
        if listed(after, hash) {
            let from = origin(place(after, hash));
            assert(entries[from].hash@ == hash);
            if from < i {
                assert(entries[from].hash@ != entries[i].hash@);
            } else {
                assert(entries[i].hash@ != entries[from].hash@);
            }
        }
    }
    assert forall|hash: Seq<u8>| listed(after, hash) implies table_of(after)[hash]
        == expected[hash] by {
        lemma_entry_in_table(after, place(after, hash));
        lemma_entry_in_table(entries, origin(place(after, hash)));
    }
    assert(table_of(after) =~= expected);
}

/// The bucket of a hash: its first four bytes as one number, the first byte
/// lowest.
spec fn bucket_of(hash: Seq<u8>) -> u64 {
    (hash[0] + 256 * hash[1] + 65536 * hash[2] + 16777216 * hash[3]) as u64
}

/// The entries of the bucket `bucket`: none where there is no such bucket.
spec fn entries_in(buckets: Map<u64, Vec<RefEntry>>, bucket: u64) -> Seq<RefEntry> {
    if buckets.contains_key(bucket) {
        buckets[bucket]@
    } else {
        Seq::empty()
    }
}

/// Whether every bucket holds valid entries, and only entries that belong
/// in it.
spec fn buckets_valid(buckets: Map<u64, Vec<RefEntry>>) -> bool {
    forall|bucket: u64| #[trigger]
        buckets.contains_key(bucket) ==> bucket_valid(buckets[bucket]@, bucket)
}

/// Whether `entries` are valid and all belong in the bucket `bucket`.
spec fn bucket_valid(entries: Seq<RefEntry>, bucket: u64) -> bool {
    &&& entries_valid(entries)
    &&& forall|i: int| 0 <= i < entries.len() ==> bucket_of((#[trigger] entries[i]).hash@) == bucket
}

/// The table that `buckets` stand for: each hash is looked for in its bucket.
spec fn table_of_buckets(buckets: Map<u64, Vec<RefEntry>>) -> Map<Seq<u8>, nat> {
    Map::new(
        |hash: Seq<u8>| table_of(entries_in(buckets, bucket_of(hash))).contains_key(hash),
        |hash: Seq<u8>| table_of(entries_in(buckets, bucket_of(hash)))[hash],
    )
}

/// The table of valid buckets is a valid table.
proof fn lemma_buckets_table_valid(buckets: Map<u64, Vec<RefEntry>>)
    requires
        buckets_valid(buckets),
    ensures
        table_valid(table_of_buckets(buckets)),
{
    let table = table_of_buckets(buckets);
    assert forall|hash: Seq<u8>| #[trigger] table.contains_key(hash) implies 1 <= table[hash]
        <= u32::MAX && hash.len() == 32 by {
        let bucket = bucket_of(hash);
        assert(buckets.contains_key(bucket));
        lemma_table_valid(buckets[bucket]@);
    }
}

/// Whether two tables say the same of `hash`.
spec fn agree_at(first: Map<Seq<u8>, nat>, second: Map<Seq<u8>, nat>, hash: Seq<u8>) -> bool {
    &&& first.contains_key(hash) == second.contains_key(hash)
    &&& first.contains_key(hash) ==> first[hash] == second[hash]
}

/// With new entries in the place of a bucket, the table says of the hashes
/// of that bucket what the new entries say, and of all others what it said
/// before. An empty bucket can as well be left out.
proof fn lemma_bucket_replaced(
    buckets: Map<u64, Vec<RefEntry>>,
    home: u64,
    entries: Vec<RefEntry>,
    expected: Map<Seq<u8>, nat>,
)
    requires
        buckets_valid(buckets),
        bucket_valid(entries@, home),
        forall|hash: Seq<u8>|
            bucket_of(hash) == home ==> #[trigger] agree_at(expected, table_of(entries@), hash),
        forall|hash: Seq<u8>|
            bucket_of(hash) != home ==> #[trigger] agree_at(
                expected,
                table_of_buckets(buckets),
                hash,
            ),
    ensures
        buckets_valid(buckets.insert(home, entries)),
        table_of_buckets(buckets.insert(home, entries)) == expected,
        entries@.len() == 0 ==> buckets_valid(buckets.remove(home)) && table_of_buckets(
            buckets.remove(home),
        ) == expected,
{
    let replaced = buckets.insert(home, entries);
    assert forall|hash: Seq<u8>| #[trigger]
        table_of_buckets(replaced).contains_key(hash) == expected.contains_key(hash) && (
        expected.contains_key(hash) ==> table_of_buckets(replaced)[hash] == expected[hash]) by {
        if bucket_of(hash) == home {
            assert(agree_at(expected, table_of(entries@), hash));
        } else {
            assert(agree_at(expected, table_of_buckets(buckets), hash));
            assert(entries_in(replaced, bucket_of(hash)) == entries_in(buckets, bucket_of(hash)));
        }
    }
    assert(table_of_buckets(replaced) =~= expected);
    if entries@.len() == 0 {
        let dropped = buckets.remove(home);
        assert(entries_in(dropped, home) =~= entries@);
        assert forall|hash: Seq<u8>| #[trigger]
            table_of_buckets(dropped).contains_key(hash) == expected.contains_key(hash) && (
            expected.contains_key(hash) ==> table_of_buckets(dropped)[hash] == expected[hash]) by {
            if bucket_of(hash) == home {
                assert(agree_at(expected, table_of(entries@), hash));
            } else {
                assert(agree_at(expected, table_of_buckets(buckets), hash));
                assert(entries_in(dropped, bucket_of(hash)) == entries_in(
                    buckets,
                    bucket_of(hash),
                ));
            }
        }
        assert(table_of_buckets(dropped) =~= expected);
    }
}

/// The reference counts of the chunks of one node.
pub struct RefCounter {
    buckets: HashMap<u64, Vec<RefEntry>>,
}

impl View for RefCounter {
    type V = Map<Seq<u8>, nat>;

    closed spec fn view(&self) -> Map<Seq<u8>, nat> {
        table_of_buckets(self.buckets@)
    }
}

/// The bucket of a hash.
fn bucket(hash: &[u8]) -> (bucket: u64)
    requires
        hash@.len() >= 4,
    ensures
        bucket == bucket_of(hash@),
{
    let b0: u64 = hash[0] as u64;
    let b1: u64 = hash[1] as u64;
    let b2: u64 = hash[2] as u64;
    let b3: u64 = hash[3] as u64;
    b0 + 256 * b1 + 65536 * b2 + 16777216 * b3
}

/// The place of the entry for `hash` among `entries`, if there is one.
fn find(entries: &Vec<RefEntry>, hash: &[u8]) -> (found: Option<usize>)
    ensures
        match found {
            Some(i) => i < entries@.len() && entries@[i as int].hash@ == hash@,
            None => !listed(entries@, hash@),
        },
{
    let mut i: usize = 0;
    while i < entries.len()
        invariant
            0 <= i <= entries@.len(),
            forall|k: int| 0 <= k < i ==> (#[trigger] entries@[k]).hash@ != hash@,
        decreases entries@.len() - i,
    {
        if bytes_equal(entries[i].hash.as_slice(), hash) {
            return Some(i);
        }
        i = i + 1;
    }
    None
}

impl RefCounter {
    /// Whether the table is sound inside: every entry is in the bucket of
    /// its hash, no bucket lists a hash twice, and no count is zero. Every
    /// table that this module hands out is.
    pub closed spec fn wf(&self) -> bool {
        buckets_valid(self.buckets@)
    }

    /// A sound table holds positive counts of 32-byte hashes only.
    pub proof fn lemma_valid(&self)
        requires
            self.wf(),
        ensures
            table_valid(self@),
    {
        lemma_buckets_table_valid(self.buckets@);
    }

    /// A table without references.
    pub fn new() -> (counter: RefCounter)
        ensures
            counter.wf(),
            counter@ == Map::<Seq<u8>, nat>::empty(),
    {
        let counter = RefCounter { buckets: HashMap::new() };
        assert(counter@ =~= Map::<Seq<u8>, nat>::empty());
        counter
    }

    /// The number of references to `hash`: 0 where it has none.
    pub fn count(&self, hash: &[u8]) -> (count: u32)
        requires
            self.wf(),
        ensures
            count == count_of(self@, hash@),
    {
        proof {
            self.lemma_valid();
        }
        if hash.len() != 32 {
            return 0;
        }
        match self.buckets.get(&bucket(hash)) {
            Some(entries) => match find(entries, hash) {
                Some(i) => {
                    proof {
                        lemma_entry_in_table(entries@, i as int);
                    }
                    entries[i].count
                },
                None => 0,
            },
            None => 0,
        }
    }

    /// Whether any file refers to `hash`.
    pub fn contains(&self, hash: &[u8]) -> (referenced: bool)
        requires
            self.wf(),
        ensures
            referenced == self@.contains_key(hash@),
    {
        proof {
            self.lemma_valid();
        }
        self.count(hash) != 0
    }

    /// Adds one reference to `hash`, with a fresh entry of 1 where it had
    /// none. The count must have room for one more.
    pub fn increment(&mut self, hash: &[u8; 32])
        requires
            old(self).wf(),
            count_of(old(self)@, hash@) < u32::MAX,
        ensures
            final(self).wf(),
            final(self)@ == incremented(old(self)@, hash@),
    {
        let home = bucket(hash.as_slice());
        let ghost before = self.buckets@;
        let mut entries = match self.buckets.remove(&home) {
            Some(entries) => entries,
            None => Vec::new(),
        };
        assert(entries@ =~= entries_in(before, home));
        match find(&entries, hash.as_slice()) {
            Some(i) => {
                let entry = entries[i];
                proof {
                    lemma_entry_in_table(entries@, i as int);
                    lemma_count_set(entries@, i as int, (entry.count + 1) as u32);
                }
                entries.set(i, RefEntry { hash: entry.hash, count: entry.count + 1 });
            },
            None => {
                let entry = RefEntry { hash: *hash, count: 1 };
                proof {
                    lemma_entry_added(entries@, entry);
                }
                entries.push(entry);
            },
        }
        proof {
            let expected = incremented(old(self)@, hash@);
            assert forall|other: Seq<u8>| bucket_of(other) == home implies #[trigger] agree_at(
                expected,
                table_of(entries@),
                other,
            ) by {}
            assert forall|other: Seq<u8>| bucket_of(other) != home implies #[trigger] agree_at(
                expected,
                table_of_buckets(before),
                other,
            ) by {}
            lemma_bucket_replaced(before, home, entries, expected);
            assert(before.remove(home).insert(home, entries) =~= before.insert(home, entries));
        }
        self.buckets.insert(home, entries);
    }

    /// Takes one reference to `hash` away and says whether it was the last:
    /// then the entry is gone, and the chunk's file is to be deleted. A hash
    /// without references is left as it is.
    pub fn decrement(&mut self, hash: &[u8]) -> (last: bool)
        requires
            old(self).wf(),
        ensures
            final(self).wf(),
            final(self)@ == decremented(old(self)@, hash@),
            last == (count_of(old(self)@, hash@) == 1),
    {
        proof {
            self.lemma_valid();
        }
        if hash.len() != 32 {
            assert(self@ =~= decremented(self@, hash@));
            return false;
        }
        let home = bucket(hash);
        let ghost before = self.buckets@;
        let mut entries = match self.buckets.remove(&home) {
            Some(entries) => entries,
            None => {
                assert(self@ =~= decremented(self@, hash@));
                return false;
            },
        };
        let last = match find(&entries, hash) {
            Some(i) => {
                let entry = entries[i];
                proof {
                    lemma_entry_in_table(entries@, i as int);
                }
                if entry.count == 1 {
                    proof {
                        lemma_entry_dropped(entries@, i as int);
                    }
                    entries.swap_remove(i);
                    true
                } else {
                    proof {
                        lemma_count_set(entries@, i as int, (entry.count - 1) as u32);
                    }
                    entries.set(i, RefEntry { hash: entry.hash, count: entry.count - 1 });
                    false
                }
            },
            None => false,
        };
        proof {
            let expected = decremented(old(self)@, hash@);
            assert forall|other: Seq<u8>| bucket_of(other) == home implies #[trigger] agree_at(
                expected,
                table_of(entries@),
                other,
            ) by {}
            assert forall|other: Seq<u8>| bucket_of(other) != home implies #[trigger] agree_at(
                expected,
                table_of_buckets(before),
                other,
            ) by {}
            lemma_bucket_replaced(before, home, entries, expected);
            assert(before.remove(home).insert(home, entries) =~= before.insert(home, entries));
            assert(before.remove(home).remove(home) =~= before.remove(home));
        }
        if entries.len() > 0 {
            self.buckets.insert(home, entries);
        }
        last
    }
}

} // verus!
