//! What holds of a node and its disk, whatever they hold.
//!
//! Each law is stated of the steps of a `World` and proved for every world,
//! every payload and every hash.

use crate::cell::{is_orphan, is_sweep, points_at, CellView};
use crate::digest::{blake3_digest, hex_encode, lemma_decode_encode};
use crate::error::StorageError;
use crate::file_info::FileInfoView;
use crate::layout::{
    chunk_path, lemma_chunk_path_injective, lemma_metadata_path_injective, metadata_path, shard_dir,
};
use crate::model::{content_addressed, file_name, is_victim, names_of, World};
use crate::refcount::{count_of, incremented};
use vstd::prelude::*;

verus! {

/// Where `data` has been stored at least once, its file is there, its hash
/// has gained as many references as there were stores, and nothing else has
/// changed: only the first store can have written.
pub proof fn lemma_store_times(world: World, data: Seq<u8>, n: nat)
    requires
        n >= 1,
    ensures
        ({
            let hash = blake3_digest(data)@;
            let path = chunk_path(hash);
            let after = world.store_times(data, n);
            &&& after.cell.refs == world.cell.refs.insert(hash, count_of(world.cell.refs, hash) + n)
            &&& after.cell == (CellView { refs: after.cell.refs, ..world.cell })
            &&& after.chunks == world.store(data).chunks
            &&& after.chunks.contains_key(path)
            &&& after.records == world.records
        }),
    decreases n,
{
    let hash = blake3_digest(data)@;
    let refs = world.cell.refs;
    if n == 1 {
        assert(world.store_times(data, 0) == world);
        assert(world.store_times(data, 1) == world.store(data));
    } else {
        lemma_store_times(world, data, (n - 1) as nat);
        let before = world.store_times(data, (n - 1) as nat);
        assert(world.store_times(data, n) == before.store(data));
        assert(incremented(before.cell.refs, hash) =~= refs.insert(hash, count_of(refs, hash) + n));
    }
}

/// Releasing fewer references than a hash has only lowers its count.
pub proof fn lemma_release_some(world: World, hash: Seq<u8>, n: nat)
    requires
        n < count_of(world.cell.refs, hash),
    ensures
        ({
            let after = world.release_times(hash, n);
            &&& count_of(after.cell.refs, hash) == count_of(world.cell.refs, hash) - n
            &&& after.cell.refs == world.cell.refs.insert(
                hash,
                (count_of(world.cell.refs, hash) - n) as nat,
            )
            &&& after.cell == (CellView { refs: after.cell.refs, ..world.cell })
            &&& after.chunks == world.chunks
            &&& after.records == world.records
        }),
    decreases n,
{
    if n > 0 {
        lemma_release_some(world, hash, (n - 1) as nat);
        let before = world.release_times(hash, (n - 1) as nat);
        assert(world.release_times(hash, n) == before.release(hash));
    }
}

/// Releasing every reference that a hash has removes its entry and its file.
pub proof fn lemma_release_all(world: World, hash: Seq<u8>)
    requires
        count_of(world.cell.refs, hash) >= 1,
    ensures
        ({
            let after = world.release_times(hash, count_of(world.cell.refs, hash));
            &&& after.cell.refs == world.cell.refs.remove(hash)
            &&& after.chunks == world.chunks.remove(chunk_path(hash))
        }),
{
    let n = count_of(world.cell.refs, hash);
    lemma_release_some(world, hash, (n - 1) as nat);
    let before = world.release_times(hash, (n - 1) as nat);
    assert(world.release_times(hash, n) == before.release(hash));
}

/// Deduplication. However often the same content is stored, and for
/// whichever files, it is on disk once: the first store leaves its file in
/// place and a second store leaves the disk as it was. Each store counts:
/// after two the hash has two references more than before, exactly two where
/// it had none.
pub proof fn law_dedup(world: World, data: Seq<u8>)
    ensures
        ({
            let hash = blake3_digest(data)@;
            let once = world.store(data);
            let twice = once.store(data);
            &&& once.chunks.contains_key(chunk_path(hash))
            &&& twice.chunks == once.chunks
            &&& count_of(twice.cell.refs, hash) == count_of(world.cell.refs, hash) + 2
            &&& !world.cell.refs.contains_key(hash) ==> twice.cell.refs[hash] == 2
        }),
{
}

/// Round trip. What was stored is what is retrieved under its hash, unless
/// the path of the hash was already taken by other content.
pub proof fn law_round_trip(world: World, data: Seq<u8>)
    requires
        ({
            let path = chunk_path(blake3_digest(data)@);
            world.chunks.contains_key(path) ==> world.chunks[path] == data
        }),
    ensures
        world.store(data).retrieve(blake3_digest(data)@) == Ok::<Seq<u8>, StorageError>(data),
{
}

/// Stores never disturb other chunks: after a store, every other chunk is
/// retrieved as before.
pub proof fn law_store_leaves_others(world: World, data: Seq<u8>, other: Seq<u8>)
    requires
        other.len() == 32,
        other != blake3_digest(data)@,
    ensures
        world.store(data).retrieve(other) == world.retrieve(other),
        count_of(world.store(data).cell.refs, other) == count_of(world.cell.refs, other),
{
    if chunk_path(other) == chunk_path(blake3_digest(data)@) {
        lemma_chunk_path_injective(other, blake3_digest(data)@);
    }
}

/// Content addressing. On a disk where every chunk file holds the content
/// that its path names, it stays so whatever is stored, released or swept.
pub proof fn law_content_addressed(
    world: World,
    data: Seq<u8>,
    hash: Seq<u8>,
    paths: Seq<Seq<char>>,
    victims: Seq<usize>,
)
    requires
        content_addressed(world.chunks),
    ensures
        content_addressed(world.store(data).chunks),
        content_addressed(world.release(hash).chunks),
        content_addressed(world.sweep(paths, victims).chunks),
{
    let stored = world.store(data).chunks;
    assert forall|other: Seq<u8>|
        other.len() == 32 && stored.contains_key(
            #[trigger] chunk_path(other),
        ) implies blake3_digest(stored[chunk_path(other)])@ == other by {
        if chunk_path(other) == chunk_path(blake3_digest(data)@) {
            lemma_chunk_path_injective(other, blake3_digest(data)@);
        }
    }
}

/// Reference counts. After `n` stores of content that nothing referred to,
/// `n` releases of its hash leave neither an entry nor a file; after one
/// release less the file is still there, under one last reference.
pub proof fn law_reference_counts(world: World, data: Seq<u8>, n: nat)
    requires
        n >= 1,
        !world.cell.refs.contains_key(blake3_digest(data)@),
    ensures
        ({
            let hash = blake3_digest(data)@;
            let path = chunk_path(hash);
            let stored = world.store_times(data, n);
            let balanced = stored.release_times(hash, n);
            let one_left = stored.release_times(hash, (n - 1) as nat);
            &&& count_of(stored.cell.refs, hash) == n
            &&& !balanced.cell.refs.contains_key(hash)
            &&& !balanced.chunks.contains_key(path)
            &&& balanced.cell.refs == world.cell.refs
            &&& count_of(one_left.cell.refs, hash) == 1
            &&& one_left.chunks.contains_key(path)
        }),
{
    let hash = blake3_digest(data)@;
    let stored = world.store_times(data, n);
    lemma_store_times(world, data, n);
    assert(count_of(stored.cell.refs, hash) == n);
    lemma_release_all(stored, hash);
    lemma_release_some(stored, hash, (n - 1) as nat);
    assert(stored.cell.refs.remove(hash) =~= world.cell.refs);
}

/// The name of a chunk's file is its hash in hexadecimal.
pub proof fn lemma_chunk_file_name(hash: Seq<u8>)
    requires
        hash.len() == 32,
    ensures
        file_name(chunk_path(hash)) == hex_encode(hash),
{
    reveal_strlit("chunks/");
    reveal_strlit("/");
    let name = hex_encode(hash);
    let head = shard_dir(hash) + "/"@;
    assert(chunk_path(hash) =~= head + name);
    assert forall|i: int| 0 <= i < name.len() implies #[trigger] name[i] != '/' by {
        let byte = hash[i / 2] as int;
        assert(0 <= byte / 16 < 16 && 0 <= byte % 16 < 16);
    }
    lemma_file_name_of_suffix(head, name, name.len());
    assert(name.take(name.len() as int) =~= name);
}

/// After a `/`, the file name of a path grows with every further character
/// that is no `/`.
proof fn lemma_file_name_of_suffix(head: Seq<char>, name: Seq<char>, n: nat)
    requires
        head.len() > 0,
        head.last() == '/',
        n <= name.len(),
        forall|i: int| 0 <= i < name.len() ==> #[trigger] name[i] != '/',
    ensures
        file_name(head + name.take(n as int)) == name.take(n as int),
    decreases n,
{
    if n == 0 {
        assert(head + name.take(0) =~= head);
        assert(file_name(head) =~= Seq::<char>::empty());
        assert(name.take(0) =~= Seq::<char>::empty());
    } else {
        lemma_file_name_of_suffix(head, name, (n - 1) as nat);
        let path = head + name.take(n as int);
        assert(path.last() == name[n - 1]);
        assert(path.drop_last() =~= head + name.take(n - 1));
        assert(name.take(n - 1).push(name[n - 1]) =~= name.take(n as int));
    }
}

/// A file that bears the name of a chunk is garbage exactly if no file
/// refers to the chunk.
pub proof fn lemma_orphan_by_name(refs: Map<Seq<u8>, nat>, hash: Seq<u8>)
    requires
        hash.len() == 32,
    ensures
        file_name(chunk_path(hash)) == hex_encode(hash),
        is_orphan(refs, hex_encode(hash)) == !refs.contains_key(hash),
{
    lemma_chunk_file_name(hash);
    lemma_decode_encode(hash);
}

/// Garbage collection spares what is referenced: a sweep leaves the file of
/// every chunk that some file refers to where it is, so that the chunk is
/// retrieved after the sweep as before.
pub proof fn law_sweep_spares_referenced(
    world: World,
    paths: Seq<Seq<char>>,
    victims: Seq<usize>,
    hash: Seq<u8>,
)
    requires
        is_sweep(world.cell.refs, names_of(paths), victims),
        world.cell.refs.contains_key(hash),
        hash.len() == 32,
    ensures
        world.chunks.contains_key(chunk_path(hash)) ==> world.sweep(
            paths,
            victims,
        ).chunks.contains_key(chunk_path(hash)),
        world.sweep(paths, victims).retrieve(hash) == world.retrieve(hash),
        world.sweep(paths, victims).cell == world.cell,
{
    let path = chunk_path(hash);
    lemma_orphan_by_name(world.cell.refs, hash);
    if is_victim(paths, victims, path) {
        let k = choose|k: int|
            0 <= k < victims.len() && (#[trigger] victims[k]) < paths.len() && paths[victims[k] as int]
                == path;
        assert(is_orphan(world.cell.refs, names_of(paths)[victims[k] as int]));
    }
}

/// Garbage collection removes what is not referenced: a sweep that finds the
/// file of a chunk to which no file refers deletes it.
pub proof fn law_sweep_removes_unreferenced(
    world: World,
    paths: Seq<Seq<char>>,
    victims: Seq<usize>,
    hash: Seq<u8>,
)
    requires
        is_sweep(world.cell.refs, names_of(paths), victims),
        !world.cell.refs.contains_key(hash),
        hash.len() == 32,
        paths.contains(chunk_path(hash)),
    ensures
        !world.sweep(paths, victims).chunks.contains_key(chunk_path(hash)),
        world.sweep(paths, victims).retrieve(hash) == Err::<Seq<u8>, StorageError>(
            StorageError::NotFound,
        ),
{
    let path = chunk_path(hash);
    lemma_orphan_by_name(world.cell.refs, hash);
    let i = choose|i: int| 0 <= i < paths.len() && paths[i] == path;
    assert(is_orphan(world.cell.refs, names_of(paths)[i]));
    assert(points_at(victims, i));
    let k = choose|k: int| 0 <= k < victims.len() && (#[trigger] victims[k]) == i;
    assert(victims[k] < paths.len() && paths[victims[k] as int] == path);
}

/// Garbage collection removes nothing else: a file is gone after a sweep
/// only if the sweep found it and its name stands for a hash to which no
/// file refers.
pub proof fn law_sweep_removes_only_orphans(
    world: World,
    paths: Seq<Seq<char>>,
    victims: Seq<usize>,
    path: Seq<char>,
)
    requires
        is_sweep(world.cell.refs, names_of(paths), victims),
        world.chunks.contains_key(path),
        !world.sweep(paths, victims).chunks.contains_key(path),
    ensures
        paths.contains(path),
        is_orphan(world.cell.refs, file_name(path)),
{
    let k = choose|k: int|
        0 <= k < victims.len() && (#[trigger] victims[k]) < paths.len() && paths[victims[k] as int]
            == path;
    assert(is_orphan(world.cell.refs, names_of(paths)[victims[k] as int]));
}

/// Two sweeps of the same names under the same table agree on every place
/// that both have.
proof fn lemma_sweeps_agree(
    refs: Map<Seq<u8>, nat>,
    names: Seq<Seq<char>>,
    first: Seq<usize>,
    second: Seq<usize>,
    n: nat,
)
    requires
        is_sweep(refs, names, first),
        is_sweep(refs, names, second),
        n <= first.len(),
        n <= second.len(),
    ensures
        forall|k: int| 0 <= k < n ==> first[k] == second[k],
    decreases n,
{
    if n > 0 {
        lemma_sweeps_agree(refs, names, first, second, (n - 1) as nat);
        let last = n - 1;
        let in_first = first[last] as int;
        assert(is_orphan(refs, names[in_first]));
        assert(points_at(second, in_first));
        let l = choose|l: int| 0 <= l < second.len() && (#[trigger] second[l]) == in_first;
        if l < last {
            assert(first[l] == second[l]);
            assert(first[l] < first[last]);
        }
        if last < l {
            assert(second[last] < second[l]);
        }
        let in_second = second[last] as int;
        assert(is_orphan(refs, names[in_second]));
        assert(points_at(first, in_second));
        let m = choose|m: int| 0 <= m < first.len() && (#[trigger] first[m]) == in_second;
        if m < last {
            assert(first[m] == second[m]);
            assert(second[m] < second[last]);
        }
        if last < m {
            assert(first[last] < first[m]);
        }
    }
}

/// No sweep is longer than another of the same names under the same table.
proof fn lemma_sweep_no_longer(
    refs: Map<Seq<u8>, nat>,
    names: Seq<Seq<char>>,
    first: Seq<usize>,
    second: Seq<usize>,
)
    requires
        is_sweep(refs, names, first),
        is_sweep(refs, names, second),
    ensures
        first.len() <= second.len(),
{
    if first.len() > second.len() {
        let n = second.len();
        lemma_sweeps_agree(refs, names, first, second, n);
        let extra = first[n as int] as int;
        assert(is_orphan(refs, names[extra]));
        assert(points_at(second, extra));
        let l = choose|l: int| 0 <= l < second.len() && (#[trigger] second[l]) == extra;
        assert(first[l] == second[l]);
        assert(first[l] < first[n as int]);
    }
}

/// The garbage is determined: for given names and a given table there is one
/// answer that `collect_garbage` can give, and so one number of files that a
/// sweep removes.
pub proof fn law_sweep_determined(
    refs: Map<Seq<u8>, nat>,
    names: Seq<Seq<char>>,
    first: Seq<usize>,
    second: Seq<usize>,
)
    requires
        is_sweep(refs, names, first),
        is_sweep(refs, names, second),
    ensures
        first == second,
{
    lemma_sweep_no_longer(refs, names, first, second);
    lemma_sweep_no_longer(refs, names, second, first);
    lemma_sweeps_agree(refs, names, first, second, first.len());
    assert(first =~= second);
}

/// Of two names of which the second alone is garbage, the sweep is the
/// second place alone.
proof fn lemma_sweep_second_of_two(
    refs: Map<Seq<u8>, nat>,
    names: Seq<Seq<char>>,
    victims: Seq<usize>,
)
    requires
        names.len() == 2,
        !is_orphan(refs, names[0]),
        is_orphan(refs, names[1]),
        is_sweep(refs, names, victims),
    ensures
        victims == seq![1usize],
{
    let only = seq![1usize];
    assert(is_sweep(refs, names, only)) by {
        assert forall|i: int| 0 <= i < names.len() && is_orphan(
            refs,
            #[trigger] names[i],
        ) implies points_at(only, i) by {
            assert(only[0] == i);
        }
    }
    law_sweep_determined(refs, names, victims, only);
}

/// Garbage collection, in the small. With the files of two chunks on disk,
/// one referenced and one not, a sweep picks the unreferenced one and no
/// other: it removes one file, that one, and the referenced chunk is
/// retrieved as before.
pub proof fn law_sweep_of_two(
    world: World,
    kept: Seq<u8>,
    orphan: Seq<u8>,
    victims: Seq<usize>,
)
    requires
        kept.len() == 32,
        orphan.len() == 32,
        world.cell.refs.contains_key(kept),
        !world.cell.refs.contains_key(orphan),
        is_sweep(
            world.cell.refs,
            names_of(seq![chunk_path(kept), chunk_path(orphan)]),
            victims,
        ),
    ensures
        victims == seq![1usize],
        victims.len() == 1,
        world.sweep(seq![chunk_path(kept), chunk_path(orphan)], victims).chunks
            == world.chunks.remove(chunk_path(orphan)),
        world.sweep(seq![chunk_path(kept), chunk_path(orphan)], victims).retrieve(kept)
            == world.retrieve(kept),
{
    let paths = seq![chunk_path(kept), chunk_path(orphan)];
    let names = names_of(paths);
    lemma_orphan_by_name(world.cell.refs, kept);
    lemma_orphan_by_name(world.cell.refs, orphan);
    assert(names[0] == hex_encode(kept) && names[1] == hex_encode(orphan));
    lemma_sweep_second_of_two(world.cell.refs, names, victims);
    assert forall|path: Seq<char>| is_victim(paths, victims, path) == (path == chunk_path(
        orphan,
    )) by {
        if path == chunk_path(orphan) {
            assert(victims[0] < paths.len() && paths[victims[0] as int] == path);
        }
    }
    assert(world.sweep(paths, victims).chunks =~= world.chunks.remove(chunk_path(orphan)));
    law_sweep_spares_referenced(world, paths, victims, kept);
}

/// Putting a record leaves the records of other files as they were.
pub proof fn law_put_leaves_others(world: World, info: FileInfoView, other: Seq<char>)
    requires
        other != info.file_id,
    ensures
        world.put(info).get(other) == world.get(other),
{
    if metadata_path(other) == metadata_path(info.file_id) {
        lemma_metadata_path_injective(other, info.file_id);
    }
}

/// The cache never disagrees with the disk. Where they agree, they agree
/// after a record was put, after one was got, and after the cache was
/// emptied; and getting a record gives the same whether or not it had to be
/// loaded.
pub proof fn law_cache_agrees(world: World, info: FileInfoView, file_id: Seq<char>)
    requires
        world.cache_agrees(),
    ensures
        world.put(info).cache_agrees(),
        world.fetch(file_id).cache_agrees(),
        world.fetch(file_id).get(file_id) == world.get(file_id),
        world.evict().cache_agrees(),
{
    let put = world.put(info);
    assert forall|id: Seq<char>| #[trigger]
        put.cell.cache.contains_key(id) implies put.records.contains_key(metadata_path(id))
        && put.records[metadata_path(id)] == put.cell.cache[id] by {
        if id != info.file_id && metadata_path(id) == metadata_path(info.file_id) {
            lemma_metadata_path_injective(id, info.file_id);
        }
    }
    if !world.cell.cache.contains_key(file_id) && world.records.contains_key(
        metadata_path(file_id),
    ) {
        let record = world.records[metadata_path(file_id)];
        lemma_metadata_path_injective(file_id, record.file_id);
    }
}

/// Metadata round trip. A record that was put is the record that is got
/// under its file id, in every field: from the cache, and from its file once
/// the cache has been emptied.
pub proof fn law_metadata_round_trip(world: World, info: FileInfoView)
    ensures
        world.put(info).get(info.file_id) == Some(info),
        world.put(info).evict().get(info.file_id) == Some(info),
{
}

} // verus!
