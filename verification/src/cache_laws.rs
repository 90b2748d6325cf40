//! What holds of the cache as a map from keys to values, of what it keeps
//! on disk, and of what it finds there again.

use crate::cache::{sync_plan, CacheView, LookupView};
use crate::scan::ScanView;
use crate::store::{has_key, lemma_with_state, lemma_without, state_of, without, SlotView};
use crate::disk::{generation_name, DirItemView};
use crate::opts::Encoding;
use crate::disk::{generation_path, lemma_run_concat, apply, manifest_path, run, FsOpView, Node};
use crate::disk_laws::{
    is_owned_path, lemma_frame, lemma_keys_apart, lemma_paths_differ, op_within, plan_within,
};
use crate::entry::{expired, survivors, write_plan, written, EntryView};
use crate::entry_laws::{
    coherent, file_at, generation_at, lemma_flush_within, lemma_newest_is_written,
    lemma_owned_paths, lemma_read_back, lemma_write_rotates, lemma_write_within,
};
use crate::manifest::GenerationView;
use crate::manifest_laws::ages_fit;
use crate::opts::{GenerationOptView, MemPullOpt, MemPushOpt};
use crate::path_laws::lemma_relativize_round_trip;
use crate::path_util::safe_key;
use crate::time::MAX_NANOS;
use vstd::prelude::*;

verus! {

/// Insert, then get. After `data` was inserted under a safe key, a lookup
/// of the key before the value expires finds the value. Where the value
/// is held in memory, that copy is the data. Where it is on disk only, the
/// lookup asks for the file of generation 0 in the entry directory of the
/// key, which holds the data once the operations of the insert were
/// carried out, whatever the disk held before; and the data is held in
/// memory once it was handed in to be kept.
pub proof fn lemma_insert_then_get(
    cache: CacheView,
    disk: Map<Seq<u8>, Node>,
    key: Seq<u8>,
    data: Seq<u8>,
    push: MemPushOpt,
    gen: GenerationOptView,
    now: nat,
    later: nat,
)
    requires
        cache.wf(),
        safe_key(key),
        !expired(now, gen.ttl, later),
    ensures
        ({
            let stored = cache.after_insert(key, data, push, gen, now);
            let dir = cache.dir_of(key);
            let after = run(disk, cache.insert_plan(key, data, push, gen, now));
            &&& stored.wf()
            &&& has_key(stored.entries, key)
            &&& stored.after_lookup(key, gen.ttl, later) == stored
            &&& push != MemPushOpt::PassthroughWrite ==> stored.lookup(key, gen.ttl, later)
                == LookupView::Cached && stored.cached(key) == Some(data)
            &&& push == MemPushOpt::PassthroughWrite ==> stored.lookup(key, gen.ttl, later) == (
            LookupView::Load { path: generation_path(dir, 0) }) && generation_at(after, dir, 0)
                == Some(data) && stored.after_loaded(
                key,
                data,
                MemPullOpt::KeepInMemoryOnRead,
            ).cached(key) == Some(data)
        }),
{
    let stored = cache.after_insert(key, data, push, gen, now);
    let dir = cache.dir_of(key);
    let entry = cache.state_or_fresh(key).after_store(
        data,
        push,
        gen.old_gen_encoding,
        gen.max_generations,
        now,
        has_key(cache.entries, key),
    );
    lemma_with_state(cache.entries, key, entry);
    assert(stored.wf()) by {
        assert forall|i: int| 0 <= i < stored.entries.len() implies safe_key(
            (#[trigger] stored.entries[i]).key,
        ) by {
            if stored.entries[i].key != key {
                assert(stored.entries[i].key == cache.entries[i].key);
            }
        }
    }
    if push == MemPushOpt::PassthroughWrite {
        let gens = cache.state_or_fresh(key).on_disk;
        let write = write_plan(dir, gens, data, gen.old_gen_encoding, gen.max_generations, now);
        let first = seq![FsOpView::CreateDirAll { path: dir }];
        assert(cache.insert_plan(key, data, push, gen, now) == first + write);
        lemma_run_concat(disk, first, write);
        lemma_newest_is_written(
            run(disk, first),
            dir,
            gens,
            data,
            gen.old_gen_encoding,
            gen.max_generations,
            now,
        );
        assert(entry.on_disk[0].age == now);
        let loaded = entry.with_loaded(data);
        lemma_with_state(stored.entries, key, loaded);
    }
}

/// Insert, then remove, then get; and remove on a key that is not there.
/// A key that was removed is absent whenever it is looked up, and removing
/// it once more finds nothing to remove and changes nothing; the same
/// holds of any key that the cache does not hold.
pub proof fn lemma_removed_is_absent(cache: CacheView, key: Seq<u8>, ttl: nat, now: nat)
    requires
        cache.wf(),
    ensures
        ({
            let removed = CacheView { entries: without(cache.entries, key), ..cache };
            &&& removed.wf()
            &&& !has_key(removed.entries, key)
            &&& removed.lookup(key, ttl, now) == LookupView::Absent
            &&& removed.after_lookup(key, ttl, now) == removed
            &&& without(removed.entries, key) == removed.entries
        }),
        !has_key(cache.entries, key) ==> without(cache.entries, key) == cache.entries,
{
    let removed = CacheView { entries: without(cache.entries, key), ..cache };
    if has_key(cache.entries, key) {
        let at = choose|i: int| 0 <= i < cache.entries.len() && (#[trigger] cache.entries[i]).key
            == key;
        lemma_without(cache.entries, at);
        assert forall|j: int| 0 <= j < removed.entries.len() implies safe_key(
            (#[trigger] removed.entries[j]).key,
        ) by {
            let m = choose|m: int|
                0 <= m < cache.entries.len() && (#[trigger] cache.entries[m]).key
                    == removed.entries[j].key;
        }
    }
}

/// Removing a key leaves every other key as it was.
pub proof fn lemma_remove_spares_others(cache: CacheView, key: Seq<u8>, other: Seq<u8>)
    requires
        cache.wf(),
        other != key,
    ensures
        state_of(without(cache.entries, key), other) == state_of(cache.entries, other),
{
    if has_key(cache.entries, key) {
        let at = choose|i: int| 0 <= i < cache.entries.len() && (#[trigger] cache.entries[i]).key
            == key;
        lemma_without(cache.entries, at);
    }
}

/// Inserting under one key leaves every other key as it was.
pub proof fn lemma_insert_spares_others(
    cache: CacheView,
    key: Seq<u8>,
    other: Seq<u8>,
    data: Seq<u8>,
    push: MemPushOpt,
    gen: GenerationOptView,
    now: nat,
)
    requires
        cache.wf(),
        other != key,
    ensures
        state_of(cache.after_insert(key, data, push, gen, now).entries, other) == state_of(
            cache.entries,
            other,
        ),
{
    let entry = cache.state_or_fresh(key).after_store(
        data,
        push,
        gen.old_gen_encoding,
        gen.max_generations,
        now,
        has_key(cache.entries, key),
    );
    lemma_with_state(cache.entries, key, entry);
}

/// The count of generations. Where the entry directory of a key holds the
/// files of the generations of the key and of no other, and these are no
/// more than are kept, the same holds after an insert under the key, once
/// its operations were carried out: so after any number of inserts, the
/// directory holds no more generation files than are kept. After an
/// insert that writes, the file of generation 0 holds exactly the data
/// that was inserted.
pub proof fn lemma_insert_keeps_count(
    cache: CacheView,
    disk: Map<Seq<u8>, Node>,
    key: Seq<u8>,
    data: Seq<u8>,
    push: MemPushOpt,
    gen: GenerationOptView,
    now: nat,
)
    requires
        cache.wf(),
        safe_key(key),
        gen.max_generations >= 1,
        cache.state_or_fresh(key).on_disk.len() <= gen.max_generations,
        coherent(disk, cache.dir_of(key), cache.state_or_fresh(key).on_disk.len()),
    ensures
        ({
            let stored = cache.after_insert(key, data, push, gen, now);
            let dir = cache.dir_of(key);
            let after = run(disk, cache.insert_plan(key, data, push, gen, now));
            &&& state_of(stored.entries, key) is Some
            &&& stored.state_or_fresh(key).on_disk.len() <= gen.max_generations
            &&& coherent(after, dir, stored.state_or_fresh(key).on_disk.len())
            &&& push != MemPushOpt::MemoryOnly ==> generation_at(after, dir, 0) == Some(data)
        }),
{
    let stored = cache.after_insert(key, data, push, gen, now);
    let dir = cache.dir_of(key);
    let before = cache.state_or_fresh(key);
    let entry = before.after_store(
        data,
        push,
        gen.old_gen_encoding,
        gen.max_generations,
        now,
        has_key(cache.entries, key),
    );
    lemma_with_state(cache.entries, key, entry);
    if push == MemPushOpt::MemoryOnly {
        assert(cache.insert_plan(key, data, push, gen, now) =~= Seq::<FsOpView>::empty());
    } else {
        let write = write_plan(
            dir,
            before.on_disk,
            data,
            gen.old_gen_encoding,
            gen.max_generations,
            now,
        );
        let first = seq![FsOpView::CreateDirAll { path: dir }];
        assert(cache.insert_plan(key, data, push, gen, now) == first + write);
        lemma_run_concat(disk, first, write);
        let made = run(disk, first);
        assert(first.drop_last() =~= Seq::<FsOpView>::empty());
        assert(first.last() == first[0]);
        assert(run(disk, Seq::<FsOpView>::empty()) == disk);
        assert(made == apply(disk, first[0]));
        assert forall|index: nat| (#[trigger] generation_at(made, dir, index)) is Some <==> index
            < before.on_disk.len() by {
            lemma_paths_differ(dir, index, index);
            assert(generation_at(made, dir, index) == generation_at(disk, dir, index));
        }
        lemma_write_rotates(
            made,
            dir,
            before.on_disk,
            data,
            gen.old_gen_encoding,
            gen.max_generations,
            now,
        );
    }
}

/// The newest generation. After an insert that writes to disk, once its
/// operations were carried out, the file of generation 0 in the entry
/// directory of the key holds exactly the data that was inserted,
/// whatever the cache and the disk held before.
pub proof fn lemma_insert_writes_newest(
    cache: CacheView,
    disk: Map<Seq<u8>, Node>,
    key: Seq<u8>,
    data: Seq<u8>,
    push: MemPushOpt,
    gen: GenerationOptView,
    now: nat,
)
    requires
        push != MemPushOpt::MemoryOnly,
    ensures
        generation_at(
            run(disk, cache.insert_plan(key, data, push, gen, now)),
            cache.dir_of(key),
            0,
        ) == Some(data),
        generation_at(
            run(disk, cache.first_insert_plan(key, data, push, gen, now)),
            cache.dir_of(key),
            0,
        ) == Some(data),
{
    let dir = cache.dir_of(key);
    let first = seq![FsOpView::CreateDirAll { path: dir }];
    let write = write_plan(
        dir,
        cache.state_or_fresh(key).on_disk,
        data,
        gen.old_gen_encoding,
        gen.max_generations,
        now,
    );
    assert(cache.insert_plan(key, data, push, gen, now) == first + write);
    lemma_run_concat(disk, first, write);
    lemma_newest_is_written(
        run(disk, first),
        dir,
        cache.state_or_fresh(key).on_disk,
        data,
        gen.old_gen_encoding,
        gen.max_generations,
        now,
    );
    let fresh = write_plan(
        dir,
        EntryView::fresh().on_disk,
        data,
        gen.old_gen_encoding,
        gen.max_generations,
        now,
    );
    assert(cache.first_insert_plan(key, data, push, gen, now) == first + fresh);
    lemma_run_concat(disk, first, fresh);
    lemma_newest_is_written(
        run(disk, first),
        dir,
        EntryView::fresh().on_disk,
        data,
        gen.old_gen_encoding,
        gen.max_generations,
        now,
    );
}

/// What an insert does on disk stays within the entry directory of the
/// key: it touches that directory and the files of the cache in it, and
/// so leaves every other file as it is.
pub proof fn lemma_insert_within(
    cache: CacheView,
    key: Seq<u8>,
    data: Seq<u8>,
    push: MemPushOpt,
    gen: GenerationOptView,
    now: nat,
)
    ensures
        plan_within(cache.insert_plan(key, data, push, gen, now), cache.dir_of(key)),
        plan_within(cache.first_insert_plan(key, data, push, gen, now), cache.dir_of(key)),
{
    let dir = cache.dir_of(key);
    let first = seq![FsOpView::CreateDirAll { path: dir }];
    let held = cache.state_or_fresh(key).on_disk;
    lemma_write_within(dir, held, data, gen.old_gen_encoding, gen.max_generations, now);
    lemma_write_within(
        dir,
        EntryView::fresh().on_disk,
        data,
        gen.old_gen_encoding,
        gen.max_generations,
        now,
    );
    let plan = cache.insert_plan(key, data, push, gen, now);
    assert forall|i: int| 0 <= i < plan.len() implies op_within(#[trigger] plan[i], dir) by {
        if i > 0 {
            let write = write_plan(
                dir,
                held,
                data,
                gen.old_gen_encoding,
                gen.max_generations,
                now,
            );
            assert(plan[i] == write[i - 1]);
        }
    }
    let plan = cache.first_insert_plan(key, data, push, gen, now);
    assert forall|i: int| 0 <= i < plan.len() implies op_within(#[trigger] plan[i], dir) by {
        if i > 0 && push != MemPushOpt::MemoryOnly {
            let write = write_plan(
                dir,
                EntryView::fresh().on_disk,
                data,
                gen.old_gen_encoding,
                gen.max_generations,
                now,
            );
            assert(plan[i] == write[i - 1]);
        }
    }
}

/// Whether no key names a directory that is also a file of the cache in
/// the entry directory of another key.
pub open spec fn keys_apart(cache: CacheView) -> bool {
    forall|i: int, j: int|
        0 <= i < cache.entries.len() && 0 <= j < cache.entries.len() && i != j ==> !is_owned_path(
            cache.dir_of((#[trigger] cache.entries[i]).key),
            cache.dir_of((#[trigger] cache.entries[j]).key),
        )
}

/// What a flush of the first `done` keys leaves of the generations of the
/// key at `at`.
pub open spec fn flushed_so_far(
    cache: CacheView,
    disk: Map<Seq<u8>, Node>,
    encoding: Encoding,
    max: nat,
    now: nat,
    at: int,
    done: int,
) -> bool {
    let after = run(disk, sync_plan(cache.base, cache.entries.take(done), encoding, max, now));
    let entry = cache.entries[at].entry;
    let dir = cache.dir_of(cache.entries[at].key);
    if at < done && entry.is_dirty() {
        generation_at(after, dir, 0) == Some(entry.in_mem->0.content)
    } else {
        forall|index: nat| #[trigger]
            generation_at(after, dir, index) == generation_at(disk, dir, index)
    }
}

/// A flush, key by key. Once the first `done` keys were flushed, the file
/// of generation 0 of each of them that held a value yet to reach the disk
/// holds that value, and the generations of every other key are as they
/// were.
pub proof fn lemma_flush_key_by_key(
    cache: CacheView,
    disk: Map<Seq<u8>, Node>,
    encoding: Encoding,
    max: nat,
    now: nat,
    at: int,
    done: int,
)
    requires
        cache.wf(),
        keys_apart(cache),
        0 <= at < cache.entries.len(),
        0 <= done <= cache.entries.len(),
    ensures
        flushed_so_far(cache, disk, encoding, max, now, at, done),
    decreases done,
{
    let entries = cache.entries;
    let dir = cache.dir_of(entries[at].key);
    if done == 0 {
        assert(entries.take(0) =~= Seq::<SlotView>::empty());
    } else {
        let last = done - 1;
        lemma_flush_key_by_key(cache, disk, encoding, max, now, at, last);
        let before = entries.take(last);
        let upto = entries.take(done);
        assert(upto.drop_last() =~= before);
        assert(upto.last() == entries[last]);
        let slot = entries[last];
        let slot_dir = cache.dir_of(slot.key);
        let first = seq![FsOpView::CreateDirAll { path: slot_dir }];
        let flush = slot.entry.flush_plan(slot_dir, encoding, max, now);
        let head = sync_plan(cache.base, before, encoding, max, now);
        assert(sync_plan(cache.base, upto, encoding, max, now) == head + first + flush);
        lemma_run_concat(disk, head + first, flush);
        lemma_run_concat(disk, head, first);
        let held = run(disk, head);
        let made = run(held, first);
        let after = run(made, flush);
        assert(run(disk, sync_plan(cache.base, upto, encoding, max, now)) == after);
        lemma_flush_within(slot.entry, slot_dir, encoding, max, now);
        assert(plan_within(first, slot_dir));
        if last != at {
            assert forall|index: nat| #[trigger]
                generation_at(after, dir, index) == generation_at(held, dir, index) by {
                let path = generation_path(dir, index);
                lemma_owned_paths(dir, index);
                crate::disk_laws::lemma_names_owned(index);
                lemma_keys_apart(cache.base, entries[at].key, slot.key, generation_name(index));
                assert(!is_owned_path(dir, slot_dir));
                lemma_frame(held, first, slot_dir, path);
                lemma_frame(made, flush, slot_dir, path);
            }
        } else {
            if slot.entry.is_dirty() {
                lemma_newest_is_written(
                    made,
                    dir,
                    slot.entry.on_disk,
                    slot.entry.in_mem->0.content,
                    encoding,
                    max,
                    now,
                );
            } else {
                assert(first.drop_last() =~= Seq::<FsOpView>::empty());
                assert(first.last() == first[0]);
                assert(run(held, Seq::<FsOpView>::empty()) == held);
                assert(flush.drop_last() =~= Seq::<FsOpView>::empty());
                assert(flush.last() == flush[0]);
                assert(run(made, Seq::<FsOpView>::empty()) == made);
                assert forall|index: nat| #[trigger]
                    generation_at(after, dir, index) == generation_at(held, dir, index) by {
                    lemma_paths_differ(dir, index, index);
                }
            }
        }
    }
}

/// A flush of the whole cache. Where no key names a file of the cache of
/// another key, a flush leaves in the file of generation 0 of every key
/// the value that the key held in memory and that had yet to reach the
/// disk; the generations of a key without such a value stay as they are.
pub proof fn lemma_sync_writes_what_is_in_memory(
    cache: CacheView,
    disk: Map<Seq<u8>, Node>,
    gen: GenerationOptView,
    now: nat,
    at: int,
)
    requires
        cache.wf(),
        keys_apart(cache),
        0 <= at < cache.entries.len(),
    ensures
        ({
            let after = run(
                disk,
                sync_plan(
                    cache.base,
                    cache.entries,
                    gen.old_gen_encoding,
                    gen.max_generations,
                    now,
                ),
            );
            let entry = cache.entries[at].entry;
            let dir = cache.dir_of(cache.entries[at].key);
            &&& entry.is_dirty() ==> generation_at(after, dir, 0) == Some(
                entry.in_mem->0.content,
            )
            &&& !entry.is_dirty() ==> forall|index: nat| #[trigger]
                generation_at(after, dir, index) == generation_at(disk, dir, index)
        }),
{
    lemma_flush_key_by_key(
        cache,
        disk,
        gen.old_gen_encoding,
        gen.max_generations,
        now,
        at,
        cache.entries.len() as int,
    );
    assert(cache.entries.take(cache.entries.len() as int) =~= cache.entries);
}

/// Expiration. A value that was inserted at one time, under options by
/// which it expires after a span, is too old once that span has passed: a
/// lookup of the key then lets go of the key, says that its entry
/// directory is to be cleared, and the key is absent from then on.
pub proof fn lemma_expiration(
    cache: CacheView,
    key: Seq<u8>,
    data: Seq<u8>,
    push: MemPushOpt,
    gen: GenerationOptView,
    now: nat,
    later: nat,
)
    requires
        cache.wf(),
        safe_key(key),
        later >= now + gen.ttl,
    ensures
        ({
            let stored = cache.after_insert(key, data, push, gen, now);
            let gone = stored.after_lookup(key, gen.ttl, later);
            &&& stored.lookup(key, gen.ttl, later) == (LookupView::Expired {
                dir: cache.dir_of(key),
            })
            &&& !has_key(gone.entries, key)
            &&& gone.lookup(key, gen.ttl, later) == LookupView::Absent
        }),
{
    let stored = cache.after_insert(key, data, push, gen, now);
    let entry = cache.state_or_fresh(key).after_store(
        data,
        push,
        gen.old_gen_encoding,
        gen.max_generations,
        now,
        has_key(cache.entries, key),
    );
    lemma_with_state(cache.entries, key, entry);
    assert(entry.last_updated == now);
    assert(expired(now, gen.ttl, later));
    let at = choose|i: int| 0 <= i < stored.entries.len() && (#[trigger] stored.entries[i]).key
        == key;
    lemma_without(stored.entries, at);
}

/// Persistence. A scan that visits the entry directory of a safe key,
/// after a generational write there and with the manifest that the write
/// left, at a time when the written value has not expired, finds the key:
/// the cache then holds it, with the records of the generations that have
/// not expired, last updated when the write was made; and the file of
/// generation 0 in that directory holds the data that was written.
pub proof fn lemma_scan_finds_written(
    scan: ScanView,
    disk: Map<Seq<u8>, Node>,
    items: Seq<DirItemView>,
    key: Seq<u8>,
    gens: Seq<GenerationView>,
    data: Seq<u8>,
    gen: GenerationOptView,
    now: nat,
    later: nat,
)
    requires
        scan.cache.wf(),
        safe_key(key),
        scan.queue.len() > 0,
        scan.queue[0] == scan.cache.dir_of(key),
        gen.max_generations >= 1,
        ages_fit(gens),
        now <= MAX_NANOS,
        !expired(now, gen.ttl, later),
    ensures
        ({
            let dir = scan.cache.dir_of(key);
            let after = run(
                disk,
                write_plan(dir, gens, data, gen.old_gen_encoding, gen.max_generations, now),
            );
            let visited = scan.visit(file_at(after, manifest_path(dir)), items, gen.ttl, later);
            &&& generation_at(after, dir, 0) == Some(data)
            &&& visited matches Ok((found, _)) && state_of(found.cache.entries, key) == Some(
                EntryView {
                    in_mem: None,
                    on_disk: survivors(
                        written(gens, gen.old_gen_encoding, gen.max_generations, now),
                        gen.ttl,
                        later,
                    ),
                    last_updated: now,
                },
            )
        }),
{
    let dir = scan.cache.dir_of(key);
    lemma_read_back(
        disk,
        dir,
        gens,
        data,
        gen.old_gen_encoding,
        gen.max_generations,
        now,
        scan.eager_load,
        gen.ttl,
        later,
    );
    lemma_relativize_round_trip(scan.cache.base, key);
    let entry = EntryView {
        in_mem: None,
        on_disk: survivors(
            written(gens, gen.old_gen_encoding, gen.max_generations, now),
            gen.ttl,
            later,
        ),
        last_updated: now,
    };
    lemma_with_state(scan.cache.entries, key, entry);
}

} // verus!
