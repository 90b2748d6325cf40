//! What holds of the generations of one key on disk: how a write moves
//! them, how many there are, that what was written is read back, and
//! that what has expired is removed.

use crate::disk::{
    apply, generation_name, generation_path, manifest_name, manifest_path, run, FsOpView, Node,
};
use crate::disk_laws::{
    is_owned_path, lemma_names_owned, lemma_paths_differ, op_within, plan_within,
};
use crate::disk::lemma_run_concat;
use crate::entry::{
    expired, expiry_removals, promoted, promoted_count, promotion_op, promotion_ops, read_dir,
    survivors, truncation_ops, write_plan, written, DirReadView, EntryView,
};
use crate::error::ErrorKind;
use crate::manifest::{parse_manifest, render_manifest, GenerationView, MANIFEST_VERSION};
use crate::manifest_laws::{ages_fit, lemma_manifest_round_trip};
use crate::opts::Encoding;
use crate::path_util::join;
use crate::time::MAX_NANOS;
use vstd::prelude::*;

verus! {

/// The content of the file at `path`, if there is a file.
pub open spec fn file_at(disk: Map<Seq<u8>, Node>, path: Seq<u8>) -> Option<Seq<u8>> {
    if disk.contains_key(path) {
        match disk[path] {
            Node::File(content) => Some(content),
            Node::Dir => None,
        }
    } else {
        None
    }
}

/// The content of the file of generation `index` in the entry directory
/// `dir`, if there is such a file.
pub open spec fn generation_at(disk: Map<Seq<u8>, Node>, dir: Seq<u8>, index: nat) -> Option<
    Seq<u8>,
> {
    file_at(disk, generation_path(dir, index))
}

/// Whether the entry directory `dir` holds the files of the first `len`
/// generations and of no other.
pub open spec fn coherent(disk: Map<Seq<u8>, Node>, dir: Seq<u8>, len: nat) -> bool {
    forall|index: nat| (#[trigger] generation_at(disk, dir, index)) is Some <==> index < len
}

/// What the file of generation `index` holds once the `done` oldest of the
/// first `count` generations have moved up by one place.
pub open spec fn generation_after_moves(
    disk: Map<Seq<u8>, Node>,
    dir: Seq<u8>,
    count: nat,
    encoding: Encoding,
    done: nat,
    index: nat,
) -> Option<Seq<u8>> {
    let next = count - done;
    if index < next || index > count {
        generation_at(disk, dir, index)
    } else if index == next {
        if done == 0 || (next == 0 && encoding != Encoding::Plain) {
            generation_at(disk, dir, index)
        } else {
            None
        }
    } else if index == 1 {
        Some(encoding.encoded(generation_at(disk, dir, 0)->0))
    } else {
        generation_at(disk, dir, (index - 1) as nat)
    }
}

/// Moving the oldest of the first `count` generations up by one place,
/// one after the other, leaves each file holding what
/// `generation_after_moves` says.
pub proof fn lemma_moves(
    disk: Map<Seq<u8>, Node>,
    dir: Seq<u8>,
    count: nat,
    encoding: Encoding,
    done: nat,
)
    requires
        done <= count,
        forall|index: nat| index < count ==> (#[trigger] generation_at(disk, dir, index)) is Some,
    ensures
        forall|index: nat| #[trigger]
            generation_at(
                run(disk, promotion_ops(dir, count, encoding).take(done as int)),
                dir,
                index,
            ) == generation_after_moves(disk, dir, count, encoding, done, index),
    decreases done,
{
    let ops = promotion_ops(dir, count, encoding);
    if done == 0 {
        assert(ops.take(0) =~= Seq::<FsOpView>::empty());
    } else {
        let before = (done - 1) as nat;
        lemma_moves(disk, dir, count, encoding, before);
        let held = run(disk, ops.take(before as int));
        let next = (count - done) as nat;
        let op = promotion_op(dir, next, encoding);
        assert(ops.take(done as int).drop_last() =~= ops.take(before as int));
        assert(ops.take(done as int).last() == op);
        let after = run(disk, ops.take(done as int));
        assert(after == apply(held, op));
        let from = generation_path(dir, next);
        let to = generation_path(dir, next + 1);
        assert(generation_at(held, dir, next) == generation_after_moves(
            disk,
            dir,
            count,
            encoding,
            before,
            next,
        ));
        assert(generation_at(disk, dir, next) is Some);
        assert(generation_at(held, dir, next) == generation_at(disk, dir, next));
        lemma_paths_differ(dir, next, next + 1);
        assert forall|index: nat| #[trigger]
            generation_at(after, dir, index) == generation_after_moves(
                disk,
                dir,
                count,
                encoding,
                done,
                index,
            ) by {
            lemma_paths_differ(dir, index, next);
            lemma_paths_differ(dir, index, next + 1);
            assert(generation_at(held, dir, index) == generation_after_moves(
                disk,
                dir,
                count,
                encoding,
                before,
                index,
            ));
            if index != next && index != next + 1 {
                assert(generation_at(after, dir, index) == generation_at(held, dir, index));
            }
        }
    }
}

/// Every path of a generation, and that of the manifest, is the path of a
/// file of the cache.
pub proof fn lemma_owned_paths(dir: Seq<u8>, index: nat)
    ensures
        is_owned_path(dir, generation_path(dir, index)),
        is_owned_path(dir, manifest_path(dir)),
{
    lemma_names_owned(index);
    assert(generation_path(dir, index) == join(dir, generation_name(index)));
    assert(manifest_path(dir) == join(dir, manifest_name()));
}

/// A generational write touches nothing but the files of the cache in
/// the entry directory.
pub proof fn lemma_write_within(
    dir: Seq<u8>,
    gens: Seq<GenerationView>,
    data: Seq<u8>,
    encoding: Encoding,
    max: nat,
    now: nat,
)
    ensures
        plan_within(write_plan(dir, gens, data, encoding, max, now), dir),
{
    let plan = write_plan(dir, gens, data, encoding, max, now);
    let cut = truncation_ops(dir, gens.len(), max);
    let moves = promotion_ops(dir, promoted_count(gens.len(), max), encoding);
    assert forall|i: int| 0 <= i < plan.len() implies op_within(#[trigger] plan[i], dir) by {
        lemma_owned_paths(dir, 0);
        lemma_owned_paths(dir, 1);
        if i < cut.len() {
            assert(plan[i] == cut[i]);
            lemma_owned_paths(dir, (gens.len() - i) as nat);
        } else if i < cut.len() + moves.len() {
            let j = i - cut.len();
            assert(plan[i] == moves[j]);
            let index = (moves.len() - 1 - j) as nat;
            lemma_owned_paths(dir, index);
            lemma_owned_paths(dir, index + 1);
        } else {
        }
    }
}

/// A flush touches nothing but the files of the cache in the entry
/// directory.
pub proof fn lemma_flush_within(
    entry: EntryView,
    dir: Seq<u8>,
    encoding: Encoding,
    max: nat,
    now: nat,
)
    ensures
        plan_within(entry.flush_plan(dir, encoding, max, now), dir),
{
    let plan = entry.flush_plan(dir, encoding, max, now);
    if entry.is_dirty() {
        lemma_write_within(dir, entry.on_disk, entry.in_mem->0.content, encoding, max, now);
    } else {
        lemma_owned_paths(dir, 0);
        assert forall|i: int| 0 <= i < plan.len() implies op_within(#[trigger] plan[i], dir) by {
        }
    }
}

/// The records after a generational write. There is one at least and no
/// more than are kept; the newest is plain and of the time of the write,
/// which is also when the entry was last updated; behind it stand the
/// records that were the newest before, in their order and with their ages.
pub proof fn lemma_written_records(entry: EntryView, encoding: Encoding, max: nat, now: nat)
    requires
        max >= 1,
    ensures
        ({
            let after = entry.after_write(encoding, max, now);
            &&& 1 <= after.on_disk.len() <= max
            &&& after.on_disk.len() == promoted_count(entry.on_disk.len(), max) + 1
            &&& after.on_disk[0] == (GenerationView { encoding: Encoding::Plain, age: now })
            &&& after.last_updated == after.on_disk[0].age
            &&& forall|i: int|
                1 <= i < after.on_disk.len() ==> (#[trigger] after.on_disk[i]).age
                    == entry.on_disk[i - 1].age
        }),
{
    let count = promoted_count(entry.on_disk.len(), max);
    let moved = promoted(entry.on_disk, encoding, max);
    let after = entry.after_write(encoding, max, now);
    assert(entry.on_disk.take(count as int).len() == count);
    assert(moved.len() == count);
    assert forall|i: int| 1 <= i < after.on_disk.len() implies (#[trigger] after.on_disk[i]).age
        == entry.on_disk[i - 1].age by {
        assert(after.on_disk[i] == moved[i - 1]);
        assert(entry.on_disk.take(count as int)[i - 1] == entry.on_disk[i - 1]);
    }
}

/// The removals of expired generations touch nothing but files of the
/// cache in the entry directory, and remove the file of every generation
/// that has expired.
pub proof fn lemma_expiry_removals(dir: Seq<u8>, gens: Seq<GenerationView>, ttl: nat, now: nat)
    ensures
        plan_within(expiry_removals(dir, gens, ttl, now), dir),
        forall|i: int|
            0 <= i < gens.len() && expired((#[trigger] gens[i]).age, ttl, now) ==> expiry_removals(
                dir,
                gens,
                ttl,
                now,
            ).contains(FsOpView::RemoveFile { path: generation_path(dir, i as nat) }),
    decreases gens.len(),
{
    let plan = expiry_removals(dir, gens, ttl, now);
    if gens.len() > 0 {
        let front = gens.drop_last();
        let before = expiry_removals(dir, front, ttl, now);
        lemma_expiry_removals(dir, front, ttl, now);
        lemma_owned_paths(dir, (gens.len() - 1) as nat);
        assert forall|k: int| 0 <= k < plan.len() implies op_within(#[trigger] plan[k], dir) by {
            if k < before.len() {
                assert(plan[k] == before[k]);
            }
        }
        assert forall|i: int|
            0 <= i < gens.len() && expired((#[trigger] gens[i]).age, ttl, now)
        implies plan.contains(FsOpView::RemoveFile { path: generation_path(dir, i as nat) }) by {
            if i < front.len() {
                assert(front[i] == gens[i]);
                let k = choose|k: int|
                    0 <= k < before.len() && before[k] == (FsOpView::RemoveFile {
                        path: generation_path(dir, i as nat),
                    });
                assert(plan[k] == before[k]);
            } else {
                assert(plan[plan.len() - 1] == (FsOpView::RemoveFile {
                    path: generation_path(dir, i as nat),
                }));
            }
        }
    }
}

/// Where no generation has expired, all survive and nothing is removed;
/// where all have expired, none survives.
pub proof fn lemma_survivors(dir: Seq<u8>, gens: Seq<GenerationView>, ttl: nat, now: nat)
    ensures
        (forall|i: int| 0 <= i < gens.len() ==> !expired((#[trigger] gens[i]).age, ttl, now))
            ==> survivors(gens, ttl, now) == gens && expiry_removals(dir, gens, ttl, now).len()
            == 0,
        (forall|i: int| 0 <= i < gens.len() ==> expired((#[trigger] gens[i]).age, ttl, now))
            ==> survivors(gens, ttl, now).len() == 0,
        survivors(gens, ttl, now).len() <= gens.len(),
    decreases gens.len(),
{
    if gens.len() > 0 {
        let front = gens.drop_last();
        lemma_survivors(dir, front, ttl, now);
        if forall|i: int| 0 <= i < gens.len() ==> !expired((#[trigger] gens[i]).age, ttl, now) {
            assert forall|i: int| 0 <= i < front.len() implies !expired(
                (#[trigger] front[i]).age,
                ttl,
                now,
            ) by {
                assert(front[i] == gens[i]);
            }
            assert(!expired(gens[gens.len() - 1].age, ttl, now));
            assert(survivors(gens, ttl, now) =~= gens);
        }
        if forall|i: int| 0 <= i < gens.len() ==> expired((#[trigger] gens[i]).age, ttl, now) {
            assert forall|i: int| 0 <= i < front.len() implies expired(
                (#[trigger] front[i]).age,
                ttl,
                now,
            ) by {
                assert(front[i] == gens[i]);
            }
            assert(expired(gens[gens.len() - 1].age, ttl, now));
        }
    }
}

/// After a generational write, the file of generation 0 holds exactly
/// the data that was written, and the manifest lists the generations that
/// the entry now has; whatever the disk held before.
pub proof fn lemma_newest_is_written(
    disk: Map<Seq<u8>, Node>,
    dir: Seq<u8>,
    gens: Seq<GenerationView>,
    data: Seq<u8>,
    encoding: Encoding,
    max: nat,
    now: nat,
)
    ensures
        generation_at(run(disk, write_plan(dir, gens, data, encoding, max, now)), dir, 0) == Some(
            data,
        ),
        file_at(run(disk, write_plan(dir, gens, data, encoding, max, now)), manifest_path(dir))
            == Some(render_manifest(MANIFEST_VERSION as nat, written(gens, encoding, max, now))),
{
    let plan = write_plan(dir, gens, data, encoding, max, now);
    let front = plan.drop_last();
    assert(front.last() == (FsOpView::WriteFile { path: generation_path(dir, 0), data }));
    lemma_paths_differ(dir, 0, 0);
    assert(run(disk, plan) == apply(run(disk, front), plan.last()));
    assert(run(disk, front) == apply(run(disk, front.drop_last()), front.last()));
}

/// A generational write on an entry directory that holds the files of its
/// generations and of no other, with no more of them than are kept.
/// Afterwards the directory again holds the files of the generations of
/// the entry and of no other, and these are no more than are kept.
/// Generation 0 holds the data; generation 1 holds what generation 0
/// held, stored under the encoding for old generations; every later
/// generation holds what the one before it held.
pub proof fn lemma_write_rotates(
    disk: Map<Seq<u8>, Node>,
    dir: Seq<u8>,
    gens: Seq<GenerationView>,
    data: Seq<u8>,
    encoding: Encoding,
    max: nat,
    now: nat,
)
    requires
        max >= 1,
        gens.len() <= max,
        coherent(disk, dir, gens.len()),
    ensures
        ({
            let after = run(disk, write_plan(dir, gens, data, encoding, max, now));
            let kept = written(gens, encoding, max, now).len();
            &&& kept <= max
            &&& kept == promoted_count(gens.len(), max) + 1
            &&& coherent(after, dir, kept)
            &&& generation_at(after, dir, 0) == Some(data)
            &&& kept > 1 ==> generation_at(after, dir, 1) == Some(
                encoding.encoded(generation_at(disk, dir, 0)->0),
            )
            &&& forall|index: nat|
                2 <= index < kept ==> #[trigger] generation_at(after, dir, index) == generation_at(
                    disk,
                    dir,
                    (index - 1) as nat,
                )
        }),
{
    let plan = write_plan(dir, gens, data, encoding, max, now);
    let count = promoted_count(gens.len(), max);
    let moves = promotion_ops(dir, count, encoding);
    let tail = seq![
        FsOpView::WriteFile { path: generation_path(dir, 0), data },
        FsOpView::WriteFile {
            path: manifest_path(dir),
            data: render_manifest(MANIFEST_VERSION as nat, written(gens, encoding, max, now)),
        },
    ];
    assert(truncation_ops(dir, gens.len(), max) =~= Seq::<FsOpView>::empty());
    assert(plan =~= moves + tail);
    lemma_run_concat(disk, moves, tail);
    let moved = run(disk, moves);
    assert(moves.take(count as int) =~= moves);
    assert forall|index: nat| index < count implies (#[trigger] generation_at(disk, dir, index))
        is Some by {
    }
    lemma_moves(disk, dir, count, encoding, count);
    let first = apply(moved, tail[0]);
    assert(tail.drop_last() =~= seq![tail[0]]);
    assert(seq![tail[0]].drop_last() =~= Seq::<FsOpView>::empty());
    assert(seq![tail[0]].last() == tail[0]);
    assert(run(moved, Seq::<FsOpView>::empty()) == moved);
    assert(run(moved, seq![tail[0]]) == first);
    assert(run(moved, tail) == apply(first, tail[1]));
    let after = run(disk, plan);
    let kept = written(gens, encoding, max, now).len();
    assert(kept == count + 1);
    assert forall|index: nat| #[trigger]
        generation_at(after, dir, index) == (if index == 0 {
            Some(data)
        } else {
            generation_after_moves(disk, dir, count, encoding, count, index)
        }) by {
        lemma_paths_differ(dir, index, 0);
        assert(generation_at(moved, dir, index) == generation_after_moves(
            disk,
            dir,
            count,
            encoding,
            count,
            index,
        ));
    }
    assert forall|index: nat| (#[trigger] generation_at(after, dir, index)) is Some <==> index
        < kept by {
        if index > 0 && index <= count {
            assert(generation_at(disk, dir, (index - 1) as nat) is Some);
            assert(generation_at(disk, dir, 0) is Some);
        }
        if index > count {
            assert(generation_at(disk, dir, index) is None);
        }
    }
}

/// What was written is read back. After a generational write at a time
/// that a timestamp can hold, reading the entry directory back from the
/// manifest that the write left, at a time when the new generation has
/// not expired, gives an entry: its records are those of the written
/// generations that have not expired, and it was last updated when the
/// write was made. The file of generation 0, which a lookup then asks for,
/// holds the data.
pub proof fn lemma_read_back(
    disk: Map<Seq<u8>, Node>,
    dir: Seq<u8>,
    gens: Seq<GenerationView>,
    data: Seq<u8>,
    encoding: Encoding,
    max: nat,
    now: nat,
    eager_load: bool,
    ttl: nat,
    later: nat,
)
    requires
        max >= 1,
        ages_fit(gens),
        now <= MAX_NANOS,
        !expired(now, ttl, later),
    ensures
        ({
            let after = run(disk, write_plan(dir, gens, data, encoding, max, now));
            let kept = written(gens, encoding, max, now);
            &&& file_at(after, manifest_path(dir)) is Some
            &&& generation_at(after, dir, 0) == Some(data)
            &&& read_dir(dir, file_at(after, manifest_path(dir)), eager_load, ttl, later) == Ok::<
                DirReadView,
                ErrorKind,
            >(
                DirReadView {
                    entry: Some(
                        EntryView {
                            in_mem: None,
                            on_disk: survivors(kept, ttl, later),
                            last_updated: now,
                        },
                    ),
                    removals: expiry_removals(dir, kept, ttl, later),
                    load: if eager_load {
                        Some(generation_path(dir, 0))
                    } else {
                        None
                    },
                },
            )
        }),
{
    lemma_newest_is_written(disk, dir, gens, data, encoding, max, now);
    let kept = written(gens, encoding, max, now);
    let moved = promoted(gens, encoding, max);
    let count = promoted_count(gens.len(), max);
    assert(count <= gens.len());
    assert(gens.take(count as int).len() == count);
    assert(moved.len() == count);
    assert forall|i: int| 0 <= i < kept.len() implies (#[trigger] kept[i]).age <= MAX_NANOS by {
        if i > 0 {
            assert(kept[i] == moved[i - 1]);
            assert(gens.take(count as int)[i - 1] == gens[i - 1]);
            assert(moved[i - 1].age == gens[i - 1].age);
        }
    }
    lemma_manifest_round_trip(MANIFEST_VERSION as nat, kept);
}

/// A directory whose generations have all expired has no entry, and the
/// file of every one of them is removed.
pub proof fn lemma_expired_directory(
    dir: Seq<u8>,
    text: Seq<u8>,
    gens: Seq<GenerationView>,
    eager_load: bool,
    ttl: nat,
    now: nat,
)
    requires
        parse_manifest(text) == Ok::<(nat, Seq<GenerationView>), ErrorKind>(
            (MANIFEST_VERSION as nat, gens),
        ),
        forall|i: int| 0 <= i < gens.len() ==> expired((#[trigger] gens[i]).age, ttl, now),
    ensures
        read_dir(dir, Some(text), eager_load, ttl, now) is Ok,
        read_dir(dir, Some(text), eager_load, ttl, now)->Ok_0.entry is None,
        read_dir(dir, Some(text), eager_load, ttl, now)->Ok_0.load is None,
        forall|i: int|
            0 <= i < gens.len() ==> #[trigger] read_dir(
                dir,
                Some(text),
                eager_load,
                ttl,
                now,
            )->Ok_0.removals.contains(
                FsOpView::RemoveFile { path: generation_path(dir, i as nat) },
            ),
{
    lemma_expiry_removals(dir, gens, ttl, now);
    assert forall|i: int| 0 <= i < gens.len() implies #[trigger] read_dir(
        dir,
        Some(text),
        eager_load,
        ttl,
        now,
    )->Ok_0.removals.contains(FsOpView::RemoveFile { path: generation_path(dir, i as nat) }) by {
        assert(expired(gens[i].age, ttl, now));
    }
}

} // verus!
