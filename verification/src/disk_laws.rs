//! What holds of the names and paths of the files of the cache, and of
//! plans that stay within one entry directory.

use crate::split::lemma_split_last;
use crate::decimal::{decimal, is_digit, lemma_decimal_digits};
use crate::disk::{
    all_owned, generation_name, generation_path, generation_prefix, is_owned_item,
    is_owned_name, manifest_name, manifest_path, owned_removals, purge_plan, run, DirItemView,
    FileObjectExists, FsOpView, Node,
};
use crate::path_laws::{lemma_join_cancels, lemma_last_name, lemma_safe_key_ends};
use crate::path_util::{is_normal, join, safe_key, split, SEPARATOR};
use crate::split::lemma_pieces_free;
use vstd::prelude::*;

verus! {

/// The generation prefix, byte by byte.
pub proof fn lemma_generation_prefix()
    ensures
        generation_prefix().len() == 21,
        generation_prefix()[10] == 0x67,
        forall|j: int|
            0 <= j < 21 ==> generation_prefix()[j] != SEPARATOR && generation_prefix()[j] != 0
                && !is_digit(#[trigger] generation_prefix()[j]),
{
    reveal_strlit("dir-cache-generation-");
    let p = generation_prefix();
    assert forall|j: int| 0 <= j < 21 implies p[j] != SEPARATOR && p[j] != 0 && !is_digit(
        #[trigger] p[j],
    ) by {
        assert(j == 0 || j == 1 || j == 2 || j == 3 || j == 4 || j == 5 || j == 6 || j == 7 || j
            == 8 || j == 9 || j == 10 || j == 11 || j == 12 || j == 13 || j == 14 || j == 15 || j
            == 16 || j == 17 || j == 18 || j == 19 || j == 20);
    }
}

/// The name of the manifest, byte by byte.
pub proof fn lemma_manifest_name()
    ensures
        manifest_name().len() == 22,
        manifest_name()[10] == 0x6d,
        forall|j: int|
            0 <= j < 22 ==> manifest_name()[j] != SEPARATOR && #[trigger] manifest_name()[j] != 0,
{
    reveal_strlit("dir-cache-manifest.txt");
    let m = manifest_name();
    assert forall|j: int| 0 <= j < 22 implies m[j] != SEPARATOR && #[trigger] m[j] != 0 by {
        assert(j == 0 || j == 1 || j == 2 || j == 3 || j == 4 || j == 5 || j == 6 || j == 7 || j
            == 8 || j == 9 || j == 10 || j == 11 || j == 12 || j == 13 || j == 14 || j == 15 || j
            == 16 || j == 17 || j == 18 || j == 19 || j == 20 || j == 21);
    }
}

/// The files of two generations have two names, and no generation has the
/// name of the manifest.
pub proof fn lemma_names_differ(i: nat, j: nat)
    ensures
        generation_name(i) == generation_name(j) ==> i == j,
        generation_name(i) != manifest_name(),
{
    lemma_generation_prefix();
    lemma_manifest_name();
    lemma_decimal_digits(i);
    lemma_decimal_digits(j);
    let p = generation_prefix();
    if generation_name(i) == generation_name(j) {
        assert(generation_name(i).skip(21) =~= decimal(i));
        assert(generation_name(j).skip(21) =~= decimal(j));
    }
    assert(generation_name(i)[10] == p[10]);
}

/// The names of the manifest and of the generations are names of the cache.
pub proof fn lemma_names_owned(i: nat)
    ensures
        is_owned_name(manifest_name()),
        is_owned_name(generation_name(i)),
{
    lemma_generation_prefix();
    lemma_decimal_digits(i);
    let name = generation_name(i);
    assert(name.take(21) =~= generation_prefix());
    assert(name.skip(21) =~= decimal(i));
}

/// A name of the cache is a safe key of one piece, so that joining it onto
/// an entry directory is never refused.
pub proof fn lemma_owned_names_safe(name: Seq<u8>)
    requires
        is_owned_name(name),
    ensures
        safe_key(name),
        split(name) == seq![name],
{
    lemma_generation_prefix();
    lemma_manifest_name();
    assert forall|j: int| 0 <= j < name.len() implies name[j] != SEPARATOR && name[j] != 0 by {
        if name != manifest_name() {
            if j < 21 {
                assert(name[j] == name.take(21)[j]);
            } else {
                assert(name[j] == name.skip(21)[j - 21]);
                assert(is_digit(name.skip(21)[j - 21]));
            }
        }
    }
    lemma_split_last(name, SEPARATOR, 0);
    assert(name.skip(0) =~= name);
    assert(split(name) =~= seq![name]);
    assert(name.len() >= 22);
    assert(is_normal(name));
    if name.contains(0u8) {
        let j = choose|j: int| 0 <= j < name.len() && name[j] == 0u8;
        assert(false);
    }
}

/// The files of the cache in one entry directory have a path each, and
/// none has the path of the directory.
pub proof fn lemma_paths_differ(dir: Seq<u8>, i: nat, j: nat)
    ensures
        generation_path(dir, i) == generation_path(dir, j) ==> i == j,
        generation_path(dir, i) != manifest_path(dir),
        generation_path(dir, i) != dir,
        manifest_path(dir) != dir,
{
    lemma_names_differ(i, j);
    lemma_generation_prefix();
    lemma_manifest_name();
    if generation_path(dir, i) == generation_path(dir, j) {
        lemma_join_cancels(dir, generation_name(i), generation_name(j));
    }
    if generation_path(dir, i) == manifest_path(dir) {
        lemma_join_cancels(dir, generation_name(i), manifest_name());
    }
    assert(generation_path(dir, i).len() > dir.len());
    assert(manifest_path(dir).len() > dir.len());
}

/// Whether `path` is the path of a file of the cache in the entry directory `dir`.
pub open spec fn is_owned_path(dir: Seq<u8>, path: Seq<u8>) -> bool {
    exists|name: Seq<u8>| is_owned_name(name) && path == #[trigger] join(dir, name)
}

/// The files of the cache of two keys are apart: below one root, a file
/// of the cache in the entry directory of one safe key is none in the
/// entry directory of another.
pub proof fn lemma_keys_apart(base: Seq<u8>, key: Seq<u8>, other: Seq<u8>, name: Seq<u8>)
    requires
        safe_key(key),
        safe_key(other),
        key != other,
        is_owned_name(name),
    ensures
        !is_owned_path(join(base, other), join(join(base, key), name)),
{
    let dir = join(base, key);
    let other_dir = join(base, other);
    let path = join(dir, name);
    if is_owned_path(other_dir, path) {
        let twin = choose|twin: Seq<u8>|
            is_owned_name(twin) && path == #[trigger] join(other_dir, twin);
        lemma_safe_key_ends(base, key);
        lemma_safe_key_ends(base, other);
        lemma_owned_names_safe(name);
        lemma_owned_names_safe(twin);
        lemma_pieces_free(name, SEPARATOR);
        lemma_pieces_free(twin, SEPARATOR);
        assert forall|j: int| 0 <= j < name.len() implies name[j] != SEPARATOR by {
            assert(split(name)[0][j] != SEPARATOR);
        }
        assert forall|j: int| 0 <= j < twin.len() implies twin[j] != SEPARATOR by {
            assert(split(twin)[0][j] != SEPARATOR);
        }
        lemma_last_name(dir, name, other_dir, twin);
        lemma_join_cancels(base, key, other);
    }
}

/// Whether the operation touches nothing but the entry directory `dir`
/// and the files of the cache in it.
pub open spec fn op_within(op: FsOpView, dir: Seq<u8>) -> bool {
    match op {
        FsOpView::CreateDirAll { path } => path == dir,
        FsOpView::RemoveFile { path } => is_owned_path(dir, path),
        FsOpView::Rename { from, to } => is_owned_path(dir, from) && is_owned_path(dir, to),
        FsOpView::Recode { from, to, encoding } => is_owned_path(dir, from) && is_owned_path(
            dir,
            to,
        ),
        FsOpView::WriteFile { path, data } => is_owned_path(dir, path),
        FsOpView::RemoveDir { path } => path == dir,
    }
}

/// Whether every operation of the plan stays within the entry directory `dir`.
pub open spec fn plan_within(plan: Seq<FsOpView>, dir: Seq<u8>) -> bool {
    forall|i: int| 0 <= i < plan.len() ==> op_within(#[trigger] plan[i], dir)
}

/// A plan that stays within an entry directory leaves every other path as
/// it is.
pub proof fn lemma_frame(disk: Map<Seq<u8>, Node>, plan: Seq<FsOpView>, dir: Seq<u8>, path: Seq<u8>)
    requires
        plan_within(plan, dir),
        path != dir,
        !is_owned_path(dir, path),
    ensures
        run(disk, plan).contains_key(path) == disk.contains_key(path),
        disk.contains_key(path) ==> run(disk, plan)[path] == disk[path],
    decreases plan.len(),
{
    if plan.len() > 0 {
        let front = plan.drop_last();
        assert forall|i: int| 0 <= i < front.len() implies op_within(#[trigger] front[i], dir) by {
            assert(front[i] == plan[i]);
        }
        lemma_frame(disk, front, dir, path);
        assert(op_within(plan[plan.len() - 1], dir));
    }
}

/// A file in an entry directory that is not of the cache stays as it is,
/// whatever a plan within that directory does.
pub proof fn lemma_foreign_file_stays(
    disk: Map<Seq<u8>, Node>,
    plan: Seq<FsOpView>,
    dir: Seq<u8>,
    name: Seq<u8>,
)
    requires
        plan_within(plan, dir),
        name.len() > 0,
        !is_owned_name(name),
    ensures
        run(disk, plan).contains_key(join(dir, name)) == disk.contains_key(join(dir, name)),
        disk.contains_key(join(dir, name)) ==> run(disk, plan)[join(dir, name)] == disk[join(
            dir,
            name,
        )],
{
    let path = join(dir, name);
    assert(path.len() > dir.len());
    if is_owned_path(dir, path) {
        let other = choose|other: Seq<u8>|
            is_owned_name(other) && path == #[trigger] join(dir, other);
        lemma_join_cancels(dir, name, other);
    }
    lemma_frame(disk, plan, dir, path);
}

/// Clearing an entry directory removes each file of the cache that the
/// directory was seen to hold, and nothing else but, at the end, the
/// directory itself; and that only where all that it was seen to hold are
/// files of the cache.
pub proof fn lemma_purge(dir: Seq<u8>, items: Seq<DirItemView>)
    ensures
        plan_within(owned_removals(dir, items), dir),
        forall|i: int|
            0 <= i < items.len() && is_owned_item(#[trigger] items[i]) ==> owned_removals(
                dir,
                items,
            ).contains(FsOpView::RemoveFile { path: join(dir, items[i].name) }),
        forall|k: int|
            0 <= k < owned_removals(dir, items).len() ==> exists|i: int|
                0 <= i < items.len() && is_owned_item(items[i]) && #[trigger] owned_removals(
                    dir,
                    items,
                )[k] == (FsOpView::RemoveFile { path: join(dir, items[i].name) }),
        purge_plan(dir, FileObjectExists::AsDir, items) is Ok,
        plan_within(purge_plan(dir, FileObjectExists::AsDir, items)->Ok_0, dir),
        purge_plan(dir, FileObjectExists::AsDir, items)->Ok_0.contains(
            FsOpView::RemoveDir { path: dir },
        ) ==> all_owned(items),
    decreases items.len(),
{
    let plan = owned_removals(dir, items);
    if items.len() > 0 {
        let front = items.drop_last();
        let before = owned_removals(dir, front);
        lemma_purge(dir, front);
        let last = items.last();
        let op = FsOpView::RemoveFile { path: join(dir, last.name) };
        assert forall|k: int| 0 <= k < plan.len() implies op_within(#[trigger] plan[k], dir)
            && exists|i: int|
            0 <= i < items.len() && is_owned_item(items[i]) && plan[k] == (FsOpView::RemoveFile {
                path: join(dir, items[i].name),
            }) by {
            if k < before.len() {
                assert(plan[k] == before[k]);
                let i = choose|i: int|
                    0 <= i < front.len() && is_owned_item(front[i]) && before[k]
                        == (FsOpView::RemoveFile { path: join(dir, front[i].name) });
                assert(front[i] == items[i]);
            } else {
                assert(plan[k] == op);
                assert(is_owned_item(items[items.len() - 1]));
                assert(is_owned_path(dir, join(dir, last.name)));
            }
        }
        assert forall|i: int| 0 <= i < items.len() && is_owned_item(
            #[trigger] items[i],
        ) implies plan.contains(FsOpView::RemoveFile { path: join(dir, items[i].name) }) by {
            if i < front.len() {
                assert(front[i] == items[i]);
                let k = choose|k: int|
                    0 <= k < before.len() && before[k] == (FsOpView::RemoveFile {
                        path: join(dir, front[i].name),
                    });
                assert(plan[k] == before[k]);
            } else {
                assert(plan[plan.len() - 1] == op);
            }
        }
    }
    let whole = purge_plan(dir, FileObjectExists::AsDir, items)->Ok_0;
    assert forall|k: int| 0 <= k < whole.len() implies op_within(#[trigger] whole[k], dir) by {
        if k < plan.len() {
            assert(whole[k] == plan[k]);
        }
    }
    if whole.contains(FsOpView::RemoveDir { path: dir }) && !all_owned(items) {
        let k = choose|k: int| 0 <= k < whole.len() && whole[k] == (FsOpView::RemoveDir {
            path: dir,
        });
        assert(whole == plan);
        let i = choose|i: int|
            0 <= i < items.len() && is_owned_item(items[i]) && plan[k] == (FsOpView::RemoveFile {
                path: join(dir, items[i].name),
            });
        assert(false);
    }
}

} // verus!
