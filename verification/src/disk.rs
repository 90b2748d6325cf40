//! The files of an entry directory and the operations on them.
//!
//! The cache never touches the disk itself. It hands out [`FsOp`]s, which the
//! caller carries out in order, and it is told what a directory holds. What
//! the operations mean is fixed by [`apply`], on a disk that is a map from
//! paths to files and directories.

use crate::bytes::{ascii, ascii_bytes, has_prefix, starts_with, same_bytes};
use crate::decimal::{all_digits, decimal, is_digit, push_decimal};
use crate::error::{Error, ErrorKind, Result};
use crate::opts::Encoding;
use crate::path_util::{join, join_path};
use vstd::prelude::*;
use vstd::string::StringExecFns;

verus! {

/// What was found at a path.
#[derive(Copy, Clone, Debug, Eq, PartialEq, Structural)]
pub enum FileObjectExists {
    No,
    AsDir,
    AsFile,
}

/// The name of the manifest of an entry directory.
pub open spec fn manifest_name() -> Seq<u8> {
    ascii("dir-cache-manifest.txt"@)
}

/// What every generation file name begins with.
pub open spec fn generation_prefix() -> Seq<u8> {
    ascii("dir-cache-generation-"@)
}

/// The name of the file of generation `index`; generation 0 is the newest.
pub open spec fn generation_name(index: nat) -> Seq<u8> {
    generation_prefix() + decimal(index)
}

/// The names that an entry directory holds for the cache: the manifest, and
/// the generation prefix followed by one or more digits.
pub open spec fn is_owned_name(name: Seq<u8>) -> bool {
    name == manifest_name() || (has_prefix(name, generation_prefix()) && name.len()
        > generation_prefix().len() && all_digits(name.skip(generation_prefix().len() as int)))
}

/// The path of the manifest in the entry directory `dir`.
pub open spec fn manifest_path(dir: Seq<u8>) -> Seq<u8> {
    join(dir, manifest_name())
}

/// The path of the file of generation `index` in the entry directory `dir`.
pub open spec fn generation_path(dir: Seq<u8>, index: nat) -> Seq<u8> {
    join(dir, generation_name(index))
}

pub fn manifest_file_name() -> (name: Vec<u8>)
    ensures
        name@ == manifest_name(),
{
    proof {
        reveal_strlit("dir-cache-manifest.txt");
    }
    ascii_bytes("dir-cache-manifest.txt")
}

pub fn generation_file_name(index: usize) -> (name: Vec<u8>)
    ensures
        name@ == generation_name(index as nat),
{
    proof {
        reveal_strlit("dir-cache-generation-");
    }
    let mut name = ascii_bytes("dir-cache-generation-");
    push_decimal(&mut name, index as u128);
    name
}

/// The path of the manifest in the entry directory `dir`.
pub fn manifest_file(dir: &[u8]) -> (path: Vec<u8>)
    ensures
        path@ == manifest_path(dir@),
{
    let name = manifest_file_name();
    join_path(dir, name.as_slice())
}

/// The path of generation `index` in the entry directory `dir`.
pub fn generation_file(dir: &[u8], index: usize) -> (path: Vec<u8>)
    ensures
        path@ == generation_path(dir@, index as nat),
{
    let name = generation_file_name(index);
    join_path(dir, name.as_slice())
}

/// Whether a file of this name belongs to the cache.
pub fn is_owned_file_name(name: &[u8]) -> (r: bool)
    ensures
        r == is_owned_name(name@),
{
    let manifest = manifest_file_name();
    if same_bytes(name, manifest.as_slice()) {
        return true;
    }
    proof {
        reveal_strlit("dir-cache-generation-");
    }
    let prefix = ascii_bytes("dir-cache-generation-");
    if !starts_with(name, prefix.as_slice()) || name.len() == prefix.len() {
        return false;
    }
    let ghost digits = name@.skip(prefix.len() as int);
    let mut i: usize = prefix.len();
    while i < name.len()
        invariant
            prefix.len() <= i <= name.len(),
            prefix@ == generation_prefix(),
            name@ != manifest_name(),
            digits == name@.skip(prefix.len() as int),
            forall|j: int| 0 <= j < i - prefix.len() ==> is_digit(#[trigger] digits[j]),
        decreases name.len() - i,
    {
        let b: u8 = name[i];
        if b < 0x30 || b > 0x39 {
            assert(!is_digit(digits[i - prefix.len()]));
            return false;
        }
        i += 1;
    }
    true
}

/// One operation on the disk. Paths are whole paths, the cache root included.
#[derive(Debug)]
pub enum FsOp {
    /// Create the directory and every missing directory above it.
    CreateDirAll { path: Vec<u8> },
    /// Remove the file; that there is none is no failure.
    RemoveFile { path: Vec<u8> },
    /// Move the file at `from` to `to`, replacing what is there.
    Rename { from: Vec<u8>, to: Vec<u8> },
    /// Read the file at `from`, store its content under `encoding`, and write
    /// the stored form to `to`. The file at `from` stays.
    Recode { from: Vec<u8>, to: Vec<u8>, encoding: Encoding },
    /// Write the file as a whole, replacing what is there.
    WriteFile { path: Vec<u8>, data: Vec<u8> },
    /// Remove the directory, which holds nothing.
    RemoveDir { path: Vec<u8> },
}

pub ghost enum FsOpView {
    CreateDirAll { path: Seq<u8> },
    RemoveFile { path: Seq<u8> },
    Rename { from: Seq<u8>, to: Seq<u8> },
    Recode { from: Seq<u8>, to: Seq<u8>, encoding: Encoding },
    WriteFile { path: Seq<u8>, data: Seq<u8> },
    RemoveDir { path: Seq<u8> },
}

impl View for FsOp {
    type V = FsOpView;

    open spec fn view(&self) -> FsOpView {
        match self {
            FsOp::CreateDirAll { path } => FsOpView::CreateDirAll { path: path@ },
            FsOp::RemoveFile { path } => FsOpView::RemoveFile { path: path@ },
            FsOp::Rename { from, to } => FsOpView::Rename { from: from@, to: to@ },
            FsOp::Recode { from, to, encoding } => FsOpView::Recode {
                from: from@,
                to: to@,
                encoding: *encoding,
            },
            FsOp::WriteFile { path, data } => FsOpView::WriteFile { path: path@, data: data@ },
            FsOp::RemoveDir { path } => FsOpView::RemoveDir { path: path@ },
        }
    }
}

impl DeepView for FsOp {
    type V = FsOpView;

    open spec fn deep_view(&self) -> FsOpView {
        self@
    }
}

/// The operations of a plan, in plain values.
pub open spec fn plan_view(plan: Seq<FsOp>) -> Seq<FsOpView> {
    plan.map_values(|op: FsOp| op@)
}

/// What a path holds.
pub ghost enum Node {
    File(Seq<u8>),
    Dir,
}

/// The disk after `op` was carried out on `disk` without failure.
pub open spec fn apply(disk: Map<Seq<u8>, Node>, op: FsOpView) -> Map<Seq<u8>, Node> {
    match op {
        FsOpView::CreateDirAll { path } => if disk.contains_key(path) {
            disk
        } else {
            disk.insert(path, Node::Dir)
        },
        FsOpView::RemoveFile { path } => if disk.contains_key(path) && disk[path] is File {
            disk.remove(path)
        } else {
            disk
        },
        FsOpView::Rename { from, to } => if disk.contains_key(from) && from != to {
            disk.remove(from).insert(to, disk[from])
        } else {
            disk
        },
        FsOpView::Recode { from, to, encoding } => if disk.contains_key(from)
            && disk[from] is File {
            disk.insert(to, Node::File(encoding.encoded(disk[from]->File_0)))
        } else {
            disk
        },
        FsOpView::WriteFile { path, data } => disk.insert(path, Node::File(data)),
        FsOpView::RemoveDir { path } => if disk.contains_key(path) && disk[path] is Dir {
            disk.remove(path)
        } else {
            disk
        },
    }
}

/// The disk after the operations of `plan` were carried out in order.
pub open spec fn run(disk: Map<Seq<u8>, Node>, plan: Seq<FsOpView>) -> Map<Seq<u8>, Node>
    decreases plan.len(),
{
    if plan.len() == 0 {
        disk
    } else {
        apply(run(disk, plan.drop_last()), plan.last())
    }
}

/// Carrying out two plans in a row is carrying out the one after the other.
pub proof fn lemma_run_concat(disk: Map<Seq<u8>, Node>, first: Seq<FsOpView>, second: Seq<FsOpView>)
    ensures
        run(disk, first + second) == run(run(disk, first), second),
    decreases second.len(),
{
    if second.len() == 0 {
        assert(first + second =~= first);
    } else {
        lemma_run_concat(disk, first, second.drop_last());
        assert((first + second).drop_last() =~= first + second.drop_last());
    }
}

/// One thing that a directory holds.
#[derive(Debug)]
pub struct DirItem {
    /// Its name within the directory.
    pub name: Vec<u8>,
    /// Whether it is a file.
    pub is_file: bool,
    /// Whether it is a directory.
    pub is_dir: bool,
}

pub ghost struct DirItemView {
    pub name: Seq<u8>,
    pub is_file: bool,
    pub is_dir: bool,
}

impl View for DirItem {
    type V = DirItemView;

    open spec fn view(&self) -> DirItemView {
        DirItemView { name: self.name@, is_file: self.is_file, is_dir: self.is_dir }
    }
}

/// What a listing holds, in plain values.
pub open spec fn listing(items: Seq<DirItem>) -> Seq<DirItemView> {
    items.map_values(|item: DirItem| item@)
}

/// Whether the item is a file that belongs to the cache.
pub open spec fn is_owned_item(item: DirItemView) -> bool {
    item.is_file && is_owned_name(item.name)
}

/// The removal of every file of the listing that belongs to the cache, in
/// the order of the listing.
pub open spec fn owned_removals(dir: Seq<u8>, items: Seq<DirItemView>) -> Seq<FsOpView>
    decreases items.len(),
{
    if items.len() == 0 {
        Seq::<FsOpView>::empty()
    } else if is_owned_item(items.last()) {
        owned_removals(dir, items.drop_last()).push(
            FsOpView::RemoveFile { path: join(dir, items.last().name) },
        )
    } else {
        owned_removals(dir, items.drop_last())
    }
}

/// Whether the listing holds nothing but files of the cache.
pub open spec fn all_owned(items: Seq<DirItemView>) -> bool {
    forall|i: int| 0 <= i < items.len() ==> is_owned_item(#[trigger] items[i])
}

/// What clearing an entry directory does, given what was found at its path
/// and what it holds: the files of the cache are removed, and the
/// directory itself only where it held nothing else. Where nothing is
/// found at the path, nothing is done; a file in place of the directory
/// cannot be read as one.
pub open spec fn purge_plan(dir: Seq<u8>, found: FileObjectExists, items: Seq<DirItemView>)
    -> core::result::Result<Seq<FsOpView>, ErrorKind> {
    match found {
        FileObjectExists::No => Ok(Seq::<FsOpView>::empty()),
        FileObjectExists::AsFile => Err(ErrorKind::ReadContent),
        FileObjectExists::AsDir => Ok(
            if all_owned(items) {
                owned_removals(dir, items).push(FsOpView::RemoveDir { path: dir })
            } else {
                owned_removals(dir, items)
            },
        ),
    }
}

/// Clears the entry directory at `path` of what belongs to the cache, and
/// removes it if nothing else is left. `found` says what is at the path,
/// and `items` what the directory holds.
pub fn try_remove_dir(path: &[u8], found: FileObjectExists, items: &Vec<DirItem>) -> (r: Result<
    Vec<FsOp>,
>)
    ensures
        match purge_plan(path@, found, listing(items@)) {
            Ok(plan) => r is Ok && plan_view(r->Ok_0@) == plan,
            Err(kind) => r is Err && r->Err_0.kind() == kind,
        },
{
    let mut plan: Vec<FsOp> = Vec::new();
    assert(plan_view(plan@) =~= Seq::<FsOpView>::empty());
    match found {
        FileObjectExists::No => {
            return Ok(plan);
        },
        FileObjectExists::AsFile => {
            return Err(
                Error::ReadContent(String::from_str("Failed to read dir, found a file"), None),
            );
        },
        FileObjectExists::AsDir => {},
    }
    let mut anything_left = false;
    let mut i: usize = 0;
    assert(listing(items@).take(0) =~= Seq::<DirItemView>::empty());
    while i < items.len()
        invariant
            0 <= i <= items.len(),
            plan_view(plan@) == owned_removals(path@, listing(items@).take(i as int)),
            anything_left == !all_owned(listing(items@).take(i as int)),
        decreases items.len() - i,
    {
        let item = &items[i];
        let ghost before = plan_view(plan@);
        let ghost done = listing(items@).take(i as int);
        let ghost next = listing(items@).take(i + 1);
        proof {
            assert(next.drop_last() =~= done);
            assert(next.last() == item@);
        }
        if item.is_file && is_owned_file_name(item.name.as_slice()) {
            plan.push(FsOp::RemoveFile { path: join_path(path, item.name.as_slice()) });
            assert(plan_view(plan@) =~= before.push(
                FsOpView::RemoveFile { path: join(path@, item@.name) },
            ));
            proof {
                if all_owned(done) {
                    assert forall|j: int| 0 <= j < next.len() implies is_owned_item(
                        #[trigger] next[j],
                    ) by {
                        if j < done.len() {
                            assert(next[j] == done[j]);
                        }
                    }
                } else {
                    let j = choose|j: int|
                        0 <= j < done.len() && !is_owned_item(#[trigger] done[j]);
                    assert(next[j] == done[j]);
                }
            }
        } else {
            anything_left = true;
            assert(!is_owned_item(next[i as int]));
        }
        i += 1;
    }
    assert(listing(items@).take(i as int) =~= listing(items@));
    if !anything_left {
        let ghost before = plan_view(plan@);
        plan.push(FsOp::RemoveDir { path: crate::bytes::to_vec(path) });
        assert(plan_view(plan@) =~= before.push(FsOpView::RemoveDir { path: path@ }));
    }
    Ok(plan)
}

} // verus!
