//! The state of one key: the value held in memory, the generations on disk,
//! and how both change when a value is written, flushed or read back.

use crate::bytes::to_vec;
use crate::disk::{
    generation_file, generation_path, manifest_file, manifest_path, plan_view, FsOp, FsOpView,
};
use crate::error::{Error, ErrorKind, Result};
use crate::manifest::{
    parse_manifest, read_metadata, records, render_manifest, write_manifest, ContentGeneration,
    GenerationView, MANIFEST_VERSION,
};
use vstd::string::StringExecFns;
use crate::opts::{Encoding, GenerationOpt, MemPushOpt};
use crate::time::{saturating_sum, Duration};
use std::collections::VecDeque;
use vstd::prelude::*;

verus! {

/// A value held in memory.
#[derive(Debug)]
pub struct InMemEntry {
    /// Whether the content is known to equal the file of generation 0.
    pub committed: bool,
    pub content: Vec<u8>,
}

pub ghost struct InMemView {
    pub committed: bool,
    pub content: Seq<u8>,
}

impl View for InMemEntry {
    type V = InMemView;

    open spec fn view(&self) -> InMemView {
        InMemView { committed: self.committed, content: self.content@ }
    }
}

/// The state of one key.
#[derive(Debug)]
pub struct DirCacheEntry {
    pub in_mem: Option<InMemEntry>,
    /// The generations on disk; the newest is at position 0.
    pub on_disk: VecDeque<ContentGeneration>,
    pub last_updated: Duration,
}

pub ghost struct EntryView {
    pub in_mem: Option<InMemView>,
    pub on_disk: Seq<GenerationView>,
    pub last_updated: nat,
}

impl View for DirCacheEntry {
    type V = EntryView;

    open spec fn view(&self) -> EntryView {
        EntryView {
            in_mem: match self.in_mem {
                Some(m) => Some(m@),
                None => None,
            },
            on_disk: records(self.on_disk@),
            last_updated: self.last_updated@,
        }
    }
}

/// Whether something written at `age` has expired at `now`, when it
/// expires `ttl` after it was written. The sum is held at the longest span.
pub open spec fn expired(age: nat, ttl: nat, now: nat) -> bool {
    saturating_sum(age, ttl) <= now
}

/// Whether something written at `age` has expired at `now`.
pub fn is_expired(age: Duration, ttl: Duration, now: Duration) -> (r: bool)
    ensures
        r == expired(age@, ttl@, now@),
{
    age.saturating_add(ttl).as_nanos() <= now.as_nanos()
}

/// How many of `len` generations move up by one place when a new one is
/// written and at most `max` are kept.
pub open spec fn promoted_count(len: nat, max: nat) -> nat {
    if len < max {
        len
    } else {
        (max - 1) as nat
    }
}

/// The records of the generations that move up by one place. Where the
/// newest is stored anew under an encoding other than `Plain`, its record
/// says so.
pub open spec fn promoted(gens: Seq<GenerationView>, encoding: Encoding, max: nat) -> Seq<
    GenerationView,
> {
    let kept = gens.take(promoted_count(gens.len(), max) as int);
    if kept.len() > 0 && encoding != Encoding::Plain {
        kept.update(0, GenerationView { encoding, age: kept[0].age })
    } else {
        kept
    }
}

/// The records after a write at `now`: the new generation, plain, and
/// behind it those that moved up.
pub open spec fn written(gens: Seq<GenerationView>, encoding: Encoding, max: nat, now: nat) -> Seq<
    GenerationView,
> {
    seq![GenerationView { encoding: Encoding::Plain, age: now }] + promoted(gens, encoding, max)
}

/// The removals that bring a list of `len` generations down to `max`: while
/// the list is longer than `max`, the file numbered by its length is
/// removed and the last record dropped.
pub open spec fn truncation_ops(dir: Seq<u8>, len: nat, max: nat) -> Seq<FsOpView> {
    Seq::new(
        if len > max {
            (len - max) as nat
        } else {
            0
        },
        |j: int| FsOpView::RemoveFile { path: generation_path(dir, (len - j) as nat) },
    )
}

/// Moving generation `index` up by one place: a rename, or for the newest
/// under an encoding other than `Plain`, storing it anew.
pub open spec fn promotion_op(dir: Seq<u8>, index: nat, encoding: Encoding) -> FsOpView {
    if index == 0 && encoding != Encoding::Plain {
        FsOpView::Recode {
            from: generation_path(dir, 0),
            to: generation_path(dir, 1),
            encoding,
        }
    } else {
        FsOpView::Rename {
            from: generation_path(dir, index),
            to: generation_path(dir, index + 1),
        }
    }
}

/// Moving the first `count` generations up by one place, the oldest first.
pub open spec fn promotion_ops(dir: Seq<u8>, count: nat, encoding: Encoding) -> Seq<FsOpView> {
    Seq::new(count, |j: int| promotion_op(dir, (count - 1 - j) as nat, encoding))
}

/// Everything that writing `data` as the new generation 0 does to the disk,
/// in order: truncation, promotion, the new content, the new manifest.
pub open spec fn write_plan(
    dir: Seq<u8>,
    gens: Seq<GenerationView>,
    data: Seq<u8>,
    encoding: Encoding,
    max: nat,
    now: nat,
) -> Seq<FsOpView> {
    truncation_ops(dir, gens.len(), max) + promotion_ops(
        dir,
        promoted_count(gens.len(), max),
        encoding,
    ) + seq![
        FsOpView::WriteFile { path: generation_path(dir, 0), data },
        FsOpView::WriteFile {
            path: manifest_path(dir),
            data: render_manifest(MANIFEST_VERSION as nat, written(gens, encoding, max, now)),
        },
    ]
}

/// The records of the generations that have not expired at `now`, in order.
pub open spec fn survivors(gens: Seq<GenerationView>, ttl: nat, now: nat) -> Seq<GenerationView>
    decreases gens.len(),
{
    if gens.len() == 0 {
        Seq::<GenerationView>::empty()
    } else if expired(gens.last().age, ttl, now) {
        survivors(gens.drop_last(), ttl, now)
    } else {
        survivors(gens.drop_last(), ttl, now).push(gens.last())
    }
}

/// The removal of the file of every generation that has expired at `now`,
/// by its place in the manifest.
pub open spec fn expiry_removals(
    dir: Seq<u8>,
    gens: Seq<GenerationView>,
    ttl: nat,
    now: nat,
) -> Seq<FsOpView>
    decreases gens.len(),
{
    if gens.len() == 0 {
        Seq::<FsOpView>::empty()
    } else if expired(gens.last().age, ttl, now) {
        expiry_removals(dir, gens.drop_last(), ttl, now).push(
            FsOpView::RemoveFile { path: generation_path(dir, (gens.len() - 1) as nat) },
        )
    } else {
        expiry_removals(dir, gens.drop_last(), ttl, now)
    }
}

/// What was found in an entry directory.
#[derive(Debug)]
pub struct DirRead {
    /// The state of the key, if the directory holds a manifest whose newest
    /// generation has not expired.
    pub entry: Option<DirCacheEntry>,
    /// The removals of the files of expired generations.
    pub removals: Vec<FsOp>,
    /// The path of generation 0, where its content is to be held in memory
    /// from the start; see [`DirCacheEntry::preload`].
    pub load: Option<Vec<u8>>,
}

pub ghost struct DirReadView {
    pub entry: Option<EntryView>,
    pub removals: Seq<FsOpView>,
    pub load: Option<Seq<u8>>,
}

impl View for DirRead {
    type V = DirReadView;

    open spec fn view(&self) -> DirReadView {
        DirReadView {
            entry: match self.entry {
                Some(e) => Some(e@),
                None => None,
            },
            removals: plan_view(self.removals@),
            load: match self.load {
                Some(p) => Some(p@),
                None => None,
            },
        }
    }
}

/// What reading the entry directory `dir` at `now` gives, from the text of
/// its manifest. Without a manifest there is no entry. A manifest that
/// cannot be read, or one of another version, is a failure. Otherwise every
/// expired generation loses its file and its record, and there is an entry
/// if the newest generation has not expired.
pub open spec fn read_dir(
    dir: Seq<u8>,
    manifest: Option<Seq<u8>>,
    eager_load: bool,
    ttl: nat,
    now: nat,
) -> core::result::Result<DirReadView, ErrorKind> {
    match manifest {
        None => Ok(
            DirReadView { entry: None, removals: Seq::<FsOpView>::empty(), load: None },
        ),
        Some(text) => match parse_manifest(text) {
            Err(kind) => Err(kind),
            Ok((version, gens)) => if version != MANIFEST_VERSION {
                Err(ErrorKind::ParseManifest)
            } else {
                let alive = gens.len() > 0 && !expired(gens[0].age, ttl, now);
                Ok(
                    DirReadView {
                        entry: if alive {
                            Some(
                                EntryView {
                                    in_mem: None,
                                    on_disk: survivors(gens, ttl, now),
                                    last_updated: gens[0].age,
                                },
                            )
                        } else {
                            None
                        },
                        removals: expiry_removals(dir, gens, ttl, now),
                        load: if alive && eager_load {
                            Some(generation_path(dir, 0))
                        } else {
                            None
                        },
                    },
                )
            },
        },
    }
}

impl EntryView {
    /// The state of a key that holds nothing yet.
    pub open spec fn fresh() -> EntryView {
        EntryView { in_mem: None, on_disk: Seq::<GenerationView>::empty(), last_updated: 0 }
    }

    /// The state after a generational write at `now`.
    pub open spec fn after_write(self, encoding: Encoding, max: nat, now: nat) -> EntryView {
        EntryView {
            in_mem: self.in_mem,
            on_disk: written(self.on_disk, encoding, max, now),
            last_updated: now,
        }
    }

    /// The state after `data` was stored at `now`. With `RetainAndWrite` and
    /// `PassthroughWrite` the data becomes the newest generation on disk;
    /// with `RetainAndWrite` and `MemoryOnly` it is held in memory, marked
    /// as committed only where `committed` says so and it was written.
    pub open spec fn after_store(
        self,
        data: Seq<u8>,
        push: MemPushOpt,
        encoding: Encoding,
        max: nat,
        now: nat,
        committed: bool,
    ) -> EntryView {
        match push {
            MemPushOpt::RetainAndWrite => EntryView {
                in_mem: Some(InMemView { committed, content: data }),
                on_disk: written(self.on_disk, encoding, max, now),
                last_updated: now,
            },
            MemPushOpt::MemoryOnly => EntryView {
                in_mem: Some(InMemView { committed: false, content: data }),
                on_disk: self.on_disk,
                last_updated: now,
            },
            MemPushOpt::PassthroughWrite => EntryView {
                in_mem: None,
                on_disk: written(self.on_disk, encoding, max, now),
                last_updated: now,
            },
        }
    }

    /// What storing `data` does to the disk: with `MemoryOnly` nothing,
    /// else a generational write.
    pub open spec fn store_plan(
        self,
        dir: Seq<u8>,
        data: Seq<u8>,
        push: MemPushOpt,
        encoding: Encoding,
        max: nat,
        now: nat,
    ) -> Seq<FsOpView> {
        match push {
            MemPushOpt::MemoryOnly => Seq::<FsOpView>::empty(),
            _ => write_plan(dir, self.on_disk, data, encoding, max, now),
        }
    }

    /// Whether the entry is too old to be read at `now`: it was last updated
    /// too long ago, or it holds nothing in memory and its newest
    /// generation on disk has expired, or it holds nothing at all.
    pub open spec fn is_stale(self, ttl: nat, now: nat) -> bool {
        expired(self.last_updated, ttl, now) || (self.in_mem is None && (self.on_disk.len() == 0
            || expired(self.on_disk[0].age, ttl, now)))
    }

    /// The state once `content` is held in memory as what generation 0 holds.
    pub open spec fn with_loaded(self, content: Seq<u8>) -> EntryView {
        EntryView { in_mem: Some(InMemView { committed: true, content }), ..self }
    }

    /// Whether the value in memory has yet to reach the disk.
    pub open spec fn is_dirty(self) -> bool {
        self.in_mem is Some && !self.in_mem->0.committed
    }

    /// The state after a flush at `now`. A value that had yet to reach the
    /// disk becomes the newest generation, and stays in memory, as
    /// committed, only where `keep_in_mem` says so. Any other value in
    /// memory is let go.
    pub open spec fn after_flush(
        self,
        keep_in_mem: bool,
        encoding: Encoding,
        max: nat,
        now: nat,
    ) -> EntryView {
        if self.is_dirty() {
            EntryView {
                in_mem: if keep_in_mem {
                    Some(InMemView { committed: true, content: self.in_mem->0.content })
                } else {
                    None
                },
                on_disk: written(self.on_disk, encoding, max, now),
                last_updated: now,
            }
        } else {
            EntryView { in_mem: None, on_disk: self.on_disk, last_updated: self.last_updated }
        }
    }

    /// What a flush does to the disk: a generational write of the value
    /// that had yet to reach it, or else the manifest written again.
    pub open spec fn flush_plan(self, dir: Seq<u8>, encoding: Encoding, max: nat, now: nat) -> Seq<
        FsOpView,
    > {
        if self.is_dirty() {
            write_plan(dir, self.on_disk, self.in_mem->0.content, encoding, max, now)
        } else {
            seq![
                FsOpView::WriteFile {
                    path: manifest_path(dir),
                    data: render_manifest(MANIFEST_VERSION as nat, self.on_disk),
                },
            ]
        }
    }
}

impl DirCacheEntry {
    /// The state of a key that holds nothing yet.
    pub fn new() -> (entry: Self)
        ensures
            entry@ == EntryView::fresh(),
    {
        let entry = Self { in_mem: None, on_disk: VecDeque::new(), last_updated: Duration::zero() };
        assert(entry@.on_disk =~= Seq::<GenerationView>::empty());
        entry
    }

    /// The operation that rewrites the manifest in the entry directory `base`.
    pub fn dump_metadata(&self, base: &[u8]) -> (op: FsOp)
        ensures
            op@ == (FsOpView::WriteFile {
                path: manifest_path(base@),
                data: render_manifest(MANIFEST_VERSION as nat, self@.on_disk),
            }),
    {
        FsOp::WriteFile { path: manifest_file(base), data: write_manifest(&self.on_disk) }
    }

    /// Makes `data` the newest generation of the entry in the directory
    /// `base`, at the time `now`, keeping at most `max_rem` generations, and
    /// hands back what is to be done on disk, in order.
    pub fn generational_write(
        &mut self,
        base: &[u8],
        data: &[u8],
        old_gen_encoding: Encoding,
        max_rem: usize,
        now: Duration,
    ) -> (plan: Vec<FsOp>)
        requires
            max_rem >= 1,
        ensures
            final(self)@ == old(self)@.after_write(old_gen_encoding, max_rem as nat, now@),
            plan_view(plan@) == write_plan(
                base@,
                old(self)@.on_disk,
                data@,
                old_gen_encoding,
                max_rem as nat,
                now@,
            ),
    {
        let ghost gens = records(self.on_disk@);
        let ghost len = gens.len();
        let ghost dir = base@;
        let mut plan: Vec<FsOp> = Vec::new();
        assert(plan_view(plan@) =~= Seq::<FsOpView>::empty());
        while self.on_disk.len() > max_rem
            invariant
                self.in_mem == old(self).in_mem,
                self.last_updated == old(self).last_updated,
                gens == records(old(self).on_disk@),
                len == gens.len(),
                dir == base@,
                self.on_disk@.len() <= len,
                len > max_rem ==> self.on_disk@.len() >= max_rem,
                len <= max_rem ==> self.on_disk@.len() == len,
                records(self.on_disk@) == gens.take(self.on_disk@.len() as int),
                plan_view(plan@) == truncation_ops(dir, len, max_rem as nat).take(
                    len - self.on_disk@.len(),
                ),
            decreases self.on_disk@.len(),
        {
            let ghost before = plan_view(plan@);
            let ghost held = self.on_disk@.len();
            plan.push(FsOp::RemoveFile { path: generation_file(base, self.on_disk.len()) });
            self.on_disk.pop_back();
            proof {
                assert(records(self.on_disk@) =~= gens.take(self.on_disk@.len() as int));
                assert(plan_view(plan@) =~= before.push(
                    FsOpView::RemoveFile { path: generation_path(dir, held as nat) },
                ));
                assert(plan_view(plan@) =~= truncation_ops(dir, len, max_rem as nat).take(
                    len - self.on_disk@.len(),
                ));
            }
        }
        let ghost cut = plan_view(plan@);
        assert(cut =~= truncation_ops(dir, len, max_rem as nat));
        let count: usize = if self.on_disk.len() < max_rem {
            self.on_disk.len()
        } else {
            max_rem - 1
        };
        assert(count == promoted_count(len, max_rem as nat));
        let mut queue: VecDeque<ContentGeneration> = VecDeque::new();
        let mut i: usize = count;
        assert(records(queue@) =~= promoted(gens, old_gen_encoding, max_rem as nat).skip(i as int));
        while i > 0
            invariant
                self.in_mem == old(self).in_mem,
                self.last_updated == old(self).last_updated,
                gens == records(old(self).on_disk@),
                len == gens.len(),
                dir == base@,
                0 <= i <= count,
                count == promoted_count(len, max_rem as nat),
                count <= self.on_disk@.len(),
                self.on_disk@.len() <= len,
                count < max_rem,
                records(self.on_disk@) == gens.take(self.on_disk@.len() as int),
                records(queue@) == promoted(gens, old_gen_encoding, max_rem as nat).skip(i as int),
                plan_view(plan@) == cut + promotion_ops(dir, count as nat, old_gen_encoding).take(
                    count - i,
                ),
            decreases i,
        {
            i -= 1;
            let ghost before = plan_view(plan@);
            let ghost queued = records(queue@);
            let gen = self.on_disk[i];
            assert(gen@ == gens[i as int]) by {
                assert(records(self.on_disk@)[i as int] == self.on_disk@[i as int]@);
                assert(gens.take(self.on_disk@.len() as int)[i as int] == gens[i as int]);
            }
            let from = generation_file(base, i);
            let to = generation_file(base, i + 1);
            let recode = i == 0 && match old_gen_encoding {
                Encoding::Plain => false,
                _ => true,
            };
            if recode {
                plan.push(FsOp::Recode { from, to, encoding: old_gen_encoding });
                queue.push_front(ContentGeneration { encoding: old_gen_encoding, age: gen.age });
            } else {
                plan.push(FsOp::Rename { from, to });
                queue.push_front(gen);
            }
            proof {
                let all = promoted(gens, old_gen_encoding, max_rem as nat);
                assert(records(queue@) =~= seq![all[i as int]] + queued);
                assert(records(queue@) =~= all.skip(i as int));
                assert(plan_view(plan@) =~= before.push(
                    promotion_op(dir, i as nat, old_gen_encoding),
                ));
                assert(plan_view(plan@) =~= cut + promotion_ops(
                    dir,
                    count as nat,
                    old_gen_encoding,
                ).take(count - i));
            }
        }
        let ghost moved = plan_view(plan@);
        assert(moved =~= cut + promotion_ops(dir, count as nat, old_gen_encoding));
        let ghost tail = records(queue@);
        assert(tail =~= promoted(gens, old_gen_encoding, max_rem as nat));
        queue.push_front(ContentGeneration { encoding: Encoding::Plain, age: now });
        assert(records(queue@) =~= written(gens, old_gen_encoding, max_rem as nat, now@));
        self.on_disk = queue;
        self.last_updated = now;
        plan.push(FsOp::WriteFile { path: generation_file(base, 0), data: to_vec(data) });
        plan.push(self.dump_metadata(base));
        proof {
            assert(plan_view(plan@) =~= write_plan(
                dir,
                gens,
                data@,
                old_gen_encoding,
                max_rem as nat,
                now@,
            ));
        }
        plan
    }

    /// Reads the state of a key at `now` from the manifest of its entry
    /// directory `base`, where `manifest` is the text of that manifest, if
    /// there is one.
    pub fn read_from_dir(
        base: &[u8],
        manifest: Option<&[u8]>,
        eager_load: bool,
        generation_opt: GenerationOpt,
        now: Duration,
    ) -> (r: Result<DirRead>)
        ensures
            match read_dir(
                base@,
                match manifest {
                    Some(text) => Some(text@),
                    None => None,
                },
                eager_load,
                generation_opt@.ttl,
                now@,
            ) {
                Ok(found) => r is Ok && r->Ok_0@ == found,
                Err(kind) => r is Err && r->Err_0.kind() == kind,
            },
    {
        let (version, entries) = match read_metadata(manifest) {
            Ok(Some(read)) => read,
            Ok(None) => {
                let removals: Vec<FsOp> = Vec::new();
                assert(plan_view(removals@) =~= Seq::<FsOpView>::empty());
                return Ok(DirRead { entry: None, removals, load: None });
            },
            Err(e) => {
                return Err(e);
            },
        };
        if version != MANIFEST_VERSION {
            return Err(Error::ParseManifest(String::from_str("Version mismatch")));
        }
        let ghost gens = records(entries@);
        let ghost dir = base@;
        let ttl = generation_opt.expiration().as_dur();
        let mut removals: Vec<FsOp> = Vec::new();
        let mut on_disk: VecDeque<ContentGeneration> = VecDeque::new();
        let mut last_updated: Option<Duration> = None;
        let mut ind: usize = 0;
        assert(gens.take(0) =~= Seq::<GenerationView>::empty());
        assert(plan_view(removals@) =~= Seq::<FsOpView>::empty());
        assert(records(on_disk@) =~= Seq::<GenerationView>::empty());
        while ind < entries.len()
            invariant
                0 <= ind <= entries.len(),
                gens == records(entries@),
                dir == base@,
                ttl@ == generation_opt@.ttl,
                records(on_disk@) == survivors(gens.take(ind as int), ttl@, now@),
                plan_view(removals@) == expiry_removals(dir, gens.take(ind as int), ttl@, now@),
                match last_updated {
                    Some(age) => gens.len() > 0 && !expired(gens[0].age, ttl@, now@) && age@
                        == gens[0].age,
                    None => ind == 0 || expired(gens[0].age, ttl@, now@),
                },
            decreases entries.len() - ind,
        {
            let gen = entries[ind];
            let ghost kept = records(on_disk@);
            let ghost gone = plan_view(removals@);
            proof {
                assert(gens.take(ind + 1).drop_last() =~= gens.take(ind as int));
                assert(gens.take(ind + 1).last() == gen@);
                assert(gens[ind as int] == entries@[ind as int]@);
            }
            if is_expired(gen.age, ttl, now) {
                removals.push(FsOp::RemoveFile { path: generation_file(base, ind) });
                assert(plan_view(removals@) =~= gone.push(
                    FsOpView::RemoveFile { path: generation_path(dir, ind as nat) },
                ));
            } else {
                if ind == 0 {
                    last_updated = Some(gen.age);
                }
                on_disk.push_back(gen);
                assert(records(on_disk@) =~= kept.push(gen@));
            }
            ind += 1;
        }
        assert(gens.take(ind as int) =~= gens);
        match last_updated {
            Some(last_updated) => {
                let load = if eager_load {
                    Some(generation_file(base, 0))
                } else {
                    None
                };
                Ok(
                    DirRead {
                        entry: Some(DirCacheEntry { in_mem: None, on_disk, last_updated }),
                        removals,
                        load,
                    },
                )
            },
            None => Ok(DirRead { entry: None, removals, load: None }),
        }
    }

    /// Holds `content`, read from the file of generation 0, in memory.
    pub fn preload(&mut self, content: Vec<u8>)
        ensures
            final(self)@ == old(self)@.with_loaded(content@),
    {
        self.in_mem = Some(InMemEntry { committed: true, content });
    }

    /// Whether the entry is too old to be read at `now`.
    pub fn is_stale(&self, ttl: Duration, now: Duration) -> (r: bool)
        ensures
            r == self@.is_stale(ttl@, now@),
    {
        if is_expired(self.last_updated, ttl, now) {
            return true;
        }
        if self.in_mem.is_some() {
            return false;
        }
        if self.on_disk.len() == 0 {
            return true;
        }
        assert(self@.on_disk[0] == self.on_disk@[0]@);
        is_expired(self.on_disk[0].age, ttl, now)
    }

    /// Stores the first value of a key, in the entry directory `path`, as
    /// `mem_push_opt` says. The copy in memory is not marked as committed,
    /// even where the value was written: it counts as the authority until
    /// the next flush, which writes it once more.
    pub fn insert_new_data(
        &mut self,
        path: &[u8],
        data: Vec<u8>,
        mem_push_opt: MemPushOpt,
        generation_opt: GenerationOpt,
        now: Duration,
    ) -> (plan: Vec<FsOp>)
        ensures
            final(self)@ == old(self)@.after_store(
                data@,
                mem_push_opt,
                generation_opt@.old_gen_encoding,
                generation_opt@.max_generations,
                now@,
                false,
            ),
            plan_view(plan@) == old(self)@.store_plan(
                path@,
                data@,
                mem_push_opt,
                generation_opt@.old_gen_encoding,
                generation_opt@.max_generations,
                now@,
            ),
    {
        match mem_push_opt {
            MemPushOpt::RetainAndWrite => {
                let plan = self.generational_write(
                    path,
                    data.as_slice(),
                    generation_opt.old_gen_encoding(),
                    generation_opt.max_generations(),
                    now,
                );
                self.in_mem = Some(InMemEntry { committed: false, content: data });
                plan
            },
            MemPushOpt::MemoryOnly => {
                self.in_mem = Some(InMemEntry { committed: false, content: data });
                self.last_updated = now;
                let plan: Vec<FsOp> = Vec::new();
                assert(plan_view(plan@) =~= Seq::<FsOpView>::empty());
                plan
            },
            MemPushOpt::PassthroughWrite => {
                self.in_mem = None;
                self.generational_write(
                    path,
                    data.as_slice(),
                    generation_opt.old_gen_encoding(),
                    generation_opt.max_generations(),
                    now,
                )
            },
        }
    }

    /// Flushes the entry to the directory `base`: a value in memory that
    /// has yet to reach the disk is written as the newest generation;
    /// otherwise only the manifest is written again.
    pub fn dump_in_mem(
        &mut self,
        base: &[u8],
        keep_in_mem: bool,
        keep_generations: usize,
        old_gen_encoding: Encoding,
        now: Duration,
    ) -> (plan: Vec<FsOp>)
        requires
            keep_generations >= 1,
        ensures
            final(self)@ == old(self)@.after_flush(
                keep_in_mem,
                old_gen_encoding,
                keep_generations as nat,
                now@,
            ),
            plan_view(plan@) == old(self)@.flush_plan(
                base@,
                old_gen_encoding,
                keep_generations as nat,
                now@,
            ),
    {
        let maybe_in_mem = self.in_mem.take();
        if let Some(mut in_mem) = maybe_in_mem {
            if !in_mem.committed {
                let plan = self.generational_write(
                    base,
                    in_mem.content.as_slice(),
                    old_gen_encoding,
                    keep_generations,
                    now,
                );
                if keep_in_mem {
                    in_mem.committed = true;
                    self.in_mem = Some(in_mem);
                }
                return plan;
            }
        }
        let mut plan: Vec<FsOp> = Vec::new();
        plan.push(self.dump_metadata(base));
        assert(plan_view(plan@) =~= old(self)@.flush_plan(
            base@,
            old_gen_encoding,
            keep_generations as nat,
            now@,
        ));
        plan
    }
}

} // verus!
