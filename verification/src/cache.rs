//! The cache: a root directory and the state of every key below it.
//!
//! An operation changes the state of the cache and says what is to be done
//! on disk. A write hands back the file operations to carry out, in order.
//! A read is a [`Lookup`]: the value is absent, or held in memory, or to be
//! read from a file, whose content is then handed in. A value that is too
//! old is let go of, and its entry directory is to be cleared as
//! [`try_remove_dir`](crate::disk::try_remove_dir) says.
//!
//! The operations whose name ends in `_at` are given the time. The others
//! read the clock, and their contracts say what holds at whatever time the
//! clock gave.

use crate::bytes::to_vec;
use crate::disk::{generation_file, generation_path, plan_view, FsOp, FsOpView};
use crate::entry::{DirCacheEntry, EntryView, InMemEntry};
use crate::error::{Error, ErrorKind, Result};
use crate::opts::{
    DirCacheOpts, Encoding, GenerationOpt, GenerationOptView, MemPullOpt, MemPushOpt, SyncOpt,
};
use crate::path_util::{is_safe_key, join, join_path, safe_join, safe_key};
use crate::scan::{DirScan, ScanView};
use crate::store::{
    distinct_keys, flushed, has_key, lemma_place, lemma_with_state, lemma_without, place_of,
    slots, state_of, with_state, without, Slot, SlotView,
};
use crate::time::{unix_time_now, Duration};
use vstd::prelude::*;
use vstd::string::StringExecFns;

verus! {

/// What flushing every key does to the disk, key by key in the order of
/// the list: the entry directory is made sure of, then the entry flushed.
pub open spec fn sync_plan(
    base: Seq<u8>,
    entries: Seq<SlotView>,
    encoding: Encoding,
    max: nat,
    now: nat,
) -> Seq<FsOpView>
    decreases entries.len(),
{
    if entries.len() == 0 {
        Seq::<FsOpView>::empty()
    } else {
        let dir = join(base, entries.last().key);
        sync_plan(base, entries.drop_last(), encoding, max, now) + seq![
            FsOpView::CreateDirAll { path: dir },
        ] + entries.last().entry.flush_plan(dir, encoding, max, now)
    }
}

/// What a cache is, in plain values: its root and its keys with their
/// states, in the order in which the keys came.
pub ghost struct CacheView {
    pub base: Seq<u8>,
    pub entries: Seq<SlotView>,
}

/// What is to be done to read the value of a key.
#[derive(Debug)]
pub enum Lookup {
    /// The key has no value.
    Absent,
    /// The key had a value that is too old; the cache has let go of it.
    /// The entry directory `dir` is to be cleared, and the key has no value.
    Expired { dir: Vec<u8> },
    /// The value is held in memory: [`DirCacheInner::cached`] hands it out.
    Cached,
    /// The value is on disk only. The file at `path` is to be read and its
    /// content handed to [`DirCacheInner::loaded`].
    Load { path: Vec<u8> },
}

pub ghost enum LookupView {
    Absent,
    Expired { dir: Seq<u8> },
    Cached,
    Load { path: Seq<u8> },
}

impl View for Lookup {
    type V = LookupView;

    open spec fn view(&self) -> LookupView {
        match self {
            Lookup::Absent => LookupView::Absent,
            Lookup::Expired { dir } => LookupView::Expired { dir: dir@ },
            Lookup::Cached => LookupView::Cached,
            Lookup::Load { path } => LookupView::Load { path: path@ },
        }
    }
}

/// What became of the content that was read for a key.
#[derive(Debug)]
pub enum Fetched {
    /// The content is now held in memory: [`DirCacheInner::cached`] hands it out.
    Kept,
    /// The content is handed back and not held.
    Owned(Vec<u8>),
}

impl CacheView {
    /// Whether the cache is in order: no key stands twice, and every key is safe.
    pub open spec fn wf(self) -> bool {
        &&& distinct_keys(self.entries)
        &&& forall|i: int|
            0 <= i < self.entries.len() ==> safe_key((#[trigger] self.entries[i]).key)
    }

    /// The entry directory of `key`.
    pub open spec fn dir_of(self, key: Seq<u8>) -> Seq<u8> {
        join(self.base, key)
    }

    /// What is to be done to read `key` at `now`.
    pub open spec fn lookup(self, key: Seq<u8>, ttl: nat, now: nat) -> LookupView {
        match state_of(self.entries, key) {
            None => LookupView::Absent,
            Some(entry) => if entry.is_stale(ttl, now) {
                LookupView::Expired { dir: self.dir_of(key) }
            } else if entry.in_mem is Some {
                LookupView::Cached
            } else {
                LookupView::Load { path: generation_path(self.dir_of(key), 0) }
            },
        }
    }

    /// The cache after `key` was looked up at `now`: a key that is too old is gone.
    pub open spec fn after_lookup(self, key: Seq<u8>, ttl: nat, now: nat) -> CacheView {
        match state_of(self.entries, key) {
            Some(entry) if entry.is_stale(ttl, now) => CacheView {
                entries: without(self.entries, key),
                ..self
            },
            _ => self,
        }
    }

    /// The state of `key` from which a write starts: the state it has, or
    /// that of a key that holds nothing yet.
    pub open spec fn state_or_fresh(self, key: Seq<u8>) -> EntryView {
        match state_of(self.entries, key) {
            Some(entry) => entry,
            None => EntryView::fresh(),
        }
    }

    /// The cache after `data` was inserted under `key` at `now`. The copy
    /// in memory of a value that was also written counts as committed only
    /// where the key was there before.
    pub open spec fn after_insert(
        self,
        key: Seq<u8>,
        data: Seq<u8>,
        push: MemPushOpt,
        gen: GenerationOptView,
        now: nat,
    ) -> CacheView {
        CacheView {
            entries: with_state(
                self.entries,
                key,
                self.state_or_fresh(key).after_store(
                    data,
                    push,
                    gen.old_gen_encoding,
                    gen.max_generations,
                    now,
                    has_key(self.entries, key),
                ),
            ),
            ..self
        }
    }

    /// What inserting `data` under `key` does to the disk: with
    /// `MemoryOnly` nothing; else the entry directory is made sure of, and
    /// the data written as the newest generation.
    pub open spec fn insert_plan(
        self,
        key: Seq<u8>,
        data: Seq<u8>,
        push: MemPushOpt,
        gen: GenerationOptView,
        now: nat,
    ) -> Seq<FsOpView> {
        match push {
            MemPushOpt::MemoryOnly => Seq::<FsOpView>::empty(),
            _ => seq![FsOpView::CreateDirAll { path: self.dir_of(key) }]
                + self.state_or_fresh(key).store_plan(
                self.dir_of(key),
                data,
                push,
                gen.old_gen_encoding,
                gen.max_generations,
                now,
            ),
        }
    }

    /// What inserting the first value of `key` does to the disk, where the
    /// value was made for the purpose: the entry directory is made sure
    /// of, whatever `push` says, and the data stored as `push` says.
    pub open spec fn first_insert_plan(
        self,
        key: Seq<u8>,
        data: Seq<u8>,
        push: MemPushOpt,
        gen: GenerationOptView,
        now: nat,
    ) -> Seq<FsOpView> {
        seq![FsOpView::CreateDirAll { path: self.dir_of(key) }] + EntryView::fresh().store_plan(
            self.dir_of(key),
            data,
            push,
            gen.old_gen_encoding,
            gen.max_generations,
            now,
        )
    }

    /// The cache after a flush at `now`.
    pub open spec fn after_sync(self, push: MemPushOpt, gen: GenerationOptView, now: nat)
        -> CacheView {
        CacheView {
            entries: flushed(
                self.entries,
                push == MemPushOpt::RetainAndWrite,
                gen.old_gen_encoding,
                gen.max_generations,
                now,
            ),
            ..self
        }
    }

    /// Whether `r` and the cache `after` are what looking up `key` comes
    /// to at some time: a key that the cache does not hold is absent,
    /// whatever the time; for any other key the time is read, which can fail.
    pub open spec fn looked_up(self, after: CacheView, r: Result<Lookup>, key: Seq<u8>, ttl: nat)
        -> bool {
        if !has_key(self.entries, key) {
            r is Ok && r->Ok_0@ == LookupView::Absent && after == self
        } else {
            match r {
                Err(e) => e.kind() == ErrorKind::SystemTime && after == self,
                Ok(lookup) => exists|now: nat|
                    lookup@ == #[trigger] self.lookup(key, ttl, now) && after == self.after_lookup(
                        key,
                        ttl,
                        now,
                    ),
            }
        }
    }

    /// Whether `r` and the cache `after` are what inserting `data` under
    /// `key` comes to at some time: a key that is not safe is refused;
    /// for any other key the time is read, which can fail.
    pub open spec fn inserted(
        self,
        after: CacheView,
        r: Result<Vec<FsOp>>,
        key: Seq<u8>,
        data: Seq<u8>,
        push: MemPushOpt,
        gen: GenerationOptView,
    ) -> bool {
        if !safe_key(key) {
            r is Err && r->Err_0.kind() == ErrorKind::DangerousKey && after == self
        } else {
            match r {
                Err(e) => e.kind() == ErrorKind::SystemTime && after == self,
                Ok(plan) => exists|now: nat|
                    after == #[trigger] self.after_insert(key, data, push, gen, now) && plan_view(
                        plan@,
                    ) == self.insert_plan(key, data, push, gen, now),
            }
        }
    }

    /// Whether `r` and the cache `after` are what looking up `key` at
    /// `now` comes to, where the value of a key that the cache does not
    /// hold is inserted first and making it came to `made`.
    pub open spec fn got_or_inserted(
        self,
        after: CacheView,
        r: Result<(Vec<FsOp>, Lookup)>,
        key: Seq<u8>,
        made: core::result::Result<Vec<u8>, String>,
        push: MemPushOpt,
        gen: GenerationOptView,
        now: nat,
    ) -> bool {
        if has_key(self.entries, key) {
            r matches Ok((plan, lookup)) && plan@.len() == 0 && lookup@ == self.lookup(
                key,
                gen.ttl,
                now,
            ) && after == self.after_lookup(key, gen.ttl, now)
        } else {
            match made {
                Err(_) => r is Err && r->Err_0.kind() == ErrorKind::InsertWithErr && after == self,
                Ok(data) => if !safe_key(key) {
                    r is Err && r->Err_0.kind() == ErrorKind::DangerousKey && after == self
                } else {
                    let stored = self.after_insert(key, data@, push, gen, now);
                    r matches Ok((plan, lookup)) && plan_view(plan@) == self.first_insert_plan(
                        key,
                        data@,
                        push,
                        gen,
                        now,
                    ) && lookup@ == stored.lookup(key, gen.ttl, now) && after
                        == stored.after_lookup(key, gen.ttl, now)
                },
            }
        }
    }

    /// Whether `r` and the cache `after` are what looking up `key` comes to
    /// at some time, where the value of a key that the cache does not hold
    /// is inserted first and making it came to `made`. The value is made,
    /// and the key looked at, before the time is read, which can fail.
    pub open spec fn got_or_inserted_now(
        self,
        after: CacheView,
        r: Result<(Vec<FsOp>, Lookup)>,
        key: Seq<u8>,
        made: core::result::Result<Vec<u8>, String>,
        push: MemPushOpt,
        gen: GenerationOptView,
    ) -> bool {
        let at_some_time = match r {
            Err(e) => e.kind() == ErrorKind::SystemTime && after == self,
            Ok(_) => exists|now: nat| #[trigger]
                self.got_or_inserted(after, r, key, made, push, gen, now),
        };
        if has_key(self.entries, key) {
            at_some_time
        } else {
            match made {
                Err(_) => r is Err && r->Err_0.kind() == ErrorKind::InsertWithErr && after == self,
                Ok(_) => if !safe_key(key) {
                    r is Err && r->Err_0.kind() == ErrorKind::DangerousKey && after == self
                } else {
                    at_some_time
                },
            }
        }
    }

    /// Whether some key holds a value in memory that has yet to reach the disk.
    pub open spec fn has_unwritten(self) -> bool {
        exists|i: int| 0 <= i < self.entries.len() && (#[trigger] self.entries[i]).entry.is_dirty()
    }

    /// Whether `r` and the cache `after` are what a flush comes to at some
    /// time. The time is read, which can fail, only where some value has
    /// yet to reach the disk.
    pub open spec fn synced(
        self,
        after: CacheView,
        r: Result<Vec<FsOp>>,
        push: MemPushOpt,
        gen: GenerationOptView,
    ) -> bool {
        match r {
            Err(e) => e.kind() == ErrorKind::SystemTime && after == self && self.has_unwritten(),
            Ok(plan) => exists|now: nat|
                after == #[trigger] self.after_sync(push, gen, now) && plan_view(plan@)
                    == sync_plan(
                    self.base,
                    self.entries,
                    gen.old_gen_encoding,
                    gen.max_generations,
                    now,
                ),
        }
    }

    /// Whether `plan` and the cache `after` are what letting go of the
    /// cache comes to under the options `opts`. Without a flush on drop
    /// there is nothing to do and nothing changes. With it the cache is
    /// flushed as [`CacheView::synced`] says; the flush can only fail to
    /// come about, leaving nothing to do and nothing changed, where some
    /// value has yet to reach the disk, for only then is the time read.
    pub open spec fn closed(self, after: CacheView, plan: Vec<FsOp>, opts: DirCacheOpts) -> bool {
        let flushed = self.synced(
            after,
            Ok::<Vec<FsOp>, Error>(plan),
            opts.mem_push_opt,
            opts.generation_opt@,
        );
        let nothing = plan@.len() == 0 && after == self;
        match opts.sync_opt {
            SyncOpt::ManualSync => nothing,
            SyncOpt::SyncOnDrop => if self.has_unwritten() {
                nothing || flushed
            } else {
                flushed
            },
        }
    }

    /// The cache after the content read for `key` was handed in.
    pub open spec fn after_loaded(self, key: Seq<u8>, content: Seq<u8>, pull: MemPullOpt)
        -> CacheView {
        match state_of(self.entries, key) {
            Some(entry) if pull == MemPullOpt::KeepInMemoryOnRead => CacheView {
                entries: with_state(self.entries, key, entry.with_loaded(content)),
                ..self
            },
            _ => self,
        }
    }

    /// The value of `key` that is held in memory, if any.
    pub open spec fn cached(self, key: Seq<u8>) -> Option<Seq<u8>> {
        match state_of(self.entries, key) {
            Some(entry) if entry.in_mem is Some => Some(entry.in_mem->0.content),
            _ => None,
        }
    }
}

/// The state of every key below a root directory.
#[derive(Debug)]
pub struct DirCacheInner {
    base: Vec<u8>,
    store: Vec<Slot>,
}

impl View for DirCacheInner {
    type V = CacheView;

    closed spec fn view(&self) -> CacheView {
        CacheView { base: self.base@, entries: slots(self.store@) }
    }
}

impl DirCacheInner {
    /// Whether the cache is in order: no key stands twice, and every key is safe.
    pub open spec fn wf(&self) -> bool {
        self@.wf()
    }

    /// A cache at `base` that holds no key.
    pub fn empty(base: Vec<u8>) -> (cache: Self)
        ensures
            cache.wf(),
            cache@ == (CacheView { base: base@, entries: Seq::<SlotView>::empty() }),
    {
        let cache = Self { base, store: Vec::new() };
        assert(cache@.entries =~= Seq::<SlotView>::empty());
        cache
    }

    /// The root directory.
    pub fn base(&self) -> (base: &[u8])
        ensures
            base@ == self@.base,
    {
        self.base.as_slice()
    }

    /// The place of `key` in the store, if the store has it.
    fn find(&self, key: &[u8]) -> (at: Option<usize>)
        ensures
            match at {
                Some(i) => i < self.store@.len() && self.store@[i as int].key@ == key@,
                None => !has_key(self@.entries, key@),
            },
            self.wf() && at is Some ==> has_key(self@.entries, key@) && place_of(
                self@.entries,
                key@,
            ) == at->0,
    {
        let mut i: usize = 0;
        while i < self.store.len()
            invariant
                0 <= i <= self.store.len(),
                forall|j: int| 0 <= j < i ==> self.store@[j].key@ != key@,
            decreases self.store.len() - i,
        {
            if crate::bytes::same_bytes(self.store[i].key.as_slice(), key) {
                proof {
                    assert(slots(self.store@)[i as int].key == key@);
                    if self.wf() {
                        lemma_place(self@.entries, i as int);
                    }
                }
                return Some(i);
            }
            i += 1;
        }
        proof {
            if has_key(self@.entries, key@) {
                let j = place_of(self@.entries, key@);
                assert(slots(self.store@)[j].key == self.store@[j].key@);
            }
        }
        None
    }

    /// Whether some key holds a value in memory that has yet to reach the disk.
    pub fn has_unwritten(&self) -> (r: bool)
        ensures
            r == self@.has_unwritten(),
    {
        let mut i: usize = 0;
        while i < self.store.len()
            invariant
                0 <= i <= self.store.len(),
                forall|j: int| 0 <= j < i ==> !(#[trigger] self@.entries[j]).entry.is_dirty(),
            decreases self.store.len() - i,
        {
            assert(self@.entries[i as int] == self.store@[i as int]@);
            let dirty = match &self.store[i].entry.in_mem {
                Some(in_mem) => !in_mem.committed,
                None => false,
            };
            if dirty {
                return true;
            }
            i += 1;
        }
        false
    }

    /// Whether the cache holds `key`.
    pub fn contains_key(&self, key: &[u8]) -> (r: bool)
        ensures
            r == has_key(self@.entries, key@),
    {
        match self.find(key) {
            Some(i) => {
                assert(slots(self.store@)[i as int].key == key@);
                true
            },
            None => false,
        }
    }

    /// The value of `key` that is held in memory, if any.
    pub fn cached(&self, key: &[u8]) -> (r: Option<&[u8]>)
        requires
            self.wf(),
        ensures
            match self@.cached(key@) {
                Some(content) => r is Some && r->0@ == content,
                None => r is None,
            },
    {
        match self.find(key) {
            Some(i) => {
                assert(slots(self.store@)[i as int] == self.store@[i as int]@);
                match &self.store[i].entry.in_mem {
                    Some(in_mem) => Some(in_mem.content.as_slice()),
                    None => None,
                }
            },
            None => None,
        }
    }

    /// Gives `key` the state `entry`, whether the cache holds the key or not.
    pub fn put(&mut self, key: Vec<u8>, entry: DirCacheEntry)
        requires
            old(self).wf(),
            safe_key(key@),
        ensures
            final(self).wf(),
            final(self)@ == (CacheView {
                entries: with_state(old(self)@.entries, key@, entry@),
                ..old(self)@
            }),
    {
        let ghost before = self@.entries;
        let slot = Slot { key, entry };
        let ghost after = slot@;
        match self.find(slot.key.as_slice()) {
            Some(at) => {
                self.store.remove(at);
                self.store.insert(at, slot);
                proof {
                    assert(self@.entries =~= before.update(at as int, after));
                }
            },
            None => {
                self.store.push(slot);
                proof {
                    assert(self@.entries =~= before.push(after));
                }
            },
        }
        proof {
            lemma_with_state(before, after.key, after.entry);
        }
    }

    /// Starts the scan that finds the keys below `base` on disk.
    pub fn read_from_disk(base: Vec<u8>, eager_load: bool, opts: DirCacheOpts) -> (scan: DirScan)
        ensures
            scan.wf(),
            scan.spec_opts() == opts,
            scan@ == (ScanView {
                cache: CacheView { base: base@, entries: Seq::<SlotView>::empty() },
                queue: seq![base@],
                eager_load,
                pending: None,
            }),
    {
        DirScan::start(base, eager_load, opts)
    }

    /// Looks up `key` at `now` and says what is to be done to read its
    /// value. A key that is too old is let go of.
    pub fn get_opt(&mut self, key: &[u8], generation_opt: GenerationOpt, now: Duration) -> (r:
        Lookup)
        requires
            old(self).wf(),
        ensures
            final(self).wf(),
            final(self)@ == old(self)@.after_lookup(key@, generation_opt@.ttl, now@),
            r@ == old(self)@.lookup(key@, generation_opt@.ttl, now@),
    {
        let at = match self.find(key) {
            Some(at) => at,
            None => {
                return Lookup::Absent;
            },
        };
        assert(slots(self.store@)[at as int] == self.store@[at as int]@);
        let path = join_path(self.base.as_slice(), key);
        let ttl = generation_opt.expiration().as_dur();
        if self.store[at].entry.is_stale(ttl, now) {
            let ghost before = self@.entries;
            self.store.remove(at);
            proof {
                assert(self@.entries =~= before.remove(at as int));
                lemma_without(before, at as int);
            }
            return Lookup::Expired { dir: path };
        }
        if self.store[at].entry.in_mem.is_some() {
            return Lookup::Cached;
        }
        Lookup::Load { path: generation_file(path.as_slice(), 0) }
    }

    /// Takes the content that was read for `key` from the file of
    /// generation 0; `None` says that there was no such file, which is a
    /// failure. With `KeepInMemoryOnRead` the content is held in memory
    /// from now on, as committed; else it is handed back.
    pub fn loaded(&mut self, key: &[u8], content: Option<Vec<u8>>, mem_pull_opt: MemPullOpt) -> (r:
        Result<Fetched>)
        requires
            old(self).wf(),
        ensures
            final(self).wf(),
            match content {
                None => r is Err && r->Err_0.kind() == ErrorKind::ReadContent && final(self)@
                    == old(self)@,
                Some(c) => r is Ok && final(self)@ == old(self)@.after_loaded(
                    key@,
                    c@,
                    mem_pull_opt,
                ) && match r->Ok_0 {
                    Fetched::Kept => mem_pull_opt == MemPullOpt::KeepInMemoryOnRead && has_key(
                        old(self)@.entries,
                        key@,
                    ),
                    Fetched::Owned(bytes) => bytes@ == c@ && !(mem_pull_opt
                        == MemPullOpt::KeepInMemoryOnRead && has_key(old(self)@.entries, key@)),
                },
            },
    {
        let content = match content {
            Some(content) => content,
            None => {
                return Err(
                    Error::ReadContent(
                        String::from_str("No file present on disk where expected"),
                        None,
                    ),
                );
            },
        };
        let keep = match mem_pull_opt {
            MemPullOpt::KeepInMemoryOnRead => true,
            MemPullOpt::DontKeepInMemoryOnRead => false,
        };
        if !keep {
            return Ok(Fetched::Owned(content));
        }
        match self.find(key) {
            None => Ok(Fetched::Owned(content)),
            Some(at) => {
                let ghost before = self@.entries;
                let mut slot = self.store.remove(at);
                assert(slot@ == before[at as int]);
                slot.entry.preload(content);
                let ghost after = slot@;
                self.store.insert(at, slot);
                proof {
                    assert(self@.entries =~= before.update(at as int, after));
                    lemma_with_state(before, key@, after.entry);
                }
                Ok(Fetched::Kept)
            },
        }
    }

    /// Stores `content` in an entry that the cache held before, in the
    /// entry directory `path`. Where the content is written, the entry
    /// directory is made sure of first, and the copy in memory, if one is
    /// kept, counts as committed.
    pub fn run_dir_cache_entry_write(
        dc: &mut DirCacheEntry,
        path: &[u8],
        content: Vec<u8>,
        mem_push_opt: MemPushOpt,
        generation_opt: GenerationOpt,
        now: Duration,
    ) -> (plan: Vec<FsOp>)
        ensures
            final(dc)@ == old(dc)@.after_store(
                content@,
                mem_push_opt,
                generation_opt@.old_gen_encoding,
                generation_opt@.max_generations,
                now@,
                true,
            ),
            plan_view(plan@) == match mem_push_opt {
                MemPushOpt::MemoryOnly => Seq::<FsOpView>::empty(),
                _ => seq![FsOpView::CreateDirAll { path: path@ }] + old(dc)@.store_plan(
                    path@,
                    content@,
                    mem_push_opt,
                    generation_opt@.old_gen_encoding,
                    generation_opt@.max_generations,
                    now@,
                ),
            },
    {
        let mut plan: Vec<FsOp> = Vec::new();
        assert(plan_view(plan@) =~= Seq::<FsOpView>::empty());
        match mem_push_opt {
            MemPushOpt::RetainAndWrite => {
                plan.push(FsOp::CreateDirAll { path: to_vec(path) });
                let ghost first = plan_view(plan@);
                assert(first =~= seq![FsOpView::CreateDirAll { path: path@ }]);
                let mut write = dc.generational_write(
                    path,
                    content.as_slice(),
                    generation_opt.old_gen_encoding(),
                    generation_opt.max_generations(),
                    now,
                );
                let ghost rest = plan_view(write@);
                plan.append(&mut write);
                assert(plan_view(plan@) =~= first + rest);
                dc.in_mem = Some(InMemEntry { committed: true, content });
            },
            MemPushOpt::MemoryOnly => {
                dc.in_mem = Some(InMemEntry { committed: false, content });
                dc.last_updated = now;
            },
            MemPushOpt::PassthroughWrite => {
                dc.in_mem = None;
                plan.push(FsOp::CreateDirAll { path: to_vec(path) });
                let ghost first = plan_view(plan@);
                assert(first =~= seq![FsOpView::CreateDirAll { path: path@ }]);
                let mut write = dc.generational_write(
                    path,
                    content.as_slice(),
                    generation_opt.old_gen_encoding(),
                    generation_opt.max_generations(),
                    now,
                );
                let ghost rest = plan_view(write@);
                plan.append(&mut write);
                assert(plan_view(plan@) =~= first + rest);
            },
        }
        plan
    }

    /// Inserts `content` as the value of `key` at `now`, and hands back
    /// what is to be done on disk, in order. A key that is not safe is
    /// refused, and nothing changes.
    pub fn insert_opt(
        &mut self,
        key: &[u8],
        content: Vec<u8>,
        mem_push_opt: MemPushOpt,
        generation_opt: GenerationOpt,
        now: Duration,
    ) -> (r: Result<Vec<FsOp>>)
        requires
            old(self).wf(),
        ensures
            final(self).wf(),
            !safe_key(key@) ==> r is Err && r->Err_0.kind() == ErrorKind::DangerousKey
                && final(self)@ == old(self)@,
            safe_key(key@) ==> r is Ok && final(self)@ == old(self)@.after_insert(
                key@,
                content@,
                mem_push_opt,
                generation_opt@,
                now@,
            ) && plan_view(r->Ok_0@) == old(self)@.insert_plan(
                key@,
                content@,
                mem_push_opt,
                generation_opt@,
                now@,
            ),
    {
        let path = match safe_join(self.base.as_slice(), key) {
            Ok(path) => path,
            Err(e) => {
                return Err(e);
            },
        };
        let ghost before = self@.entries;
        match self.find(key) {
            Some(at) => {
                let mut slot = self.store.remove(at);
                assert(slot@ == before[at as int]);
                let plan = Self::run_dir_cache_entry_write(
                    &mut slot.entry,
                    path.as_slice(),
                    content,
                    mem_push_opt,
                    generation_opt,
                    now,
                );
                let ghost after = slot@;
                self.store.insert(at, slot);
                proof {
                    assert(self@.entries =~= before.update(at as int, after));
                    lemma_with_state(before, key@, after.entry);
                }
                Ok(plan)
            },
            None => {
                let mut dc = DirCacheEntry::new();
                let mut plan: Vec<FsOp> = Vec::new();
                assert(plan_view(plan@) =~= Seq::<FsOpView>::empty());
                match mem_push_opt {
                    MemPushOpt::MemoryOnly => {},
                    _ => {
                        plan.push(FsOp::CreateDirAll { path: to_vec(path.as_slice()) });
                    },
                }
                let ghost first = plan_view(plan@);
                let mut write = dc.insert_new_data(
                    path.as_slice(),
                    content,
                    mem_push_opt,
                    generation_opt,
                    now,
                );
                let ghost rest = plan_view(write@);
                plan.append(&mut write);
                assert(plan_view(plan@) =~= first + rest);
                let slot = Slot { key: to_vec(key), entry: dc };
                let ghost after = slot@;
                self.store.push(slot);
                proof {
                    assert(self@.entries =~= before.push(after));
                    lemma_with_state(before, key@, after.entry);
                    assert(plan_view(plan@) =~= old(self)@.insert_plan(
                        key@,
                        content@,
                        mem_push_opt,
                        generation_opt@,
                        now@,
                    ));
                }
                Ok(plan)
            },
        }
    }

    /// Looks up `key` at `now`. Where the cache does not hold the key, the
    /// value is made by `insert_with` and inserted first; what that does to
    /// the disk comes back with what is to be done to read the value. The
    /// maker is not called for a key that the cache holds.
    pub fn get_or_insert_opt<F: FnOnce() -> core::result::Result<Vec<u8>, String>>(
        &mut self,
        key: &[u8],
        insert_with: F,
        mem_push_opt: MemPushOpt,
        generation_opt: GenerationOpt,
        now: Duration,
    ) -> (r: Result<(Vec<FsOp>, Lookup)>)
        requires
            old(self).wf(),
            insert_with.requires(()),
        ensures
            final(self).wf(),
            has_key(old(self)@.entries, key@) ==> forall|
                made: core::result::Result<Vec<u8>, String>,
            |
                #[trigger] old(self)@.got_or_inserted(
                    final(self)@,
                    r,
                    key@,
                    made,
                    mem_push_opt,
                    generation_opt@,
                    now@,
                ),
            !has_key(old(self)@.entries, key@) ==> exists|
                made: core::result::Result<Vec<u8>, String>,
            |
                insert_with.ensures((), made) && #[trigger] old(self)@.got_or_inserted(
                    final(self)@,
                    r,
                    key@,
                    made,
                    mem_push_opt,
                    generation_opt@,
                    now@,
                ),
    {
        if self.contains_key(key) {
            let lookup = self.get_opt(key, generation_opt, now);
            return Ok((Vec::new(), lookup));
        }
        let made = insert_with();
        let ghost made_view = made;
        let r = match made {
            Ok(val) => self.insert_made(key, val, mem_push_opt, generation_opt, now),
            Err(e) => Err(Error::InsertWithErr(e)),
        };
        assert(old(self)@.got_or_inserted(
            self@,
            r,
            key@,
            made_view,
            mem_push_opt,
            generation_opt@,
            now@,
        ));
        r
    }

    /// Inserts `val`, which was made for the purpose, as the first value
    /// of `key` at `now`, and looks the key up. The entry directory is made
    /// sure of, whatever `mem_push_opt` says.
    pub fn insert_made(
        &mut self,
        key: &[u8],
        val: Vec<u8>,
        mem_push_opt: MemPushOpt,
        generation_opt: GenerationOpt,
        now: Duration,
    ) -> (r: Result<(Vec<FsOp>, Lookup)>)
        requires
            old(self).wf(),
            !has_key(old(self)@.entries, key@),
        ensures
            final(self).wf(),
            old(self)@.got_or_inserted(
                final(self)@,
                r,
                key@,
                Ok::<Vec<u8>, String>(val),
                mem_push_opt,
                generation_opt@,
                now@,
            ),
    {
        let use_path = match safe_join(self.base.as_slice(), key) {
            Ok(path) => path,
            Err(e) => {
                return Err(e);
            },
        };
        let ghost before = self@.entries;
        let mut entry = DirCacheEntry::new();
        let mut plan: Vec<FsOp> = Vec::new();
        plan.push(FsOp::CreateDirAll { path: to_vec(use_path.as_slice()) });
        let ghost first = plan_view(plan@);
        assert(first =~= seq![FsOpView::CreateDirAll { path: use_path@ }]);
        let mut write = entry.insert_new_data(
            use_path.as_slice(),
            val,
            mem_push_opt,
            generation_opt,
            now,
        );
        let ghost rest = plan_view(write@);
        plan.append(&mut write);
        assert(plan_view(plan@) =~= first + rest);
        let slot = Slot { key: to_vec(key), entry };
        let ghost after = slot@;
        self.store.push(slot);
        proof {
            assert(self@.entries =~= before.push(after));
            lemma_with_state(before, key@, after.entry);
        }
        let lookup = self.get_opt(key, generation_opt, now);
        Ok((plan, lookup))
    }

    /// Flushes every key to disk at `now`, and hands back what is to be
    /// done, in order. A value that is held in memory stays there only
    /// where it had yet to reach the disk and `mem_push_opt` is
    /// `RetainAndWrite`.
    pub fn sync_to_disk(
        &mut self,
        mem_push_opt: MemPushOpt,
        generation_opt: GenerationOpt,
        now: Duration,
    ) -> (plan: Vec<FsOp>)
        requires
            old(self).wf(),
        ensures
            final(self).wf(),
            final(self)@ == old(self)@.after_sync(mem_push_opt, generation_opt@, now@),
            plan_view(plan@) == sync_plan(
                old(self)@.base,
                old(self)@.entries,
                generation_opt@.old_gen_encoding,
                generation_opt@.max_generations,
                now@,
            ),
    {
        let keep = match mem_push_opt {
            MemPushOpt::RetainAndWrite => true,
            _ => false,
        };
        let max_rem = generation_opt.max_generations();
        let encoding = generation_opt.old_gen_encoding();
        let ghost before = self@.entries;
        let ghost after = flushed(before, keep, encoding, max_rem as nat, now@);
        let mut plan: Vec<FsOp> = Vec::new();
        let mut i: usize = 0;
        assert(before.take(0) =~= Seq::<SlotView>::empty());
        assert(plan_view(plan@) =~= Seq::<FsOpView>::empty());
        assert(self@.entries =~= after.take(0) + before.skip(0));
        while i < self.store.len()
            invariant
                0 <= i <= self.store@.len(),
                self.store@.len() == before.len(),
                self.base == old(self).base,
                before == old(self)@.entries,
                after == flushed(before, keep, encoding, max_rem as nat, now@),
                max_rem >= 1,
                self@.entries == after.take(i as int) + before.skip(i as int),
                plan_view(plan@) == sync_plan(
                    self.base@,
                    before.take(i as int),
                    encoding,
                    max_rem as nat,
                    now@,
                ),
            decreases self.store@.len() - i,
        {
            let ghost held = self@.entries;
            let ghost done = plan_view(plan@);
            let mut slot = self.store.remove(i);
            assert(slot@ == held[i as int]);
            assert(slot@ == before[i as int]);
            let dir = join_path(self.base.as_slice(), slot.key.as_slice());
            plan.push(FsOp::CreateDirAll { path: to_vec(dir.as_slice()) });
            let mut flush = slot.entry.dump_in_mem(dir.as_slice(), keep, max_rem, encoding, now);
            let ghost flush_view = plan_view(flush@);
            plan.append(&mut flush);
            let ghost renewed = slot@;
            self.store.insert(i, slot);
            proof {
                assert(renewed == after[i as int]);
                assert(self@.entries =~= held.update(i as int, renewed));
                assert(before.take(i + 1).drop_last() =~= before.take(i as int));
                assert(before.take(i + 1).last() == before[i as int]);
                assert(plan_view(plan@) =~= done + seq![FsOpView::CreateDirAll { path: dir@ }]
                    + flush_view);
                assert(self@.entries =~= after.take(i + 1) + before.skip(i + 1));
            }
            i += 1;
        }
        proof {
            assert(before.take(i as int) =~= before);
            assert(self@.entries =~= after);
            assert forall|a: int, b: int|
                0 <= a < after.len() && 0 <= b < after.len() && a != b implies (
            #[trigger] after[a]).key != (#[trigger] after[b]).key by {
                assert(after[a].key == before[a].key && after[b].key == before[b].key);
            }
            assert forall|a: int| 0 <= a < after.len() implies safe_key(
                (#[trigger] after[a]).key,
            ) by {
                assert(after[a].key == before[a].key);
            }
        }
        plan
    }

    /// Removes `key` from the cache and hands back its entry directory,
    /// which is to be cleared; `None` where the cache does not hold the key.
    pub fn remove(&mut self, key: &[u8]) -> (dir: Option<Vec<u8>>)
        requires
            old(self).wf(),
        ensures
            final(self).wf(),
            final(self)@ == (CacheView {
                entries: without(old(self)@.entries, key@),
                ..old(self)@
            }),
            !has_key(final(self)@.entries, key@),
            match dir {
                Some(d) => has_key(old(self)@.entries, key@) && d@ == old(self)@.dir_of(key@),
                None => !has_key(old(self)@.entries, key@),
            },
    {
        let at = self.find(key);
        match at {
            None => None,
            Some(i) => {
                let ghost before = self@.entries;
                self.store.remove(i);
                proof {
                    assert(self@.entries =~= before.remove(i as int));
                    lemma_without(before, i as int);
                }
                Some(join_path(self.base.as_slice(), key))
            },
        }
    }
}

/// A directory-based cache with a map-like interface.
#[derive(Debug)]
pub struct DirCache {
    inner: DirCacheInner,
    opts: DirCacheOpts,
}

impl View for DirCache {
    type V = CacheView;

    closed spec fn view(&self) -> CacheView {
        self.inner@
    }
}

impl DirCache {
    /// Whether the cache is in order; every cache that this crate hands out is.
    pub open spec fn wf(&self) -> bool {
        self@.wf()
    }

    /// The cache that holds what `inner` holds, with the options `opts`.
    pub fn new(inner: DirCacheInner, opts: DirCacheOpts) -> (cache: DirCache)
        ensures
            cache@ == inner@,
            cache.spec_opts() == opts,
    {
        DirCache { inner, opts }
    }

    /// The options of the cache.
    pub closed spec fn spec_opts(&self) -> DirCacheOpts {
        self.opts
    }

    /// The options that this cache was opened with, for instance to change
    /// one of them for a single operation.
    pub fn opts(&self) -> (opts: &DirCacheOpts)
        ensures
            *opts == self.spec_opts(),
    {
        &self.opts
    }

    /// Looks up `key` now, with the options of the cache, and says what is
    /// to be done to read its value.
    pub fn get(&mut self, key: &[u8]) -> (r: Result<Lookup>)
        requires
            old(self).wf(),
        ensures
            final(self).wf(),
            final(self).spec_opts() == old(self).spec_opts(),
            old(self)@.looked_up(
                final(self)@,
                r,
                key@,
                old(self).spec_opts().generation_opt@.ttl,
            ),
    {
        let opts = self.opts;
        self.get_opt(key, opts)
    }

    /// Same as [`DirCache::get`], with other options than those of the cache.
    pub fn get_opt(&mut self, key: &[u8], opts: DirCacheOpts) -> (r: Result<Lookup>)
        requires
            old(self).wf(),
        ensures
            final(self).wf(),
            final(self).spec_opts() == old(self).spec_opts(),
            old(self)@.looked_up(final(self)@, r, key@, opts.generation_opt@.ttl),
    {
        if !self.inner.contains_key(key) {
            return Ok(Lookup::Absent);
        }
        let now = match unix_time_now() {
            Ok(now) => now,
            Err(e) => {
                return Err(e);
            },
        };
        Ok(self.get_at(key, opts, now))
    }

    /// Looks up `key` at `now`.
    pub fn get_at(&mut self, key: &[u8], opts: DirCacheOpts, now: Duration) -> (r: Lookup)
        requires
            old(self).wf(),
        ensures
            final(self).wf(),
            final(self).spec_opts() == old(self).spec_opts(),
            final(self)@ == old(self)@.after_lookup(key@, opts.generation_opt@.ttl, now@),
            r@ == old(self)@.lookup(key@, opts.generation_opt@.ttl, now@),
    {
        self.inner.get_opt(key, opts.generation_opt, now)
    }

    /// Looks up `key` now, with the options of the cache. Where the cache
    /// does not hold the key, the value is made by `insert_with` and
    /// inserted first; what that does to the disk comes back with what is
    /// to be done to read the value. The maker is not called for a key
    /// that the cache holds; for any other key it is called before the key
    /// is looked at and before the clock is read.
    pub fn get_or_insert<F: FnOnce() -> core::result::Result<Vec<u8>, String>>(
        &mut self,
        key: &[u8],
        insert_with: F,
    ) -> (r: Result<(Vec<FsOp>, Lookup)>)
        requires
            old(self).wf(),
            insert_with.requires(()),
        ensures
            final(self).wf(),
            final(self).spec_opts() == old(self).spec_opts(),
            exists|made: core::result::Result<Vec<u8>, String>|
                (has_key(old(self)@.entries, key@) || insert_with.ensures((), made))
                    && #[trigger] old(self)@.got_or_inserted_now(
                    final(self)@,
                    r,
                    key@,
                    made,
                    old(self).spec_opts().mem_push_opt,
                    old(self).spec_opts().generation_opt@,
                ),
    {
        let opts = self.opts;
        self.get_or_insert_opt(key, insert_with, opts)
    }

    /// Same as [`DirCache::get_or_insert`], with other options than those
    /// of the cache.
    pub fn get_or_insert_opt<F: FnOnce() -> core::result::Result<Vec<u8>, String>>(
        &mut self,
        key: &[u8],
        insert_with: F,
        opts: DirCacheOpts,
    ) -> (r: Result<(Vec<FsOp>, Lookup)>)
        requires
            old(self).wf(),
            insert_with.requires(()),
        ensures
            final(self).wf(),
            final(self).spec_opts() == old(self).spec_opts(),
            exists|made: core::result::Result<Vec<u8>, String>|
                (has_key(old(self)@.entries, key@) || insert_with.ensures((), made))
                    && #[trigger] old(self)@.got_or_inserted_now(
                    final(self)@,
                    r,
                    key@,
                    made,
                    opts.mem_push_opt,
                    opts.generation_opt@,
                ),
    {
        if self.inner.contains_key(key) {
            let now = match unix_time_now() {
                Ok(now) => now,
                Err(e) => {
                    let r = Err(e);
                    proof {
                        let made = arbitrary::<core::result::Result<Vec<u8>, String>>();
                        assert(old(self)@.got_or_inserted_now(
                            self@,
                            r,
                            key@,
                            made,
                            opts.mem_push_opt,
                            opts.generation_opt@,
                        ));
                    }
                    return r;
                },
            };
            let lookup = self.get_at(key, opts, now);
            let r = Ok((Vec::new(), lookup));
            proof {
                let made = arbitrary::<core::result::Result<Vec<u8>, String>>();
                assert(old(self)@.got_or_inserted(
                    self@,
                    r,
                    key@,
                    made,
                    opts.mem_push_opt,
                    opts.generation_opt@,
                    now@,
                ));
                assert(old(self)@.got_or_inserted_now(
                    self@,
                    r,
                    key@,
                    made,
                    opts.mem_push_opt,
                    opts.generation_opt@,
                ));
            }
            return r;
        }
        let made = insert_with();
        let ghost made_view = made;
        let val = match made {
            Ok(val) => val,
            Err(e) => {
                let r = Err(Error::InsertWithErr(e));
                assert(old(self)@.got_or_inserted_now(
                    self@,
                    r,
                    key@,
                    made_view,
                    opts.mem_push_opt,
                    opts.generation_opt@,
                ));
                return r;
            },
        };
        if !is_safe_key(key) {
            let r = Err(Error::DangerousKey(String::from_str("Key is not safe to use")));
            assert(old(self)@.got_or_inserted_now(
                self@,
                r,
                key@,
                made_view,
                opts.mem_push_opt,
                opts.generation_opt@,
            ));
            return r;
        }
        let now = match unix_time_now() {
            Ok(now) => now,
            Err(e) => {
                let r = Err(e);
                assert(old(self)@.got_or_inserted_now(
                    self@,
                    r,
                    key@,
                    made_view,
                    opts.mem_push_opt,
                    opts.generation_opt@,
                ));
                return r;
            },
        };
        let r = self.inner.insert_made(key, val, opts.mem_push_opt, opts.generation_opt, now);
        proof {
            assert(old(self)@.got_or_inserted(
                self@,
                r,
                key@,
                made_view,
                opts.mem_push_opt,
                opts.generation_opt@,
                now@,
            ));
            assert(old(self)@.got_or_inserted_now(
                self@,
                r,
                key@,
                made_view,
                opts.mem_push_opt,
                opts.generation_opt@,
            ));
        }
        r
    }

    /// Looks up `key` at `now`, after making and inserting its value where
    /// the cache does not hold the key.
    pub fn get_or_insert_at<F: FnOnce() -> core::result::Result<Vec<u8>, String>>(
        &mut self,
        key: &[u8],
        insert_with: F,
        opts: DirCacheOpts,
        now: Duration,
    ) -> (r: Result<(Vec<FsOp>, Lookup)>)
        requires
            old(self).wf(),
            insert_with.requires(()),
        ensures
            final(self).wf(),
            final(self).spec_opts() == old(self).spec_opts(),
            exists|made: core::result::Result<Vec<u8>, String>|
                (has_key(old(self)@.entries, key@) || insert_with.ensures((), made))
                    && #[trigger] old(self)@.got_or_inserted(
                    final(self)@,
                    r,
                    key@,
                    made,
                    opts.mem_push_opt,
                    opts.generation_opt@,
                    now@,
                ),
    {
        let ghost had = has_key(self@.entries, key@);
        let r = self.inner.get_or_insert_opt(
            key,
            insert_with,
            opts.mem_push_opt,
            opts.generation_opt,
            now,
        );
        proof {
            if had {
                let made = arbitrary::<core::result::Result<Vec<u8>, String>>();
                assert(old(self)@.got_or_inserted(
                    self@,
                    r,
                    key@,
                    made,
                    opts.mem_push_opt,
                    opts.generation_opt@,
                    now@,
                ));
            } else {
                let made = choose|made: core::result::Result<Vec<u8>, String>|
                    insert_with.ensures((), made) && #[trigger] old(self)@.got_or_inserted(
                        self@,
                        r,
                        key@,
                        made,
                        opts.mem_push_opt,
                        opts.generation_opt@,
                        now@,
                    );
                assert(insert_with.ensures((), made));
                assert(old(self)@.got_or_inserted(
                    self@,
                    r,
                    key@,
                    made,
                    opts.mem_push_opt,
                    opts.generation_opt@,
                    now@,
                ));
            }
        }
        r
    }

    /// Inserts `content` as the value of `key` now, with the options of
    /// the cache, and hands back what is to be done on disk, in order.
    pub fn insert(&mut self, key: &[u8], content: Vec<u8>) -> (r: Result<Vec<FsOp>>)
        requires
            old(self).wf(),
        ensures
            final(self).wf(),
            final(self).spec_opts() == old(self).spec_opts(),
            old(self)@.inserted(
                final(self)@,
                r,
                key@,
                content@,
                old(self).spec_opts().mem_push_opt,
                old(self).spec_opts().generation_opt@,
            ),
    {
        let opts = self.opts;
        self.insert_opt(key, content, opts)
    }

    /// Same as [`DirCache::insert`], with other options than those of the cache.
    pub fn insert_opt(&mut self, key: &[u8], content: Vec<u8>, opts: DirCacheOpts) -> (r: Result<
        Vec<FsOp>,
    >)
        requires
            old(self).wf(),
        ensures
            final(self).wf(),
            final(self).spec_opts() == old(self).spec_opts(),
            old(self)@.inserted(
                final(self)@,
                r,
                key@,
                content@,
                opts.mem_push_opt,
                opts.generation_opt@,
            ),
    {
        if !is_safe_key(key) {
            return Err(Error::DangerousKey(String::from_str("Key is not safe to use")));
        }
        let now = match unix_time_now() {
            Ok(now) => now,
            Err(e) => {
                return Err(e);
            },
        };
        self.insert_at(key, content, opts, now)
    }

    /// Inserts `content` as the value of `key` at `now`.
    pub fn insert_at(&mut self, key: &[u8], content: Vec<u8>, opts: DirCacheOpts, now: Duration)
        -> (r: Result<Vec<FsOp>>)
        requires
            old(self).wf(),
        ensures
            final(self).wf(),
            final(self).spec_opts() == old(self).spec_opts(),
            !safe_key(key@) ==> r is Err && r->Err_0.kind() == ErrorKind::DangerousKey
                && final(self)@ == old(self)@,
            safe_key(key@) ==> r is Ok && final(self)@ == old(self)@.after_insert(
                key@,
                content@,
                opts.mem_push_opt,
                opts.generation_opt@,
                now@,
            ) && plan_view(r->Ok_0@) == old(self)@.insert_plan(
                key@,
                content@,
                opts.mem_push_opt,
                opts.generation_opt@,
                now@,
            ),
    {
        self.inner.insert_opt(key, content, opts.mem_push_opt, opts.generation_opt, now)
    }

    /// Removes `key` from the cache and hands back its entry directory,
    /// which is to be cleared; `None` where the cache does not hold the key.
    pub fn remove(&mut self, key: &[u8]) -> (dir: Option<Vec<u8>>)
        requires
            old(self).wf(),
        ensures
            final(self).wf(),
            final(self).spec_opts() == old(self).spec_opts(),
            final(self)@ == (CacheView {
                entries: without(old(self)@.entries, key@),
                ..old(self)@
            }),
            !has_key(final(self)@.entries, key@),
            match dir {
                Some(d) => has_key(old(self)@.entries, key@) && d@ == old(self)@.dir_of(key@),
                None => !has_key(old(self)@.entries, key@),
            },
    {
        self.inner.remove(key)
    }

    /// Flushes every key to disk now, with the options of the cache, and
    /// hands back what is to be done, in order.
    pub fn sync(&mut self) -> (r: Result<Vec<FsOp>>)
        requires
            old(self).wf(),
        ensures
            final(self).wf(),
            final(self).spec_opts() == old(self).spec_opts(),
            old(self)@.synced(
                final(self)@,
                r,
                old(self).spec_opts().mem_push_opt,
                old(self).spec_opts().generation_opt@,
            ),
    {
        let opts = self.opts;
        self.sync_opt(opts)
    }

    /// Same as [`DirCache::sync`], with other options than those of the cache.
    pub fn sync_opt(&mut self, opts: DirCacheOpts) -> (r: Result<Vec<FsOp>>)
        requires
            old(self).wf(),
        ensures
            final(self).wf(),
            final(self).spec_opts() == old(self).spec_opts(),
            old(self)@.synced(final(self)@, r, opts.mem_push_opt, opts.generation_opt@),
    {
        if !self.inner.has_unwritten() {
            return Ok(self.sync_at(opts, Duration::zero()));
        }
        let now = match unix_time_now() {
            Ok(now) => now,
            Err(e) => {
                return Err(e);
            },
        };
        Ok(self.sync_at(opts, now))
    }

    /// Flushes every key to disk at `now`.
    pub fn sync_at(&mut self, opts: DirCacheOpts, now: Duration) -> (plan: Vec<FsOp>)
        requires
            old(self).wf(),
        ensures
            final(self).wf(),
            final(self).spec_opts() == old(self).spec_opts(),
            final(self)@ == old(self)@.after_sync(opts.mem_push_opt, opts.generation_opt@, now@),
            plan_view(plan@) == sync_plan(
                old(self)@.base,
                old(self)@.entries,
                opts.generation_opt@.old_gen_encoding,
                opts.generation_opt@.max_generations,
                now@,
            ),
    {
        self.inner.sync_to_disk(opts.mem_push_opt, opts.generation_opt, now)
    }

    /// What is to be done on disk when the cache is let go of. With
    /// `ManualSync` nothing is done and nothing changes. With `SyncOnDrop`
    /// the cache is flushed a last time, with its own options: every key has
    /// its entry directory made sure of and its manifest written, and what
    /// had yet to reach the disk is written as the newest generation. Only
    /// where some value had yet to reach the disk is the clock read; if
    /// that fails, the failure is passed over, nothing is done and nothing
    /// changes.
    pub fn close(&mut self) -> (plan: Vec<FsOp>)
        requires
            old(self).wf(),
        ensures
            final(self).wf(),
            final(self).spec_opts() == old(self).spec_opts(),
            old(self)@.closed(final(self)@, plan, old(self).spec_opts()),
    {
        match self.opts.sync_opt {
            SyncOpt::SyncOnDrop => match self.sync() {
                Ok(plan) => plan,
                Err(_) => Vec::new(),
            },
            SyncOpt::ManualSync => Vec::new(),
        }
    }

    /// The value of `key` that is held in memory, if any.
    pub fn cached(&self, key: &[u8]) -> (r: Option<&[u8]>)
        requires
            self.wf(),
        ensures
            match self@.cached(key@) {
                Some(content) => r is Some && r->0@ == content,
                None => r is None,
            },
    {
        self.inner.cached(key)
    }

    /// Takes the content that was read for `key`, as the options of the
    /// cache say; see [`DirCacheInner::loaded`].
    pub fn loaded(&mut self, key: &[u8], content: Option<Vec<u8>>) -> (r: Result<Fetched>)
        requires
            old(self).wf(),
        ensures
            final(self).wf(),
            final(self).spec_opts() == old(self).spec_opts(),
            match content {
                None => r is Err && r->Err_0.kind() == ErrorKind::ReadContent && final(self)@
                    == old(self)@,
                Some(c) => r is Ok && final(self)@ == old(self)@.after_loaded(
                    key@,
                    c@,
                    old(self).spec_opts().mem_pull_opt,
                ) && match r->Ok_0 {
                    Fetched::Kept => old(self).spec_opts().mem_pull_opt
                        == MemPullOpt::KeepInMemoryOnRead && has_key(old(self)@.entries, key@),
                    Fetched::Owned(bytes) => bytes@ == c@ && !(old(self).spec_opts().mem_pull_opt
                        == MemPullOpt::KeepInMemoryOnRead && has_key(old(self)@.entries, key@)),
                },
            },
    {
        self.inner.loaded(key, content, self.opts.mem_pull_opt)
    }

    /// Same as [`DirCache::loaded`], with other options than those of the cache.
    pub fn loaded_opt(&mut self, key: &[u8], content: Option<Vec<u8>>, opts: DirCacheOpts) -> (r:
        Result<Fetched>)
        requires
            old(self).wf(),
        ensures
            final(self).wf(),
            final(self).spec_opts() == old(self).spec_opts(),
            match content {
                None => r is Err && r->Err_0.kind() == ErrorKind::ReadContent && final(self)@
                    == old(self)@,
                Some(c) => r is Ok && final(self)@ == old(self)@.after_loaded(
                    key@,
                    c@,
                    opts.mem_pull_opt,
                ) && match r->Ok_0 {
                    Fetched::Kept => opts.mem_pull_opt == MemPullOpt::KeepInMemoryOnRead
                        && has_key(old(self)@.entries, key@),
                    Fetched::Owned(bytes) => bytes@ == c@ && !(opts.mem_pull_opt
                        == MemPullOpt::KeepInMemoryOnRead && has_key(old(self)@.entries, key@)),
                },
            },
    {
        self.inner.loaded(key, content, opts.mem_pull_opt)
    }
}

} // verus!
