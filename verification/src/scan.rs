//! The scan that finds the keys of a cache on disk when the cache is
//! opened: it goes through the directories below the root, breadth first.

use crate::bytes::to_vec;
use crate::cache::{CacheView, DirCache, DirCacheInner};
use crate::disk::{listing, plan_view, DirItem, DirItemView, FsOp, FsOpView};
use crate::entry::{read_dir, DirCacheEntry, DirRead};
use crate::error::{Error, ErrorKind, Result};
use crate::opts::{DirCacheOpts, MemPullOpt};
use crate::path_util::{is_safe_key, join, join_path, relative_to, relativize, safe_key};
use crate::store::{with_state, SlotView};
use crate::time::{unix_time_now, Duration};
use std::collections::VecDeque;
use vstd::prelude::*;
use vstd::string::StringExecFns;

verus! {

/// The paths of the directories in the directory `dir`, which holds
/// `items`, in the order of the listing.
pub open spec fn children(dir: Seq<u8>, items: Seq<DirItemView>) -> Seq<Seq<u8>>
    decreases items.len(),
{
    if items.len() == 0 {
        Seq::<Seq<u8>>::empty()
    } else if items.last().is_dir {
        children(dir, items.drop_last()).push(join(dir, items.last().name))
    } else {
        children(dir, items.drop_last())
    }
}

/// The paths that a queue of directories holds.
pub open spec fn paths(queue: Seq<Vec<u8>>) -> Seq<Seq<u8>> {
    queue.map_values(|path: Vec<u8>| path@)
}

/// A scan of the directories below a cache root, in plain values.
pub ghost struct ScanView {
    /// The cache as far as it has been found.
    pub cache: CacheView,
    /// The directories that are yet to be visited, the next one first.
    pub queue: Seq<Seq<u8>>,
    pub eager_load: bool,
    /// The key whose newest generation is yet to be handed in.
    pub pending: Option<Seq<u8>>,
}

/// What visiting a directory asks of the caller.
#[derive(Debug)]
pub struct Visit {
    /// The removals of the files of expired generations.
    pub removals: Vec<FsOp>,
    /// The path of the file whose content [`DirScan::preload`] is to be given.
    pub load: Option<Vec<u8>>,
}

pub ghost struct VisitView {
    pub removals: Seq<FsOpView>,
    pub load: Option<Seq<u8>>,
}

impl View for Visit {
    type V = VisitView;

    open spec fn view(&self) -> VisitView {
        VisitView {
            removals: plan_view(self.removals@),
            load: match self.load {
                Some(p) => Some(p@),
                None => None,
            },
        }
    }
}

impl ScanView {
    /// What visiting the next directory at `now` comes to, given the text
    /// of its manifest, if it has one, and what the directory holds. The
    /// directories in it are visited after all that wait already.
    /// A directory with a live entry gives the cache a key, the path that
    /// leads to the directory from the root; the root itself can hold no
    /// entry. A failure leaves the scan as it was.
    pub open spec fn visit(
        self,
        manifest: Option<Seq<u8>>,
        items: Seq<DirItemView>,
        ttl: nat,
        now: nat,
    ) -> core::result::Result<(ScanView, VisitView), ErrorKind> {
        if self.queue.len() == 0 {
            Ok((self, VisitView { removals: Seq::<FsOpView>::empty(), load: None }))
        } else {
            let dir = self.queue[0];
            let queue = self.queue.skip(1) + children(dir, items);
            match read_dir(dir, manifest, self.eager_load, ttl, now) {
                Err(kind) => Err(kind),
                Ok(found) => match found.entry {
                    None => Ok(
                        (
                            ScanView { queue, pending: None, ..self },
                            VisitView { removals: found.removals, load: None },
                        ),
                    ),
                    Some(entry) => match relative_to(self.cache.base, dir) {
                        Some(key) if safe_key(key) => Ok(
                            (
                                ScanView {
                                    cache: CacheView {
                                        entries: with_state(self.cache.entries, key, entry),
                                        ..self.cache
                                    },
                                    queue,
                                    pending: if found.load is Some {
                                        Some(key)
                                    } else {
                                        None
                                    },
                                    ..self
                                },
                                VisitView { removals: found.removals, load: found.load },
                            ),
                        ),
                        _ => Err(ErrorKind::PathRelativize),
                    },
                },
            }
        }
    }

    /// Whether `r` and the scan `after` are what visiting the next
    /// directory at `now` comes to.
    pub open spec fn visit_is(
        self,
        after: ScanView,
        r: Result<Visit>,
        manifest: Option<Seq<u8>>,
        items: Seq<DirItemView>,
        ttl: nat,
        now: nat,
    ) -> bool {
        match self.visit(manifest, items, ttl, now) {
            Ok((scan, visit)) => r is Ok && r->Ok_0@ == visit && after == scan,
            Err(kind) => r is Err && r->Err_0.kind() == kind && after == self,
        }
    }
}

/// A scan of the directories below a cache root, breadth first, that
/// finds the keys that the disk holds.
#[derive(Debug)]
pub struct DirScan {
    cache: DirCacheInner,
    queue: VecDeque<Vec<u8>>,
    eager_load: bool,
    pending: Option<Vec<u8>>,
    opts: DirCacheOpts,
}

impl View for DirScan {
    type V = ScanView;

    closed spec fn view(&self) -> ScanView {
        ScanView {
            cache: self.cache@,
            queue: paths(self.queue@),
            eager_load: self.eager_load,
            pending: match self.pending {
                Some(key) => Some(key@),
                None => None,
            },
        }
    }
}

impl DirScan {
    /// Whether the cache found so far is in order.
    pub open spec fn wf(&self) -> bool {
        self@.cache.wf()
    }

    /// The scan of the directories below `base`, before any was visited;
    /// the cache that it finds is to have the options `opts`.
    pub fn start(base: Vec<u8>, eager_load: bool, opts: DirCacheOpts) -> (scan: DirScan)
        ensures
            scan.wf(),
            scan.spec_opts() == opts,
            scan@ == (ScanView {
                cache: CacheView { base: base@, entries: Seq::<SlotView>::empty() },
                queue: seq![base@],
                eager_load,
                pending: None,
            }),
    {
        let mut queue: VecDeque<Vec<u8>> = VecDeque::new();
        queue.push_front(to_vec(base.as_slice()));
        assert(paths(queue@) =~= seq![base@]);
        DirScan { cache: DirCacheInner::empty(base), queue, eager_load, pending: None, opts }
    }

    /// The options that the cache will have.
    pub closed spec fn spec_opts(&self) -> DirCacheOpts {
        self.opts
    }

    /// The directory to visit next, if any is left.
    pub fn next_dir(&self) -> (dir: Option<&[u8]>)
        ensures
            match dir {
                Some(d) => self@.queue.len() > 0 && d@ == self@.queue[0],
                None => self@.queue.len() == 0,
            },
    {
        if self.queue.len() == 0 {
            None
        } else {
            assert(paths(self.queue@)[0] == self.queue@[0]@);
            Some(self.queue[0].as_slice())
        }
    }

    /// Visits the next directory now. `manifest` is the text of its
    /// manifest, if it has one, and `items` what the directory holds. The
    /// clock is read only where there is a manifest.
    pub fn visit(&mut self, manifest: Option<&[u8]>, items: &Vec<DirItem>) -> (r: Result<Visit>)
        requires
            old(self).wf(),
        ensures
            final(self).wf(),
            final(self).spec_opts() == old(self).spec_opts(),
            match manifest {
                None => old(self)@.visit_is(
                    final(self)@,
                    r,
                    None,
                    listing(items@),
                    old(self).spec_opts().generation_opt@.ttl,
                    0,
                ),
                Some(text) => (r is Err && r->Err_0.kind() == ErrorKind::SystemTime && final(self)@
                    == old(self)@) || exists|now: nat| #[trigger]
                    old(self)@.visit_is(
                        final(self)@,
                        r,
                        Some(text@),
                        listing(items@),
                        old(self).spec_opts().generation_opt@.ttl,
                        now,
                    ),
            },
    {
        let now = match manifest {
            None => Duration::zero(),
            Some(_) => match unix_time_now() {
                Ok(now) => now,
                Err(e) => {
                    return Err(e);
                },
            },
        };
        self.visit_at(manifest, items, now)
    }

    /// Visits the next directory at `now`. `manifest` is the text of its
    /// manifest, if it has one, and `items` what the directory holds.
    pub fn visit_at(&mut self, manifest: Option<&[u8]>, items: &Vec<DirItem>, now: Duration) -> (r:
        Result<Visit>)
        requires
            old(self).wf(),
        ensures
            final(self).wf(),
            final(self).spec_opts() == old(self).spec_opts(),
            old(self)@.visit_is(
                final(self)@,
                r,
                match manifest {
                    Some(text) => Some(text@),
                    None => None,
                },
                listing(items@),
                old(self).spec_opts().generation_opt@.ttl,
                now@,
            ),
    {
        if self.queue.len() == 0 {
            let removals: Vec<FsOp> = Vec::new();
            assert(plan_view(removals@) =~= Seq::<FsOpView>::empty());
            return Ok(Visit { removals, load: None });
        }
        assert(paths(self.queue@)[0] == self.queue@[0]@);
        let next = to_vec(self.queue[0].as_slice());
        let found = match DirCacheEntry::read_from_dir(
            next.as_slice(),
            manifest,
            self.eager_load,
            self.opts.generation_opt,
            now,
        ) {
            Ok(found) => found,
            Err(e) => {
                return Err(e);
            },
        };
        let mut key: Option<Vec<u8>> = None;
        if found.entry.is_some() {
            let relative = match relativize(self.cache.base(), next.as_slice()) {
                Ok(relative) => relative,
                Err(e) => {
                    return Err(e);
                },
            };
            if !is_safe_key(relative.as_slice()) {
                return Err(
                    Error::PathRelativize(String::from_str("Directory does not name a key")),
                );
            }
            key = Some(relative);
        }
        let ghost old_queue = paths(self.queue@);
        self.queue.pop_front();
        assert(paths(self.queue@) =~= old_queue.skip(1));
        let mut i: usize = 0;
        assert(listing(items@).take(0) =~= Seq::<DirItemView>::empty());
        assert(paths(self.queue@) =~= old_queue.skip(1) + children(next@, listing(items@).take(0)));
        while i < items.len()
            invariant
                0 <= i <= items.len(),
                self.cache == old(self).cache,
                self.opts == old(self).opts,
                self.eager_load == old(self).eager_load,
                paths(self.queue@) == old_queue.skip(1) + children(
                    next@,
                    listing(items@).take(i as int),
                ),
            decreases items.len() - i,
        {
            let ghost held = paths(self.queue@);
            let ghost done = listing(items@).take(i as int);
            let ghost upto = listing(items@).take(i + 1);
            proof {
                assert(upto.drop_last() =~= done);
                assert(upto.last() == items@[i as int]@);
            }
            if items[i].is_dir {
                let child = join_path(next.as_slice(), items[i].name.as_slice());
                self.queue.push_back(child);
                assert(paths(self.queue@) =~= held.push(join(next@, items@[i as int]@.name)));
            }
            assert(paths(self.queue@) =~= old_queue.skip(1) + children(next@, upto));
            i += 1;
        }
        assert(listing(items@).take(i as int) =~= listing(items@));
        let DirRead { entry, removals, load } = found;
        match (entry, key) {
            (Some(entry), Some(key)) => {
                self.pending = if load.is_some() {
                    Some(to_vec(key.as_slice()))
                } else {
                    None
                };
                self.cache.put(key, entry);
                Ok(Visit { removals, load })
            },
            _ => {
                self.pending = None;
                Ok(Visit { removals, load: None })
            },
        }
    }

    /// Hands in the content of the file that the last visit asked for. It
    /// is held in memory as what generation 0 of that key holds.
    pub fn preload(&mut self, content: Vec<u8>)
        requires
            old(self).wf(),
        ensures
            final(self).wf(),
            final(self).spec_opts() == old(self).spec_opts(),
            final(self)@ == (ScanView {
                cache: match old(self)@.pending {
                    Some(key) => old(self)@.cache.after_loaded(
                        key,
                        content@,
                        MemPullOpt::KeepInMemoryOnRead,
                    ),
                    None => old(self)@.cache,
                },
                pending: None,
                ..old(self)@
            }),
    {
        let pending = self.pending.take();
        match pending {
            Some(key) => {
                let _ = self.cache.loaded(
                    key.as_slice(),
                    Some(content),
                    MemPullOpt::KeepInMemoryOnRead,
                );
            },
            None => {},
        }
    }

    /// Ends the scan: the cache with the keys that were found.
    pub fn finish(self) -> (cache: DirCache)
        requires
            self.wf(),
        ensures
            cache.wf(),
            cache@ == self@.cache,
            cache.spec_opts() == self.spec_opts(),
    {
        DirCache::new(self.cache, self.opts)
    }
}

} // verus!
