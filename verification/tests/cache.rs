use dir_cache::cache::{DirCacheInner, Fetched, Lookup};
use dir_cache::DirCache;
use dir_cache::disk::{DirItem, FileObjectExists, FsOp};
use dir_cache::error::{Error, ErrorKind};
use dir_cache::opts::{
    CacheOpenOptions, DirCacheOpts, DirOpenOpt, Encoding, ExpirationOpt, GenerationOpt, MemPullOpt,
    MemPushOpt, SyncOpt,
};
use dir_cache::time::Duration;

fn opts(push: MemPushOpt, max: usize, ttl_secs: Option<u64>) -> DirCacheOpts {
    let expiration = match ttl_secs {
        Some(secs) => ExpirationOpt::ExpiresAfter(Duration::from_secs(secs)),
        None => ExpirationOpt::NoExpiry,
    };
    DirCacheOpts::default()
        .with_mem_push_opt(push)
        .with_generation_opt(GenerationOpt::new(max, Encoding::Plain, expiration))
}

fn empty_cache(opts: DirCacheOpts) -> DirCache {
    let (_, scan) = opts
        .open(
            b"root",
            CacheOpenOptions::new(DirOpenOpt::OnlyIfExists, false),
            FileObjectExists::AsDir,
        )
        .unwrap();
    scan.finish()
}

fn dirs(names: &[&[u8]]) -> Vec<DirItem> {
    names
        .iter()
        .map(|name| DirItem {
            name: name.to_vec(),
            is_file: false,
            is_dir: true,
        })
        .collect()
}

fn secs(s: u64) -> Duration {
    Duration::from_secs(s)
}

fn brief(plan: &[FsOp]) -> Vec<String> {
    fn s(bytes: &[u8]) -> String {
        String::from_utf8_lossy(bytes).into_owned()
    }
    plan.iter()
        .map(|op| match op {
            FsOp::CreateDirAll { path } => format!("mkdir {}", s(path)),
            FsOp::RemoveFile { path } => format!("rm {}", s(path)),
            FsOp::Rename { from, to } => format!("mv {} {}", s(from), s(to)),
            FsOp::Recode { from, to, encoding } => {
                format!("recode {:?} {} {}", encoding, s(from), s(to))
            }
            FsOp::WriteFile { path, data } => format!("write {} {}", s(path), s(data)),
            FsOp::RemoveDir { path } => format!("rmdir {}", s(path)),
        })
        .collect()
}

#[test]
fn value_in_memory_is_found_without_the_disk() {
    for push in [MemPushOpt::RetainAndWrite, MemPushOpt::MemoryOnly] {
        let o = opts(push, 2, Some(10));
        let mut dc = empty_cache(o);
        dc.insert_at(b"k", b"v".to_vec(), o, secs(100)).unwrap();
        assert!(matches!(dc.get_at(b"k", o, secs(105)), Lookup::Cached));
        assert_eq!(Some(&b"v"[..]), dc.cached(b"k"));
        assert_eq!(None, dc.cached(b"other"));
    }
}

#[test]
fn value_on_disk_is_asked_for_and_kept_as_the_pull_option_says() {
    let o = opts(MemPushOpt::PassthroughWrite, 2, None);
    let mut dc = empty_cache(o);
    let plan = dc.insert_at(b"k/sub", b"v".to_vec(), o, secs(100)).unwrap();
    assert_eq!(
        vec![
            "mkdir root/k/sub".to_string(),
            "write root/k/sub/dir-cache-generation-0 v".to_string(),
            "write root/k/sub/dir-cache-manifest.txt 1\n100000000000,0\n".to_string(),
        ],
        brief(&plan)
    );
    assert_eq!(None, dc.cached(b"k/sub"));
    let lookup = dc.get_at(b"k/sub", o, secs(105));
    assert!(
        matches!(&lookup, Lookup::Load { path } if path == b"root/k/sub/dir-cache-generation-0")
    );

    let dont = o.with_mem_pull_opt(MemPullOpt::DontKeepInMemoryOnRead);
    let fetched = dc.loaded_opt(b"k/sub", Some(b"v".to_vec()), dont).unwrap();
    assert!(matches!(fetched, Fetched::Owned(bytes) if bytes == b"v"));
    assert_eq!(None, dc.cached(b"k/sub"));
    assert!(matches!(dc.get_at(b"k/sub", o, secs(105)), Lookup::Load { .. }));

    let fetched = dc.loaded(b"k/sub", Some(b"v".to_vec())).unwrap();
    assert!(matches!(fetched, Fetched::Kept));
    assert_eq!(Some(&b"v"[..]), dc.cached(b"k/sub"));
    assert!(matches!(dc.get_at(b"k/sub", o, secs(105)), Lookup::Cached));

    // Content for a key that is not there cannot be kept
    let fetched = dc.loaded(b"gone", Some(b"w".to_vec())).unwrap();
    assert!(matches!(fetched, Fetched::Owned(bytes) if bytes == b"w"));
    let err = dc.loaded(b"k/sub", None).unwrap_err();
    assert!(matches!(err, Error::ReadContent(_, None)));
    assert_eq!(Some(&b"v"[..]), dc.cached(b"k/sub"));
}

#[test]
fn second_insert_counts_as_committed() {
    let o = opts(MemPushOpt::RetainAndWrite, 3, None);
    let mut dc = empty_cache(o);
    dc.insert_at(b"k", b"one".to_vec(), o, secs(1)).unwrap();
    // The first value is written once more by a flush
    let plan = dc.sync_at(o, secs(2));
    assert_eq!(
        vec![
            "mkdir root/k".to_string(),
            "mv root/k/dir-cache-generation-0 root/k/dir-cache-generation-1".to_string(),
            "write root/k/dir-cache-generation-0 one".to_string(),
            "write root/k/dir-cache-manifest.txt 1\n2000000000,0\n1000000000,0\n".to_string(),
        ],
        brief(&plan)
    );
    assert_eq!(Some(&b"one"[..]), dc.cached(b"k"));
    dc.insert_at(b"k", b"two".to_vec(), o, secs(3)).unwrap();
    // The second is not; the flush lets go of the copy in memory
    let plan = dc.sync_at(o, secs(4));
    assert_eq!(
        vec![
            "mkdir root/k".to_string(),
            "write root/k/dir-cache-manifest.txt 1\n3000000000,0\n2000000000,0\n1000000000,0\n"
                .to_string(),
        ],
        brief(&plan)
    );
    assert_eq!(None, dc.cached(b"k"));
}

#[test]
fn flush_goes_through_the_keys_in_the_order_they_came() {
    let o = opts(MemPushOpt::MemoryOnly, 1, None);
    let mut dc = empty_cache(o);
    for key in [&b"b"[..], b"a", b"c"] {
        let plan = dc.insert_at(key, key.to_vec(), o, secs(1)).unwrap();
        assert!(plan.is_empty());
    }
    dc.insert_at(b"a", b"A".to_vec(), o, secs(2)).unwrap();
    let plan = dc.sync_at(o, secs(5));
    assert_eq!(
        vec![
            "mkdir root/b".to_string(),
            "write root/b/dir-cache-generation-0 b".to_string(),
            "write root/b/dir-cache-manifest.txt 1\n5000000000,0\n".to_string(),
            "mkdir root/a".to_string(),
            "write root/a/dir-cache-generation-0 A".to_string(),
            "write root/a/dir-cache-manifest.txt 1\n5000000000,0\n".to_string(),
            "mkdir root/c".to_string(),
            "write root/c/dir-cache-generation-0 c".to_string(),
            "write root/c/dir-cache-manifest.txt 1\n5000000000,0\n".to_string(),
        ],
        brief(&plan)
    );
    // Nothing stays in memory unless the push option retains it
    assert_eq!(None, dc.cached(b"a"));
    assert!(matches!(dc.get_at(b"a", o, secs(6)), Lookup::Load { .. }));
}

#[test]
fn removal_hands_back_the_directory_to_clear() {
    let o = opts(MemPushOpt::MemoryOnly, 1, None);
    let mut dc = empty_cache(o);
    assert_eq!(None, dc.remove(b"k"));
    dc.insert_at(b"k", b"v".to_vec(), o, secs(1)).unwrap();
    dc.insert_at(b"k2", b"w".to_vec(), o, secs(1)).unwrap();
    assert_eq!(Some(b"root/k".to_vec()), dc.remove(b"k"));
    assert_eq!(None, dc.remove(b"k"));
    assert!(matches!(dc.get_at(b"k", o, secs(1)), Lookup::Absent));
    assert_eq!(Some(&b"w"[..]), dc.cached(b"k2"));
    assert_eq!(None, dc.remove(b"/absolute"));
}

#[test]
fn unsafe_key_is_refused_and_changes_nothing() {
    let o = opts(MemPushOpt::MemoryOnly, 1, None);
    let mut dc = empty_cache(o);
    for key in [&b"/absolute"[..], b"", b"a/../b", b"a//b", b"a/", b".", b"a\0"] {
        let err = dc.insert_at(key, b"v".to_vec(), o, secs(1)).unwrap_err();
        assert_eq!(ErrorKind::DangerousKey, err.kind());
        let err = dc.insert(key, b"v".to_vec()).unwrap_err();
        assert_eq!(ErrorKind::DangerousKey, err.kind());
        assert!(matches!(dc.get(key).unwrap(), Lookup::Absent));
        assert_eq!(None, dc.cached(key));
    }
    assert!(dc.sync_at(o, secs(2)).is_empty());
}

#[test]
fn value_is_made_before_the_key_is_looked_at() {
    let o = opts(MemPushOpt::MemoryOnly, 1, None);
    let mut dc = empty_cache(o);
    let mut called = false;
    let r = dc.get_or_insert_at(
        b"/absolute",
        || {
            called = true;
            Ok(b"v".to_vec())
        },
        o,
        secs(1),
    );
    assert!(matches!(r, Err(Error::DangerousKey(_))));
    assert!(called);
    let r = dc.get_or_insert_at(b"/absolute", || Err("no".to_string()), o, secs(1));
    assert!(matches!(r, Err(Error::InsertWithErr(m)) if m == "no"));
}

#[test]
fn made_value_gets_its_directory_whatever_the_push_option() {
    for (push, expected, cached) in [
        (MemPushOpt::MemoryOnly, vec!["mkdir root/k".to_string()], true),
        (
            MemPushOpt::RetainAndWrite,
            vec![
                "mkdir root/k".to_string(),
                "write root/k/dir-cache-generation-0 v".to_string(),
                "write root/k/dir-cache-manifest.txt 1\n7000000000,0\n".to_string(),
            ],
            true,
        ),
        (
            MemPushOpt::PassthroughWrite,
            vec![
                "mkdir root/k".to_string(),
                "write root/k/dir-cache-generation-0 v".to_string(),
                "write root/k/dir-cache-manifest.txt 1\n7000000000,0\n".to_string(),
            ],
            false,
        ),
    ] {
        let o = opts(push, 2, None);
        let mut dc = empty_cache(o);
        let (plan, lookup) = dc
            .get_or_insert_at(b"k", || Ok(b"v".to_vec()), o, secs(7))
            .unwrap();
        assert_eq!(expected, brief(&plan));
        if cached {
            assert!(matches!(lookup, Lookup::Cached));
            assert_eq!(Some(&b"v"[..]), dc.cached(b"k"));
        } else {
            assert!(
                matches!(&lookup, Lookup::Load { path } if path == b"root/k/dir-cache-generation-0")
            );
        }
        // The key is there now: nothing is made, nothing is to be done on disk
        let (plan, _) = dc
            .get_or_insert_at(b"k", || panic!("must not be called"), o, secs(8))
            .unwrap();
        assert!(plan.is_empty());
    }
}

#[test]
fn made_value_that_expires_at_once_is_let_go_of() {
    let o = DirCacheOpts::default()
        .with_mem_push_opt(MemPushOpt::MemoryOnly)
        .with_generation_opt(GenerationOpt::new(
            1,
            Encoding::Plain,
            ExpirationOpt::ExpiresAfter(Duration::zero()),
        ));
    let mut dc = empty_cache(o);
    let (_, lookup) = dc
        .get_or_insert_at(b"k", || Ok(b"v".to_vec()), o, secs(7))
        .unwrap();
    assert!(matches!(&lookup, Lookup::Expired { dir } if dir == b"root/k"));
    assert!(matches!(dc.get_at(b"k", o, secs(7)), Lookup::Absent));
}

#[test]
fn closing_flushes_only_when_asked_to() {
    let o = opts(MemPushOpt::MemoryOnly, 1, None);
    let mut dc = empty_cache(o.with_sync_opt(SyncOpt::ManualSync));
    dc.insert(b"k", b"v".to_vec()).unwrap();
    assert!(dc.close().is_empty());
    assert_eq!(Some(&b"v"[..]), dc.cached(b"k"));

    let mut dc = empty_cache(o.with_sync_opt(SyncOpt::SyncOnDrop));
    dc.insert(b"k", b"v".to_vec()).unwrap();
    let plan = dc.close();
    assert_eq!(3, plan.len());
    assert!(matches!(&plan[0], FsOp::CreateDirAll { path } if path == b"root/k"));
    assert!(matches!(
        &plan[1],
        FsOp::WriteFile { path, data }
            if path == b"root/k/dir-cache-generation-0" && data == b"v"
    ));
    assert_eq!(SyncOpt::SyncOnDrop, dc.opts().sync_opt);
}

#[test]
fn scan_visits_directories_breadth_first() {
    let o = opts(MemPushOpt::PassthroughWrite, 2, Some(10));
    let mut scan =
        DirCacheInner::read_from_disk(b"root".to_vec(), true, o);
    assert_eq!(Some(&b"root"[..]), scan.next_dir());
    let visit = scan
        .visit_at(None, &dirs(&[b"a", b"b"]), secs(100))
        .unwrap();
    assert!(visit.removals.is_empty());
    assert!(visit.load.is_none());

    assert_eq!(Some(&b"root/a"[..]), scan.next_dir());
    let visit = scan
        .visit_at(Some(b"1\n95000000000,0\n80000000000,0\n"), &dirs(&[b"deep"]), secs(100))
        .unwrap();
    assert_eq!(vec!["rm root/a/dir-cache-generation-1".to_string()], brief(&visit.removals));
    assert_eq!(Some(b"root/a/dir-cache-generation-0".to_vec()), visit.load);
    scan.preload(b"value of a".to_vec());

    assert_eq!(Some(&b"root/b"[..]), scan.next_dir());
    let visit = scan.visit_at(None, &Vec::new(), secs(100)).unwrap();
    assert!(visit.removals.is_empty());

    assert_eq!(Some(&b"root/a/deep"[..]), scan.next_dir());
    let visit = scan
        .visit_at(Some(b"1\n99000000000,1\n"), &Vec::new(), secs(100))
        .unwrap();
    assert_eq!(Some(b"root/a/deep/dir-cache-generation-0".to_vec()), visit.load);
    // Content that is not handed in is read when the key is looked up

    assert_eq!(None, scan.next_dir());
    let visit = scan.visit_at(Some(b"junk"), &dirs(&[b"x"]), secs(100)).unwrap();
    assert!(visit.removals.is_empty());
    assert_eq!(None, scan.next_dir());

    let mut dc = scan.finish();
    assert_eq!(Some(&b"value of a"[..]), dc.cached(b"a"));
    assert!(matches!(dc.get_at(b"a", o, secs(100)), Lookup::Cached));
    assert_eq!(None, dc.cached(b"a/deep"));
    assert!(matches!(
        dc.get_at(b"a/deep", o, secs(100)),
        Lookup::Load { path } if path == b"root/a/deep/dir-cache-generation-0"
    ));
    assert!(matches!(dc.get_at(b"b", o, secs(100)), Lookup::Absent));
    assert!(matches!(
        dc.get_at(b"a", o, secs(105)),
        Lookup::Expired { dir } if dir == b"root/a"
    ));
}

#[test]
fn scan_passes_over_what_is_no_directory() {
    let o = opts(MemPushOpt::PassthroughWrite, 2, None);
    let mut scan = DirCacheInner::read_from_disk(b"root".to_vec(), false, o);
    let items = vec![
        DirItem {
            name: b"file".to_vec(),
            is_file: true,
            is_dir: false,
        },
        DirItem {
            name: b"b".to_vec(),
            is_file: false,
            is_dir: true,
        },
        DirItem {
            name: b"socket".to_vec(),
            is_file: false,
            is_dir: false,
        },
        DirItem {
            name: b"a".to_vec(),
            is_file: false,
            is_dir: true,
        },
    ];
    // Without a manifest the clock plays no part
    scan.visit(None, &items).unwrap();
    assert_eq!(Some(&b"root/b"[..]), scan.next_dir());
    scan.visit(Some(b"1\n5,0\n"), &Vec::new()).unwrap();
    assert_eq!(Some(&b"root/a"[..]), scan.next_dir());
    scan.visit(None, &Vec::new()).unwrap();
    assert_eq!(None, scan.next_dir());
    let mut dc = scan.finish();
    assert!(matches!(dc.get(b"b").unwrap(), Lookup::Load { .. }));
    assert!(matches!(dc.get(b"a").unwrap(), Lookup::Absent));
}

#[test]
fn scan_fails_on_what_it_cannot_read_and_stays_as_it_was() {
    let o = opts(MemPushOpt::PassthroughWrite, 2, None);
    let mut scan = DirCacheInner::read_from_disk(b"root".to_vec(), false, o);
    scan.visit_at(None, &dirs(&[b"a"]), secs(1)).unwrap();
    let err = scan
        .visit_at(Some(b"2\n5,0\n"), &dirs(&[b"b"]), secs(1))
        .unwrap_err();
    assert_eq!(ErrorKind::ParseManifest, err.kind());
    assert_eq!(Some(&b"root/a"[..]), scan.next_dir());
    let err = scan.visit_at(Some(b"1\nx\n"), &Vec::new(), secs(1)).unwrap_err();
    assert_eq!(ErrorKind::ParseMetadata, err.kind());
    assert_eq!(Some(&b"root/a"[..]), scan.next_dir());
    scan.visit_at(Some(b"1\n5,0\n"), &Vec::new(), secs(1)).unwrap();
    assert_eq!(None, scan.next_dir());
}

#[test]
fn root_itself_can_hold_no_entry() {
    let o = opts(MemPushOpt::PassthroughWrite, 2, None);
    let mut scan = DirCacheInner::read_from_disk(b"root".to_vec(), false, o);
    let err = scan.visit_at(Some(b"1\n5,0\n"), &Vec::new(), secs(1)).unwrap_err();
    assert_eq!(ErrorKind::PathRelativize, err.kind());
    // A manifest whose generations have all expired is passed over
    let expiring = opts(MemPushOpt::PassthroughWrite, 2, Some(1));
    let mut scan = DirCacheInner::read_from_disk(b"root".to_vec(), false, expiring);
    let visit = scan.visit_at(Some(b"1\n5,0\n"), &Vec::new(), secs(10)).unwrap();
    assert_eq!(vec!["rm root/dir-cache-generation-0".to_string()], brief(&visit.removals));
}

#[test]
fn directory_that_names_no_safe_key_is_refused() {
    let o = opts(MemPushOpt::PassthroughWrite, 2, None);
    let mut scan = DirCacheInner::read_from_disk(b"root".to_vec(), false, o);
    scan.visit_at(None, &dirs(&[b".."]), secs(1)).unwrap();
    assert_eq!(Some(&b"root/.."[..]), scan.next_dir());
    let err = scan.visit_at(Some(b"1\n5,0\n"), &Vec::new(), secs(1)).unwrap_err();
    assert_eq!(ErrorKind::PathRelativize, err.kind());
}

#[test]
fn closing_with_nothing_unwritten_writes_the_manifests_again() {
    let o = opts(MemPushOpt::PassthroughWrite, 2, None).with_sync_opt(SyncOpt::SyncOnDrop);
    let mut dc = empty_cache(o);
    assert!(dc.close().is_empty());
    dc.insert_at(b"k", b"v".to_vec(), o, secs(3)).unwrap();
    dc.insert_at(b"j", b"w".to_vec(), o, secs(4)).unwrap();
    let plan = dc.close();
    assert_eq!(
        vec![
            "mkdir root/k".to_string(),
            "write root/k/dir-cache-manifest.txt 1\n3000000000,0\n".to_string(),
            "mkdir root/j".to_string(),
            "write root/j/dir-cache-manifest.txt 1\n4000000000,0\n".to_string(),
        ],
        brief(&plan)
    );
    // Without a flush on drop the same cache has nothing to do
    let manual = o.with_sync_opt(SyncOpt::ManualSync);
    let mut dc = empty_cache(manual);
    dc.insert_at(b"k", b"v".to_vec(), manual, secs(3)).unwrap();
    assert!(dc.close().is_empty());
}
