use dir_cache::cache::DirCacheInner;
use dir_cache::disk::{
    generation_file, generation_file_name, is_owned_file_name, manifest_file, manifest_file_name,
    try_remove_dir, DirItem, FileObjectExists, FsOp,
};
use dir_cache::entry::{DirCacheEntry, InMemEntry};
use dir_cache::error::ErrorKind;
use dir_cache::manifest::ContentGeneration;
use dir_cache::opts::{Encoding, ExpirationOpt, GenerationOpt, MemPushOpt};
use dir_cache::time::Duration;

// The operations of a plan in a few letters each, for comparing whole plans.
fn brief(plan: &[FsOp]) -> Vec<String> {
    fn s(bytes: &[u8]) -> String {
        String::from_utf8_lossy(bytes).into_owned()
    }
    plan.iter()
        .map(|op| match op {
            FsOp::CreateDirAll { path } => format!("mkdir {}", s(path)),
            FsOp::RemoveFile { path } => format!("rm {}", s(path)),
            FsOp::Rename { from, to } => format!("mv {} {}", s(from), s(to)),
            FsOp::Recode { from, to, encoding } => {
                format!("recode {:?} {} {}", encoding, s(from), s(to))
            }
            FsOp::WriteFile { path, data } => format!("write {} {}", s(path), s(data)),
            FsOp::RemoveDir { path } => format!("rmdir {}", s(path)),
        })
        .collect()
}

fn entry_with(ages: &[u64]) -> DirCacheEntry {
    let mut entry = DirCacheEntry::new();
    for age in ages {
        entry.on_disk.push_back(ContentGeneration {
            encoding: Encoding::Plain,
            age: Duration::new(0, *age as u32),
        });
    }
    if let Some(first) = ages.first() {
        entry.last_updated = Duration::new(0, *first as u32);
    }
    entry
}

fn records(entry: &DirCacheEntry) -> Vec<(u128, Encoding)> {
    entry
        .on_disk
        .iter()
        .map(|g| (g.age.as_nanos(), g.encoding))
        .collect()
}

#[test]
fn file_names_are_fixed() {
    assert_eq!(b"dir-cache-manifest.txt".to_vec(), manifest_file_name());
    assert_eq!(b"dir-cache-generation-0".to_vec(), generation_file_name(0));
    assert_eq!(b"dir-cache-generation-10".to_vec(), generation_file_name(10));
    assert_eq!(
        b"root/k/dir-cache-manifest.txt".to_vec(),
        manifest_file(b"root/k")
    );
    assert_eq!(
        b"root/k/dir-cache-generation-3".to_vec(),
        generation_file(b"root/k/", 3)
    );
}

#[test]
fn names_of_the_cache_are_told_from_others() {
    for name in [
        &b"dir-cache-manifest.txt"[..],
        b"dir-cache-generation-0",
        b"dir-cache-generation-17",
        b"dir-cache-generation-007",
        b"dir-cache-generation-340282366920938463463374607431768211456",
    ] {
        assert!(is_owned_file_name(name), "{name:?}");
    }
    for name in [
        &b""[..],
        b"rogue_user_file",
        b"dir-cache-manifest.txt.bak",
        b"dir-cache-manifest",
        b"Dir-cache-manifest.txt",
        b"dir-cache-generation-",
        b"dir-cache-generation-x",
        b"dir-cache-generation-1x",
        b"dir-cache-generation--1",
        b"dir-cache-generation-1 ",
        b"xdir-cache-generation-1",
        b"dir-cache-generation",
    ] {
        assert!(!is_owned_file_name(name), "{name:?}");
    }
}

#[test]
fn first_write_makes_one_generation() {
    let mut entry = DirCacheEntry::new();
    let plan = entry.generational_write(b"d", b"v", Encoding::Plain, 4, Duration::new(0, 50));
    assert_eq!(
        vec![
            "write d/dir-cache-generation-0 v".to_string(),
            "write d/dir-cache-manifest.txt 1\n50,0\n".to_string(),
        ],
        brief(&plan)
    );
    assert_eq!(vec![(50, Encoding::Plain)], records(&entry));
    assert_eq!(50, entry.last_updated.as_nanos());
    assert!(entry.in_mem.is_none());
}

#[test]
fn generations_move_up_oldest_first() {
    let mut entry = entry_with(&[30, 20, 10]);
    let plan = entry.generational_write(b"d", b"v", Encoding::Plain, 4, Duration::new(0, 40));
    assert_eq!(
        vec![
            "mv d/dir-cache-generation-2 d/dir-cache-generation-3".to_string(),
            "mv d/dir-cache-generation-1 d/dir-cache-generation-2".to_string(),
            "mv d/dir-cache-generation-0 d/dir-cache-generation-1".to_string(),
            "write d/dir-cache-generation-0 v".to_string(),
            "write d/dir-cache-manifest.txt 1\n40,0\n30,0\n20,0\n10,0\n".to_string(),
        ],
        brief(&plan)
    );
    assert_eq!(
        vec![
            (40, Encoding::Plain),
            (30, Encoding::Plain),
            (20, Encoding::Plain),
            (10, Encoding::Plain)
        ],
        records(&entry)
    );
    // The list is full now: the oldest record goes, its file is written over
    let plan = entry.generational_write(b"d", b"w", Encoding::Plain, 4, Duration::new(0, 50));
    assert_eq!(
        vec![
            "mv d/dir-cache-generation-2 d/dir-cache-generation-3".to_string(),
            "mv d/dir-cache-generation-1 d/dir-cache-generation-2".to_string(),
            "mv d/dir-cache-generation-0 d/dir-cache-generation-1".to_string(),
            "write d/dir-cache-generation-0 w".to_string(),
            "write d/dir-cache-manifest.txt 1\n50,0\n40,0\n30,0\n20,0\n".to_string(),
        ],
        brief(&plan)
    );
    assert_eq!(50, entry.last_updated.as_nanos());
}

#[test]
fn one_generation_is_written_over() {
    let mut entry = entry_with(&[30]);
    let plan = entry.generational_write(b"d", b"v", Encoding::Lz4, 1, Duration::new(0, 40));
    assert_eq!(
        vec![
            "write d/dir-cache-generation-0 v".to_string(),
            "write d/dir-cache-manifest.txt 1\n40,0\n".to_string(),
        ],
        brief(&plan)
    );
    assert_eq!(vec![(40, Encoding::Plain)], records(&entry));
}

#[test]
fn newest_generation_is_stored_anew_when_it_ages() {
    let mut entry = entry_with(&[30, 20]);
    entry.on_disk[1].encoding = Encoding::Lz4;
    let plan = entry.generational_write(b"d", b"v", Encoding::Lz4, 3, Duration::new(0, 40));
    assert_eq!(
        vec![
            "mv d/dir-cache-generation-1 d/dir-cache-generation-2".to_string(),
            "recode Lz4 d/dir-cache-generation-0 d/dir-cache-generation-1".to_string(),
            "write d/dir-cache-generation-0 v".to_string(),
            "write d/dir-cache-manifest.txt 1\n40,0\n30,1\n20,1\n".to_string(),
        ],
        brief(&plan)
    );
    assert_eq!(
        vec![
            (40, Encoding::Plain),
            (30, Encoding::Lz4),
            (20, Encoding::Lz4)
        ],
        records(&entry)
    );
}

#[test]
fn longer_list_is_cut_down_first() {
    let mut entry = entry_with(&[50, 40, 30, 20, 10]);
    let plan = entry.generational_write(b"d", b"v", Encoding::Plain, 2, Duration::new(0, 60));
    assert_eq!(
        vec![
            "rm d/dir-cache-generation-5".to_string(),
            "rm d/dir-cache-generation-4".to_string(),
            "rm d/dir-cache-generation-3".to_string(),
            "mv d/dir-cache-generation-0 d/dir-cache-generation-1".to_string(),
            "write d/dir-cache-generation-0 v".to_string(),
            "write d/dir-cache-manifest.txt 1\n60,0\n50,0\n".to_string(),
        ],
        brief(&plan)
    );
    assert_eq!(vec![(60, Encoding::Plain), (50, Encoding::Plain)], records(&entry));
}

fn generation_opt(max: usize) -> GenerationOpt {
    GenerationOpt::new(max, Encoding::Plain, ExpirationOpt::NoExpiry)
}

#[test]
fn first_value_is_stored_as_the_push_option_says() {
    let now = Duration::new(0, 40);
    let mut entry = DirCacheEntry::new();
    let plan = entry.insert_new_data(
        b"d",
        b"v".to_vec(),
        MemPushOpt::RetainAndWrite,
        generation_opt(2),
        now,
    );
    assert_eq!(2, plan.len());
    let in_mem = entry.in_mem.as_ref().unwrap();
    assert!(!in_mem.committed);
    assert_eq!(b"v".to_vec(), in_mem.content);
    assert_eq!(vec![(40, Encoding::Plain)], records(&entry));
    assert_eq!(now, entry.last_updated);

    let mut entry = DirCacheEntry::new();
    let plan = entry.insert_new_data(
        b"d",
        b"v".to_vec(),
        MemPushOpt::MemoryOnly,
        generation_opt(2),
        now,
    );
    assert!(plan.is_empty());
    let in_mem = entry.in_mem.as_ref().unwrap();
    assert!(!in_mem.committed);
    assert_eq!(b"v".to_vec(), in_mem.content);
    assert!(entry.on_disk.is_empty());
    assert_eq!(now, entry.last_updated);

    let mut entry = DirCacheEntry::new();
    let plan = entry.insert_new_data(
        b"d",
        b"v".to_vec(),
        MemPushOpt::PassthroughWrite,
        generation_opt(2),
        now,
    );
    assert_eq!(2, plan.len());
    assert!(entry.in_mem.is_none());
    assert_eq!(vec![(40, Encoding::Plain)], records(&entry));
    assert_eq!(now, entry.last_updated);
}

#[test]
fn later_value_is_stored_as_the_push_option_says() {
    let now = Duration::new(0, 40);
    let mut entry = entry_with(&[30]);
    let plan = DirCacheInner::run_dir_cache_entry_write(
        &mut entry,
        b"d",
        b"v".to_vec(),
        MemPushOpt::RetainAndWrite,
        generation_opt(2),
        now,
    );
    assert_eq!(
        vec![
            "mkdir d".to_string(),
            "mv d/dir-cache-generation-0 d/dir-cache-generation-1".to_string(),
            "write d/dir-cache-generation-0 v".to_string(),
            "write d/dir-cache-manifest.txt 1\n40,0\n30,0\n".to_string(),
        ],
        brief(&plan)
    );
    let in_mem = entry.in_mem.as_ref().unwrap();
    assert!(in_mem.committed);
    assert_eq!(b"v".to_vec(), in_mem.content);
    assert_eq!(now, entry.last_updated);

    let mut entry = entry_with(&[30]);
    let plan = DirCacheInner::run_dir_cache_entry_write(
        &mut entry,
        b"d",
        b"v".to_vec(),
        MemPushOpt::MemoryOnly,
        generation_opt(2),
        now,
    );
    assert!(plan.is_empty());
    assert!(!entry.in_mem.as_ref().unwrap().committed);
    assert_eq!(vec![(30, Encoding::Plain)], records(&entry));
    assert_eq!(now, entry.last_updated);

    let mut entry = entry_with(&[30]);
    entry.in_mem = Some(InMemEntry {
        committed: true,
        content: b"old".to_vec(),
    });
    let plan = DirCacheInner::run_dir_cache_entry_write(
        &mut entry,
        b"d",
        b"v".to_vec(),
        MemPushOpt::PassthroughWrite,
        generation_opt(2),
        now,
    );
    assert_eq!(4, plan.len());
    assert!(entry.in_mem.is_none());
    assert_eq!(
        vec![(40, Encoding::Plain), (30, Encoding::Plain)],
        records(&entry)
    );
}

#[test]
fn flush_writes_what_has_yet_to_reach_the_disk() {
    let now = Duration::new(0, 40);
    for keep in [true, false] {
        let mut entry = entry_with(&[30]);
        entry.in_mem = Some(InMemEntry {
            committed: false,
            content: b"v".to_vec(),
        });
        let plan = entry.dump_in_mem(b"d", keep, 2, Encoding::Plain, now);
        assert_eq!(
            vec![
                "mv d/dir-cache-generation-0 d/dir-cache-generation-1".to_string(),
                "write d/dir-cache-generation-0 v".to_string(),
                "write d/dir-cache-manifest.txt 1\n40,0\n30,0\n".to_string(),
            ],
            brief(&plan)
        );
        assert_eq!(now, entry.last_updated);
        match &entry.in_mem {
            Some(in_mem) => {
                assert!(keep);
                assert!(in_mem.committed);
                assert_eq!(b"v".to_vec(), in_mem.content);
            }
            None => assert!(!keep),
        }
    }
}

#[test]
fn flush_of_what_is_on_disk_writes_the_manifest_only() {
    let now = Duration::new(0, 40);
    for in_mem in [true, false] {
        let mut entry = entry_with(&[30, 20]);
        if in_mem {
            entry.in_mem = Some(InMemEntry {
                committed: true,
                content: b"v".to_vec(),
            });
        }
        let plan = entry.dump_in_mem(b"d", true, 2, Encoding::Plain, now);
        assert_eq!(
            vec!["write d/dir-cache-manifest.txt 1\n30,0\n20,0\n".to_string()],
            brief(&plan)
        );
        assert!(entry.in_mem.is_none());
        assert_eq!(30, entry.last_updated.as_nanos());
    }
}

#[test]
fn entry_is_too_old_by_its_last_update_or_its_newest_generation() {
    let ttl = Duration::new(0, 10);
    let mut entry = entry_with(&[30]);
    assert!(!entry.is_stale(ttl, Duration::new(0, 39)));
    assert!(entry.is_stale(ttl, Duration::new(0, 40)));
    // A value in memory that was updated later keeps the entry alive
    entry.in_mem = Some(InMemEntry {
        committed: false,
        content: b"v".to_vec(),
    });
    entry.last_updated = Duration::new(0, 35);
    assert!(!entry.is_stale(ttl, Duration::new(0, 44)));
    assert!(entry.is_stale(ttl, Duration::new(0, 45)));
    // Without it the newest generation decides
    entry.in_mem = None;
    assert!(entry.is_stale(ttl, Duration::new(0, 44)));
    // An entry that holds nothing is always too old
    let entry = DirCacheEntry::new();
    assert!(entry.is_stale(Duration::max(), Duration::zero()));
}

fn item(name: &[u8], is_file: bool) -> DirItem {
    DirItem {
        name: name.to_vec(),
        is_file,
        is_dir: !is_file,
    }
}

#[test]
fn clearing_removes_the_files_of_the_cache_only() {
    let items = vec![
        item(b"dir-cache-generation-1", true),
        item(b"rogue_user_file", true),
        item(b"dir-cache-manifest.txt", true),
        item(b"dir-cache-generation-007", true),
    ];
    let plan = try_remove_dir(b"root/k", FileObjectExists::AsDir, &items).unwrap();
    assert_eq!(
        vec![
            "rm root/k/dir-cache-generation-1".to_string(),
            "rm root/k/dir-cache-manifest.txt".to_string(),
            "rm root/k/dir-cache-generation-007".to_string(),
        ],
        brief(&plan)
    );
}

#[test]
fn clearing_removes_the_directory_when_nothing_else_is_in_it() {
    let items = vec![
        item(b"dir-cache-manifest.txt", true),
        item(b"dir-cache-generation-0", true),
    ];
    let plan = try_remove_dir(b"root/k", FileObjectExists::AsDir, &items).unwrap();
    assert_eq!(
        vec![
            "rm root/k/dir-cache-manifest.txt".to_string(),
            "rm root/k/dir-cache-generation-0".to_string(),
            "rmdir root/k".to_string(),
        ],
        brief(&plan)
    );
    let plan = try_remove_dir(b"root/k", FileObjectExists::AsDir, &Vec::new()).unwrap();
    assert_eq!(vec!["rmdir root/k".to_string()], brief(&plan));
}

#[test]
fn clearing_spares_directories_whatever_their_name() {
    let items = vec![
        item(b"dir-cache-manifest.txt", true),
        item(b"sub", false),
        item(b"dir-cache-generation-0", false),
    ];
    let plan = try_remove_dir(b"root/k", FileObjectExists::AsDir, &items).unwrap();
    assert_eq!(
        vec!["rm root/k/dir-cache-manifest.txt".to_string()],
        brief(&plan)
    );
}

#[test]
fn clearing_spares_what_is_neither_file_nor_directory() {
    let items = vec![DirItem {
        name: b"dir-cache-generation-0".to_vec(),
        is_file: false,
        is_dir: false,
    }];
    let plan = try_remove_dir(b"root/k", FileObjectExists::AsDir, &items).unwrap();
    assert!(plan.is_empty());
}

#[test]
fn clearing_what_is_not_there_does_nothing() {
    let items = vec![item(b"dir-cache-manifest.txt", true)];
    let plan = try_remove_dir(b"root/k", FileObjectExists::No, &items).unwrap();
    assert!(plan.is_empty());
    let err = try_remove_dir(b"root/k", FileObjectExists::AsFile, &items).unwrap_err();
    assert_eq!(ErrorKind::ReadContent, err.kind());
}
