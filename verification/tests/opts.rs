use dir_cache::disk::{FileObjectExists, FsOp};
use dir_cache::error::{Error, ErrorKind};
use dir_cache::opts::{
    CacheOpenOptions, DirCacheOpts, DirOpenOpt, Encoding, ExpirationOpt, GenerationOpt, MemPullOpt,
    MemPushOpt, SyncOpt,
};
use dir_cache::time::Duration;

fn lz4_direct(content: &[u8]) -> Vec<u8> {
    let mut buf = Vec::new();
    let mut encoder = lz4::EncoderBuilder::new().build(&mut buf).unwrap();
    std::io::Write::write(&mut encoder, content).unwrap();
    buf
}

#[test]
fn encodings_have_their_tags() {
    assert_eq!(b"0".to_vec(), Encoding::Plain.serialize());
    assert_eq!(b"1".to_vec(), Encoding::Lz4.serialize());
    assert_eq!(Encoding::Plain, Encoding::deserialize(b"0").unwrap());
    assert_eq!(Encoding::Lz4, Encoding::deserialize(b"1").unwrap());
    for encoding in [Encoding::Plain, Encoding::Lz4] {
        assert_eq!(
            encoding,
            Encoding::deserialize(&encoding.serialize()).unwrap()
        );
    }
    for tag in [&b""[..], b"2", b"00", b"01", b"0 ", b"plain", b"\x00"] {
        let err = Encoding::deserialize(tag).unwrap_err();
        assert_eq!(ErrorKind::ParseMetadata, err.kind());
        assert!(matches!(err, Error::ParseMetadata(_)));
    }
}

#[test]
fn plain_encoding_hands_the_content_back() {
    assert_eq!(
        b"Dummy content!".to_vec(),
        Encoding::Plain.encode(b"Dummy content!".to_vec()).unwrap()
    );
    assert_eq!(Vec::<u8>::new(), Encoding::Plain.encode(Vec::new()).unwrap());
}

#[test]
fn lz4_encoding_is_what_the_encoder_leaves() {
    let large: Vec<u8> = (0..300_000u32).map(|i| (i % 251) as u8).collect();
    for content in [&b""[..], b"gen1", b"Dummy content!", &large] {
        let stored = Encoding::Lz4.encode(content.to_vec()).unwrap();
        assert_eq!(lz4_direct(content), stored);
        assert_ne!(content.to_vec(), stored);
        // The frame begins with the magic number of the format
        assert_eq!([0x04, 0x22, 0x4d, 0x18], stored[..4]);
    }
    // The same content gives the same bytes
    assert_eq!(
        Encoding::Lz4.encode(large.clone()).unwrap(),
        Encoding::Lz4.encode(large).unwrap()
    );
}

#[test]
fn defaults_are_as_documented() {
    let opts = DirCacheOpts::default();
    assert_eq!(MemPullOpt::KeepInMemoryOnRead, opts.mem_pull_opt);
    assert_eq!(MemPushOpt::PassthroughWrite, opts.mem_push_opt);
    assert_eq!(SyncOpt::ManualSync, opts.sync_opt);
    assert_eq!(1, opts.generation_opt.max_generations());
    assert_eq!(Encoding::Plain, opts.generation_opt.old_gen_encoding());
    assert!(matches!(
        opts.generation_opt.expiration(),
        ExpirationOpt::NoExpiry
    ));
    assert_eq!(DirOpenOpt::CreateIfMissing, DirOpenOpt::default());
    assert_eq!(MemPushOpt::PassthroughWrite, MemPushOpt::default());
    assert_eq!(MemPullOpt::KeepInMemoryOnRead, MemPullOpt::default());
    assert_eq!(SyncOpt::ManualSync, SyncOpt::default());
    assert!(matches!(ExpirationOpt::default(), ExpirationOpt::NoExpiry));
    let generation = GenerationOpt::default();
    assert_eq!(1, generation.max_generations());
    assert_eq!(Encoding::Plain, generation.old_gen_encoding());
    let open = CacheOpenOptions::default();
    assert_eq!(DirOpenOpt::CreateIfMissing, open.dir_open);
    assert!(!open.eager_load_to_ram);
}

#[test]
fn builders_change_one_option_each() {
    let generation = GenerationOpt::new(
        3,
        Encoding::Lz4,
        ExpirationOpt::ExpiresAfter(Duration::from_secs(7)),
    );
    assert_eq!(3, generation.max_generations());
    assert_eq!(Encoding::Lz4, generation.old_gen_encoding());
    assert_eq!(Duration::from_secs(7), generation.expiration().as_dur());
    let base = DirCacheOpts::new(
        MemPullOpt::DontKeepInMemoryOnRead,
        MemPushOpt::MemoryOnly,
        generation,
        SyncOpt::SyncOnDrop,
    );
    assert_eq!(MemPullOpt::DontKeepInMemoryOnRead, base.mem_pull_opt);
    assert_eq!(MemPushOpt::MemoryOnly, base.mem_push_opt);
    assert_eq!(SyncOpt::SyncOnDrop, base.sync_opt);
    assert_eq!(3, base.generation_opt.max_generations());

    let changed = base.with_mem_pull_opt(MemPullOpt::KeepInMemoryOnRead);
    assert_eq!(MemPullOpt::KeepInMemoryOnRead, changed.mem_pull_opt);
    assert_eq!(MemPushOpt::MemoryOnly, changed.mem_push_opt);
    assert_eq!(SyncOpt::SyncOnDrop, changed.sync_opt);
    assert_eq!(3, changed.generation_opt.max_generations());

    let changed = base.with_mem_push_opt(MemPushOpt::RetainAndWrite);
    assert_eq!(MemPullOpt::DontKeepInMemoryOnRead, changed.mem_pull_opt);
    assert_eq!(MemPushOpt::RetainAndWrite, changed.mem_push_opt);
    assert_eq!(SyncOpt::SyncOnDrop, changed.sync_opt);

    let changed = base.with_sync_opt(SyncOpt::ManualSync);
    assert_eq!(MemPushOpt::MemoryOnly, changed.mem_push_opt);
    assert_eq!(SyncOpt::ManualSync, changed.sync_opt);

    let changed = base.with_generation_opt(GenerationOpt::default());
    assert_eq!(1, changed.generation_opt.max_generations());
    assert_eq!(Encoding::Plain, changed.generation_opt.old_gen_encoding());
    assert_eq!(MemPushOpt::MemoryOnly, changed.mem_push_opt);

    let open = CacheOpenOptions::new(DirOpenOpt::OnlyIfExists, true);
    assert_eq!(DirOpenOpt::OnlyIfExists, open.dir_open);
    assert!(open.eager_load_to_ram);
}

#[test]
fn opening_depends_on_what_stands_at_the_root() {
    let opts = DirCacheOpts::default();
    let only = CacheOpenOptions::new(DirOpenOpt::OnlyIfExists, false);
    let create = CacheOpenOptions::new(DirOpenOpt::CreateIfMissing, false);

    let (prepare, scan) = opts.open(b"root", only, FileObjectExists::AsDir).unwrap();
    assert!(prepare.is_empty());
    assert_eq!(Some(&b"root"[..]), scan.next_dir());
    for found in [FileObjectExists::No, FileObjectExists::AsFile] {
        let err = opts.open(b"root", only, found).unwrap_err();
        assert!(matches!(err, Error::Open(_)));
    }

    for found in [FileObjectExists::No, FileObjectExists::AsDir] {
        let (prepare, scan) = opts.open(b"root", create, found).unwrap();
        assert_eq!(1, prepare.len());
        assert!(matches!(&prepare[0], FsOp::CreateDirAll { path } if path == b"root"));
        assert_eq!(Some(&b"root"[..]), scan.next_dir());
    }
    let err = opts
        .open(b"root", create, FileObjectExists::AsFile)
        .unwrap_err();
    assert!(matches!(err, Error::WriteContent(_, None)));
}

#[test]
fn errors_describe_themselves() {
    let err = Encoding::deserialize(b"9").unwrap_err();
    assert_eq!(
        "Failed to parse metadata: Failed to parse encoding",
        err.describe()
    );
    let err = Error::WriteContent("some/file".to_string(), Some("disk full".to_string()));
    assert_eq!(ErrorKind::WriteContent, err.kind());
    assert_eq!(
        "Failed to write content to disk at some/file, source: disk full",
        err.describe()
    );
    let err = Error::ReadContent("some/file".to_string(), None);
    assert_eq!(
        "Failed to read content from disk at some/file",
        err.describe()
    );
    let cases = [
        (Error::Arithmetic("too much"), ErrorKind::Arithmetic, "Arithmetic failed: too much"),
        (
            Error::ParseManifest("v".to_string()),
            ErrorKind::ParseManifest,
            "Failed to parse manifest, cause: v",
        ),
        (
            Error::SystemTime("early".to_string()),
            ErrorKind::SystemTime,
            "Failed to get system time: early",
        ),
        (Error::Open("p".to_string()), ErrorKind::Open, "Bad manifest path: p"),
        (
            Error::DeleteContent("p".to_string(), Some("busy".to_string())),
            ErrorKind::DeleteContent,
            "Failed to delete content from disk at p, source: busy",
        ),
        (
            Error::InsertWithErr("no".to_string()),
            ErrorKind::InsertWithErr,
            "Failed to insert with: no",
        ),
        (
            Error::DangerousKey("k".to_string()),
            ErrorKind::DangerousKey,
            "Dangerous key used: k",
        ),
        (
            Error::EncodingError("e".to_string()),
            ErrorKind::EncodingError,
            "Failed to encode content: e",
        ),
        (
            Error::PathRelativize("r".to_string()),
            ErrorKind::PathRelativize,
            "Failed to relativize paths: r",
        ),
    ];
    for (err, kind, description) in cases {
        assert_eq!(kind, err.kind());
        assert_eq!(description, err.describe());
    }
}
