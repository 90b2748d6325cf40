//! The options that steer a cache: what is kept in memory, how many
//! generations a key keeps, how old generations are stored, and when a
//! value expires.

use crate::cache::{CacheView, DirCacheInner};
use crate::scan::{DirScan, ScanView};
use crate::store::SlotView;
use crate::disk::{plan_view, FileObjectExists, FsOp, FsOpView};
use crate::error::{Error, ErrorKind, Result};
use crate::time::{Duration, MAX_NANOS};
use vstd::prelude::*;
use vstd::string::StringExecFns;

verus! {

/// Options for when a cache is opened.
#[derive(Debug, Copy, Clone, PartialEq, Eq, Structural)]
pub enum DirOpenOpt {
    /// Only open if a directory already exists at the path, otherwise fail.
    OnlyIfExists,
    /// Create a directory if none exists at the path.
    CreateIfMissing,
}

/// Whether data is retained in memory when it is written.
#[derive(Debug, Copy, Clone, PartialEq, Eq, Structural)]
pub enum MemPushOpt {
    /// Keep the data in memory after writing it to disk.
    RetainAndWrite,
    /// Keep the data in memory only; it reaches the disk on the next sync.
    MemoryOnly,
    /// Write the data to disk and keep no copy in memory.
    PassthroughWrite,
}

/// Whether data read from disk is kept in memory afterwards.
#[derive(Debug, Copy, Clone, PartialEq, Eq, Structural)]
pub enum MemPullOpt {
    KeepInMemoryOnRead,
    DontKeepInMemoryOnRead,
}

/// When an entry expires.
#[derive(Debug, Copy, Clone)]
pub enum ExpirationOpt {
    /// Entries never expire.
    NoExpiry,
    /// Entries expire once they are this old.
    ExpiresAfter(Duration),
}

/// Whether the state kept in memory is written to disk when the cache is closed.
#[derive(Debug, Copy, Clone, PartialEq, Eq, Structural)]
pub enum SyncOpt {
    SyncOnDrop,
    ManualSync,
}

/// How a generation is stored once it is no longer the newest.
#[derive(Copy, Clone, Debug, PartialEq, Eq, Structural)]
pub enum Encoding {
    /// The bytes as they are.
    Plain,
    /// The bytes as the start of an LZ4 frame.
    Lz4,
}

impl Default for DirOpenOpt {
    fn default() -> (r: Self)
        ensures
            r == DirOpenOpt::CreateIfMissing,
    {
        DirOpenOpt::CreateIfMissing
    }
}

impl Default for MemPushOpt {
    fn default() -> (r: Self)
        ensures
            r == MemPushOpt::PassthroughWrite,
    {
        MemPushOpt::PassthroughWrite
    }
}

impl Default for MemPullOpt {
    fn default() -> (r: Self)
        ensures
            r == MemPullOpt::KeepInMemoryOnRead,
    {
        MemPullOpt::KeepInMemoryOnRead
    }
}

impl Default for ExpirationOpt {
    fn default() -> (r: Self)
        ensures
            r is NoExpiry,
    {
        ExpirationOpt::NoExpiry
    }
}

impl Default for SyncOpt {
    fn default() -> (r: Self)
        ensures
            r == SyncOpt::ManualSync,
    {
        SyncOpt::ManualSync
    }
}

impl ExpirationOpt {
    /// The age, in nanoseconds, at which an entry expires. Without expiry it
    /// is the longest span there is.
    pub open spec fn ttl(self) -> nat {
        match self {
            ExpirationOpt::NoExpiry => MAX_NANOS as nat,
            ExpirationOpt::ExpiresAfter(d) => d@,
        }
    }

    pub fn as_dur(self) -> (d: Duration)
        ensures
            d@ == self.ttl(),
    {
        match self {
            ExpirationOpt::NoExpiry => Duration::max(),
            ExpirationOpt::ExpiresAfter(dur) => dur,
        }
    }
}

/// `std::io::Error`, the failure of the LZ4 encoder. It is carried as it
/// comes; nothing is claimed of what it holds.
#[verifier::external_type_specification]
#[verifier::external_body]
pub struct ExIoError(std::io::Error);

/// What `lz4::EncoderBuilder::new().build(..)` followed by one `write` of the
/// whole content leaves in the underlying buffer.
pub uninterp spec fn lz4_frame(content: Seq<u8>) -> Seq<u8>;

/// Builds an `lz4::Encoder` with the default settings over an empty buffer,
/// writes `content` to it in one call of `Write::write`, and hands back the
/// buffer without finishing the frame: the frame header, followed by the
/// blocks that the encoder completed on its own. The bytes are determined by
/// the content; either step may fail with the error of the underlying library.
#[verifier::external_body]
fn lz4_write(content: &[u8]) -> (r: core::result::Result<Vec<u8>, std::io::Error>)
    ensures
        r matches Ok(bytes) ==> bytes@ == lz4_frame(content@),
{
    let mut buf = Vec::new();
    let mut encoder = lz4::EncoderBuilder::new().build(&mut buf)?;
    std::io::Write::write(&mut encoder, content)?;
    Ok(buf)
}

impl Encoding {
    /// The tag that names the encoding in a manifest.
    pub open spec fn tag(self) -> Seq<u8> {
        match self {
            Encoding::Plain => seq![0x30u8],
            Encoding::Lz4 => seq![0x31u8],
        }
    }

    /// The encoding that a tag names, if any.
    pub open spec fn from_tag(tag: Seq<u8>) -> Option<Encoding> {
        if tag == Encoding::Plain.tag() {
            Some(Encoding::Plain)
        } else if tag == Encoding::Lz4.tag() {
            Some(Encoding::Lz4)
        } else {
            None
        }
    }

    /// The stored form of `content` under this encoding.
    pub open spec fn encoded(self, content: Seq<u8>) -> Seq<u8> {
        match self {
            Encoding::Plain => content,
            Encoding::Lz4 => lz4_frame(content),
        }
    }

    pub fn serialize(self) -> (tag: Vec<u8>)
        ensures
            tag@ == self.tag(),
    {
        match self {
            Encoding::Plain => vec![0x30u8],
            Encoding::Lz4 => vec![0x31u8],
        }
    }

    pub fn deserialize(s: &[u8]) -> (r: Result<Encoding>)
        ensures
            match Encoding::from_tag(s@) {
                Some(e) => r == Ok::<Encoding, Error>(e),
                None => r is Err && r->Err_0.kind() == ErrorKind::ParseMetadata,
            },
    {
        if s.len() == 1 && s[0] == 0x30 {
            assert(s@ =~= Encoding::Plain.tag());
            Ok(Encoding::Plain)
        } else if s.len() == 1 && s[0] == 0x31 {
            assert(s@ =~= Encoding::Lz4.tag());
            Ok(Encoding::Lz4)
        } else {
            assert(s@ != Encoding::Plain.tag()) by {
                if s@ == Encoding::Plain.tag() {
                    assert(s@.len() == 1 && s@[0] == 0x30);
                }
            }
            assert(s@ != Encoding::Lz4.tag()) by {
                if s@ == Encoding::Lz4.tag() {
                    assert(s@.len() == 1 && s@[0] == 0x31);
                }
            }
            Err(Error::ParseMetadata(String::from_str("Failed to parse encoding")))
        }
    }

    /// Stores `content` under this encoding. `Plain` hands the content back
    /// and cannot fail.
    pub fn encode(self, content: Vec<u8>) -> (r: Result<Vec<u8>>)
        ensures
            self == Encoding::Plain ==> r is Ok,
            r is Ok ==> r->Ok_0@ == self.encoded(content@),
            r is Err ==> r->Err_0.kind() == ErrorKind::EncodingError,
    {
        match self {
            Encoding::Plain => Ok(content),
            Encoding::Lz4 => match lz4_write(content.as_slice()) {
                Ok(bytes) => Ok(bytes),
                Err(e) => Err(Error::EncodingError(e.to_string())),
            },
        }
    }
}

/// Reading back the tag of an encoding gives the encoding.
pub proof fn lemma_tag_round_trip(e: Encoding)
    ensures
        Encoding::from_tag(e.tag()) == Some(e),
{
    assert(Encoding::Lz4.tag()[0] != Encoding::Plain.tag()[0]);
}

/// The aging policy in plain values.
pub ghost struct GenerationOptView {
    pub max_generations: nat,
    pub old_gen_encoding: Encoding,
    pub ttl: nat,
}

/// Data can be saved as generations, keeping older values of a key; these
/// options say how many are kept, how the older ones are stored and when
/// they expire.
#[derive(Debug, Copy, Clone)]
pub struct GenerationOpt {
    max_generations: usize,
    old_gen_encoding: Encoding,
    expiration: ExpirationOpt,
}

impl View for GenerationOpt {
    type V = GenerationOptView;

    closed spec fn view(&self) -> GenerationOptView {
        GenerationOptView {
            max_generations: self.max_generations as nat,
            old_gen_encoding: self.old_gen_encoding,
            ttl: self.expiration.ttl(),
        }
    }
}

impl GenerationOpt {
    #[verifier::type_invariant]
    spec fn keeps_one(self) -> bool {
        self.max_generations >= 1
    }

    /// How many generations to keep at most, the newest included: 1 keeps
    /// the current value only.
    pub fn new(max_generations: usize, old_gen_encoding: Encoding, expiration: ExpirationOpt) -> (r:
        Self)
        requires
            max_generations >= 1,
        ensures
            r@ == (GenerationOptView {
                max_generations: max_generations as nat,
                old_gen_encoding,
                ttl: expiration.ttl(),
            }),
    {
        Self { max_generations, old_gen_encoding, expiration }
    }

    pub fn max_generations(&self) -> (m: usize)
        ensures
            m == self@.max_generations,
            m >= 1,
    {
        proof {
            use_type_invariant(self);
        }
        self.max_generations
    }

    pub fn old_gen_encoding(&self) -> (e: Encoding)
        ensures
            e == self@.old_gen_encoding,
    {
        self.old_gen_encoding
    }

    pub fn expiration(&self) -> (e: ExpirationOpt)
        ensures
            e.ttl() == self@.ttl,
    {
        self.expiration
    }
}

impl Default for GenerationOpt {
    fn default() -> (r: Self)
        ensures
            r@ == (GenerationOptView {
                max_generations: 1,
                old_gen_encoding: Encoding::Plain,
                ttl: MAX_NANOS as nat,
            }),
    {
        Self::new(1, Encoding::Plain, ExpirationOpt::NoExpiry)
    }
}

/// How a cache is opened.
#[derive(Debug, Copy, Clone)]
pub struct CacheOpenOptions {
    pub dir_open: DirOpenOpt,
    pub eager_load_to_ram: bool,
}

impl CacheOpenOptions {
    pub fn new(dir_open: DirOpenOpt, eager_load_to_ram: bool) -> (r: Self)
        ensures
            r.dir_open == dir_open,
            r.eager_load_to_ram == eager_load_to_ram,
    {
        Self { dir_open, eager_load_to_ram }
    }
}

impl Default for CacheOpenOptions {
    fn default() -> (r: Self)
        ensures
            r.dir_open == DirOpenOpt::CreateIfMissing,
            !r.eager_load_to_ram,
    {
        Self { dir_open: DirOpenOpt::CreateIfMissing, eager_load_to_ram: false }
    }
}

/// Options for controlling the behavior of operations on a cache.
#[derive(Debug, Copy, Clone)]
pub struct DirCacheOpts {
    pub mem_pull_opt: MemPullOpt,
    pub mem_push_opt: MemPushOpt,
    pub generation_opt: GenerationOpt,
    pub sync_opt: SyncOpt,
}

impl Default for DirCacheOpts {
    fn default() -> (r: Self)
        ensures
            r.mem_pull_opt == MemPullOpt::KeepInMemoryOnRead,
            r.mem_push_opt == MemPushOpt::PassthroughWrite,
            r.sync_opt == SyncOpt::ManualSync,
            r.generation_opt@ == (GenerationOptView {
                max_generations: 1,
                old_gen_encoding: Encoding::Plain,
                ttl: MAX_NANOS as nat,
            }),
    {
        Self {
            mem_pull_opt: MemPullOpt::KeepInMemoryOnRead,
            mem_push_opt: MemPushOpt::PassthroughWrite,
            generation_opt: GenerationOpt::new(1, Encoding::Plain, ExpirationOpt::NoExpiry),
            sync_opt: SyncOpt::ManualSync,
        }
    }
}

/// What opening a cache at a root comes to, given what was found at the
/// root: whether the root is to be created first, or the kind of the
/// failure. `OnlyIfExists` wants a directory there. `CreateIfMissing`
/// makes sure of the directory, which cannot be done where a file stands.
pub open spec fn open_outcome(
    dir_open: DirOpenOpt,
    found: FileObjectExists,
) -> core::result::Result<bool, ErrorKind> {
    match dir_open {
        DirOpenOpt::OnlyIfExists => match found {
            FileObjectExists::AsDir => Ok(false),
            _ => Err(ErrorKind::Open),
        },
        DirOpenOpt::CreateIfMissing => match found {
            FileObjectExists::AsFile => Err(ErrorKind::WriteContent),
            _ => Ok(true),
        },
    }
}

impl DirCacheOpts {
    pub fn new(
        mem_pull_opt: MemPullOpt,
        mem_push_opt: MemPushOpt,
        generation_opt: GenerationOpt,
        sync_opt: SyncOpt,
    ) -> (r: Self)
        ensures
            r == (Self { mem_pull_opt, mem_push_opt, generation_opt, sync_opt }),
    {
        Self { mem_pull_opt, mem_push_opt, generation_opt, sync_opt }
    }

    pub fn with_mem_pull_opt(self, mem_pull_opt: MemPullOpt) -> (r: Self)
        ensures
            r == (Self { mem_pull_opt, ..self }),
    {
        Self { mem_pull_opt, ..self }
    }

    pub fn with_mem_push_opt(self, mem_push_opt: MemPushOpt) -> (r: Self)
        ensures
            r == (Self { mem_push_opt, ..self }),
    {
        Self { mem_push_opt, ..self }
    }

    pub fn with_generation_opt(self, generation_opt: GenerationOpt) -> (r: Self)
        ensures
            r == (Self { generation_opt, ..self }),
    {
        Self { generation_opt, ..self }
    }

    pub fn with_sync_opt(self, sync_opt: SyncOpt) -> (r: Self)
        ensures
            r == (Self { sync_opt, ..self }),
    {
        Self { sync_opt, ..self }
    }

    /// Opens a cache with these options at the root `path`, where `found`
    /// says what stands at that path. Hands back what is to be done on disk
    /// first, and the scan that finds the keys below the root.
    pub fn open(self, path: &[u8], cache_open_options: CacheOpenOptions, found: FileObjectExists)
        -> (r: Result<(Vec<FsOp>, DirScan)>)
        ensures
            match open_outcome(cache_open_options.dir_open, found) {
                Err(kind) => r is Err && r->Err_0.kind() == kind,
                Ok(create) => r matches Ok((prepare, scan)) && scan.wf() && scan.spec_opts() == self
                    && plan_view(prepare@) == (if create {
                    seq![FsOpView::CreateDirAll { path: path@ }]
                } else {
                    Seq::<FsOpView>::empty()
                }) && scan@ == (ScanView {
                    cache: CacheView { base: path@, entries: Seq::<SlotView>::empty() },
                    queue: seq![path@],
                    eager_load: cache_open_options.eager_load_to_ram,
                    pending: None,
                }),
            },
    {
        let mut prepare: Vec<FsOp> = Vec::new();
        assert(plan_view(prepare@) =~= Seq::<FsOpView>::empty());
        match cache_open_options.dir_open {
            DirOpenOpt::OnlyIfExists => {
                match found {
                    FileObjectExists::AsDir => {},
                    FileObjectExists::No => {
                        return Err(
                            Error::Open(String::from_str("Wanted to open, but found nothing")),
                        );
                    },
                    FileObjectExists::AsFile => {
                        return Err(
                            Error::Open(String::from_str("Wanted to open, but path is a file")),
                        );
                    },
                }
            },
            DirOpenOpt::CreateIfMissing => {
                match found {
                    FileObjectExists::AsFile => {
                        return Err(
                            Error::WriteContent(
                                String::from_str("Failed to ensure dir exists, path is a file"),
                                None,
                            ),
                        );
                    },
                    _ => {},
                }
                prepare.push(FsOp::CreateDirAll { path: crate::bytes::to_vec(path) });
                assert(plan_view(prepare@) =~= seq![FsOpView::CreateDirAll { path: path@ }]);
            },
        }
        let scan = DirCacheInner::read_from_disk(
            crate::bytes::to_vec(path),
            cache_open_options.eager_load_to_ram,
            self,
        );
        Ok((prepare, scan))
    }
}

} // verus!
