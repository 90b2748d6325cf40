//! The error type shared by every fallible operation of the cache.

use vstd::prelude::*;
use vstd::string::StringExecFns;

verus! {

pub type Result<T> = core::result::Result<T, Error>;

/// What went wrong, without the explanatory text.
#[derive(Clone, Copy, Debug, PartialEq, Eq, Structural)]
pub enum ErrorKind {
    Arithmetic,
    ParseManifest,
    ParseMetadata,
    SystemTime,
    Open,
    WriteContent,
    ReadContent,
    DeleteContent,
    InsertWithErr,
    DangerousKey,
    EncodingError,
    PathRelativize,
}

/// A failure of a cache operation. Each variant carries a short explanation;
/// the variants for content on disk also carry the text of the underlying
/// cause, when there is one.
#[derive(Debug)]
pub enum Error {
    /// A timestamp in nanoseconds does not fit into seconds and sub-second nanoseconds.
    Arithmetic(&'static str),
    /// The manifest was written by another version of the format.
    ParseManifest(String),
    /// The manifest is malformed.
    ParseMetadata(String),
    /// The clock is set before the epoch.
    SystemTime(String),
    /// The cache root does not satisfy the chosen mode of opening.
    Open(String),
    WriteContent(String, Option<String>),
    ReadContent(String, Option<String>),
    DeleteContent(String, Option<String>),
    /// The value producer handed to `get_or_insert` failed; its message is kept as it came.
    InsertWithErr(String),
    /// A key that does not name a place strictly below the cache root.
    DangerousKey(String),
    EncodingError(String),
    /// A directory found while scanning does not lie below the cache root.
    PathRelativize(String),
}

impl Error {
    pub open spec fn spec_kind(&self) -> ErrorKind {
        match self {
            Error::Arithmetic(_) => ErrorKind::Arithmetic,
            Error::ParseManifest(_) => ErrorKind::ParseManifest,
            Error::ParseMetadata(_) => ErrorKind::ParseMetadata,
            Error::SystemTime(_) => ErrorKind::SystemTime,
            Error::Open(_) => ErrorKind::Open,
            Error::WriteContent(_, _) => ErrorKind::WriteContent,
            Error::ReadContent(_, _) => ErrorKind::ReadContent,
            Error::DeleteContent(_, _) => ErrorKind::DeleteContent,
            Error::InsertWithErr(_) => ErrorKind::InsertWithErr,
            Error::DangerousKey(_) => ErrorKind::DangerousKey,
            Error::EncodingError(_) => ErrorKind::EncodingError,
            Error::PathRelativize(_) => ErrorKind::PathRelativize,
        }
    }

    /// The kind of this error.
    #[verifier::when_used_as_spec(spec_kind)]
    pub fn kind(&self) -> (k: ErrorKind)
        ensures
            k == self.spec_kind(),
    {
        match self {
            Error::Arithmetic(_) => ErrorKind::Arithmetic,
            Error::ParseManifest(_) => ErrorKind::ParseManifest,
            Error::ParseMetadata(_) => ErrorKind::ParseMetadata,
            Error::SystemTime(_) => ErrorKind::SystemTime,
            Error::Open(_) => ErrorKind::Open,
            Error::WriteContent(_, _) => ErrorKind::WriteContent,
            Error::ReadContent(_, _) => ErrorKind::ReadContent,
            Error::DeleteContent(_, _) => ErrorKind::DeleteContent,
            Error::InsertWithErr(_) => ErrorKind::InsertWithErr,
            Error::DangerousKey(_) => ErrorKind::DangerousKey,
            Error::EncodingError(_) => ErrorKind::EncodingError,
            Error::PathRelativize(_) => ErrorKind::PathRelativize,
        }
    }

    /// The fixed text that opens the description of an error of this kind.
    pub open spec fn headline(kind: ErrorKind) -> Seq<char> {
        match kind {
            ErrorKind::Arithmetic => "Arithmetic failed: "@,
            ErrorKind::ParseManifest => "Failed to parse manifest, cause: "@,
            ErrorKind::ParseMetadata => "Failed to parse metadata: "@,
            ErrorKind::SystemTime => "Failed to get system time: "@,
            ErrorKind::Open => "Bad manifest path: "@,
            ErrorKind::WriteContent => "Failed to write content to disk at "@,
            ErrorKind::ReadContent => "Failed to read content from disk at "@,
            ErrorKind::DeleteContent => "Failed to delete content from disk at "@,
            ErrorKind::InsertWithErr => "Failed to insert with: "@,
            ErrorKind::DangerousKey => "Dangerous key used: "@,
            ErrorKind::EncodingError => "Failed to encode content: "@,
            ErrorKind::PathRelativize => "Failed to relativize paths: "@,
        }
    }

    /// The explanation an error carries.
    pub open spec fn detail(&self) -> Seq<char> {
        match self {
            Error::Arithmetic(s) => s@,
            Error::ParseManifest(s) => s@,
            Error::ParseMetadata(s) => s@,
            Error::SystemTime(s) => s@,
            Error::Open(s) => s@,
            Error::WriteContent(s, _) => s@,
            Error::ReadContent(s, _) => s@,
            Error::DeleteContent(s, _) => s@,
            Error::InsertWithErr(s) => s@,
            Error::DangerousKey(s) => s@,
            Error::EncodingError(s) => s@,
            Error::PathRelativize(s) => s@,
        }
    }

    /// The text of the underlying cause, where the error has one.
    pub open spec fn cause(&self) -> Option<Seq<char>> {
        match self {
            Error::WriteContent(_, Some(c)) => Some(c@),
            Error::ReadContent(_, Some(c)) => Some(c@),
            Error::DeleteContent(_, Some(c)) => Some(c@),
            _ => None,
        }
    }

    /// A one-line description: the headline of the kind, the explanation and,
    /// where there is one, the cause.
    pub fn describe(&self) -> (text: String)
        ensures
            text@ == Self::headline(self.spec_kind()) + self.detail() + match self.cause() {
                Some(c) => ", source: "@ + c,
                None => Seq::<char>::empty(),
            },
    {
        let text = match self {
            Error::Arithmetic(s) => String::from_str("Arithmetic failed: ").concat(s),
            Error::ParseManifest(s) => String::from_str("Failed to parse manifest, cause: ").concat(
                s.as_str(),
            ),
            Error::ParseMetadata(s) => String::from_str("Failed to parse metadata: ").concat(
                s.as_str(),
            ),
            Error::SystemTime(s) => String::from_str("Failed to get system time: ").concat(
                s.as_str(),
            ),
            Error::Open(s) => String::from_str("Bad manifest path: ").concat(s.as_str()),
            Error::WriteContent(s, _) => String::from_str(
                "Failed to write content to disk at ",
            ).concat(s.as_str()),
            Error::ReadContent(s, _) => String::from_str(
                "Failed to read content from disk at ",
            ).concat(s.as_str()),
            Error::DeleteContent(s, _) => String::from_str(
                "Failed to delete content from disk at ",
            ).concat(s.as_str()),
            Error::InsertWithErr(s) => String::from_str("Failed to insert with: ").concat(
                s.as_str(),
            ),
            Error::DangerousKey(s) => String::from_str("Dangerous key used: ").concat(s.as_str()),
            Error::EncodingError(s) => String::from_str("Failed to encode content: ").concat(
                s.as_str(),
            ),
            Error::PathRelativize(s) => String::from_str("Failed to relativize paths: ").concat(
                s.as_str(),
            ),
        };
        let cause = match self {
            Error::WriteContent(_, Some(c)) => Some(c),
            Error::ReadContent(_, Some(c)) => Some(c),
            Error::DeleteContent(_, Some(c)) => Some(c),
            _ => None,
        };
        match cause {
            Some(c) => {
                let with_cause = text.concat(", source: ").concat(c.as_str());
                assert(with_cause@ =~= Self::headline(self.spec_kind()) + self.detail() + (
                ", source: "@ + c@));
                with_cause
            },
            None => {
                assert(text@ =~= Self::headline(self.spec_kind()) + self.detail() + Seq::<
                    char,
                >::empty());
                text
            },
        }
    }
}

} // verus!
