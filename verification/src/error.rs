//! The errors shared by every layer of the library.
use vstd::prelude::*;
use crate::bytes::bytes_to_vec;

verus! {

/// What went wrong with the underlying byte source or sink.
#[derive(Clone, Copy, Debug, PartialEq, Eq, Structural)]
pub enum IoErrorKind {
    /// The source ended before the requested bytes were read.
    UnexpectedEof,
    /// A seek to a position outside the stream was requested.
    InvalidInput,
    /// The cipher could not process the data (end of keystream).
    Other,
}

/// A fault of the underlying byte source or sink.
#[derive(Clone, Copy, Debug, PartialEq, Eq, Structural)]
pub struct IoError {
    pub kind: IoErrorKind,
}

impl IoError {
    pub fn new(kind: IoErrorKind) -> (e: IoError)
        ensures
            e.kind == kind,
    {
        IoError { kind }
    }

    pub fn kind(&self) -> (k: IoErrorKind)
        ensures
            k == self.kind,
    {
        self.kind
    }
}

#[derive(Debug)]
pub enum EnardError {
    /// A fault of the underlying byte source or sink.
    IO(IoError),
    /// The authentication primitive was handed a buffer of the wrong size.
    InvalidBufferSize,
    /// The stored tag does not match the authenticated span: a wrong key, or
    /// a file that was changed.
    MacError,
    /// The key or the iv does not have the length that the cipher requires.
    InvalidLength,
    /// No cipher of this name is known.
    UnsupportedEncryption { kind: Vec<u8> },
    /// The file does not start with the magic bytes of this format.
    InvalidMagic { exp: Vec<u8>, found: Vec<u8> },
    /// The file is of a format version that is not handled.
    UnsupportedVersion { version: u16 },
    /// A length-prefixed block is larger than its bound.
    BlockTooLarge { size: u64, limit: u64 },
}

/// The mathematical value of an [`EnardError`].
pub enum EnardErrorView {
    IO(IoErrorKind),
    InvalidBufferSize,
    MacError,
    InvalidLength,
    UnsupportedEncryption { kind: Seq<u8> },
    InvalidMagic { exp: Seq<u8>, found: Seq<u8> },
    UnsupportedVersion { version: u16 },
    BlockTooLarge { size: u64, limit: u64 },
}

impl View for EnardError {
    type V = EnardErrorView;

    open spec fn view(&self) -> EnardErrorView {
        match *self {
            EnardError::IO(e) => EnardErrorView::IO(e.kind),
            EnardError::InvalidBufferSize => EnardErrorView::InvalidBufferSize,
            EnardError::MacError => EnardErrorView::MacError,
            EnardError::InvalidLength => EnardErrorView::InvalidLength,
            EnardError::UnsupportedEncryption { kind } => EnardErrorView::UnsupportedEncryption {
                kind: kind@,
            },
            EnardError::InvalidMagic { exp, found } => EnardErrorView::InvalidMagic {
                exp: exp@,
                found: found@,
            },
            EnardError::UnsupportedVersion { version } => EnardErrorView::UnsupportedVersion {
                version,
            },
            EnardError::BlockTooLarge { size, limit } => EnardErrorView::BlockTooLarge {
                size,
                limit,
            },
        }
    }
}

impl EnardError {
    /// An I/O fault of the given kind.
    pub fn new_io(kind: IoErrorKind) -> (e: EnardError)
        ensures
            e@ == EnardErrorView::IO(kind),
    {
        EnardError::IO(IoError { kind })
    }

    /// The cipher named `kind_buf` is not known.
    pub fn new_unsupported_encryption(kind_buf: &[u8]) -> (e: EnardError)
        ensures
            e@ == (EnardErrorView::UnsupportedEncryption { kind: kind_buf@ }),
    {
        EnardError::UnsupportedEncryption { kind: bytes_to_vec(kind_buf) }
    }

    /// The magic bytes `found` were read where `exp` was expected.
    pub fn new_invalid_magic(exp: &[u8], found: &[u8]) -> (e: EnardError)
        ensures
            e@ == (EnardErrorView::InvalidMagic { exp: exp@, found: found@ }),
    {
        EnardError::InvalidMagic { exp: bytes_to_vec(exp), found: bytes_to_vec(found) }
    }

    /// A block of `size` bytes was met where at most `limit` are allowed.
    pub fn new_block_size(size: u64, limit: u64) -> (e: EnardError)
        ensures
            e@ == (EnardErrorView::BlockTooLarge { size, limit }),
    {
        EnardError::BlockTooLarge { size, limit }
    }
}

} // verus!
