//! Enard is an encrypted container format and associated library with the goal
//! of enabling on-the-fly game asset decryption.
//!
//! A container is authenticated and randomly seekable: its payload can be
//! decrypted piece by piece and read at arbitrary offsets, and a container
//! that was changed, or that is opened with another key, is refused.
pub mod bytes;
pub mod chacha;
pub mod cipher_factory;
pub mod dyn_cipher;
pub mod error;
pub mod files;
pub mod format;
pub mod integrity;
pub mod keystream;
pub mod mac;
pub mod meta;
pub mod nothing_cipher;
pub mod options;
pub mod reader;
pub mod round_trip;
pub mod stream;
pub mod writer;

pub use crate::dyn_cipher::{BoxDynCipher, BoxDynCipherFactory, DynCipher, DynCipherCore};
pub use crate::error::{EnardError, IoError, IoErrorKind};
pub use crate::meta::MetaMap;
pub use crate::reader::{EnardBuilder, EnardReader};
pub use crate::stream::SeekFrom;
pub use crate::writer::{EnardWriter, WriterState};
