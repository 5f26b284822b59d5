//! Opening and reading a container.
use vstd::prelude::*;
use vstd::bytes::{u16_from_le_bytes, u32_from_le_bytes, u64_from_le_bytes};
use vstd::slice::{slice_subrange, slice_to_vec};
use crate::bytes::{bytes_eq, bytes_to_vec, copy_into, xor_keystream};
use crate::cipher_factory::{CipherFactory, GetFactory};
use crate::dyn_cipher::{BoxDynCipher, BoxDynCipherFactory, DynCipher, DynCipherCore};
use crate::error::{EnardError, EnardErrorView, IoError, IoErrorKind};
use crate::format::{
    magic_bytes,
    capacity_left,
    check_mac,
    eof,
    magic,
    parse_prefix,
    HEADER_START,
    VERSION,
    parse_entries,
    parse_meta,
    parse_u16_block,
    parse_u8_block,
    parse_vec,
    Entries,
};
use crate::mac::{hmac_sha256_verify, TAG_SIZE};
use crate::meta::{entries_map, MetaMap};
use crate::stream::{resolve_seek, seek_target, SeekFrom};
use core::marker::PhantomData;

verus! {

/// What the header of a container says, once the tag has been checked.
pub struct Opened {
    /// The name of the cipher.
    pub name: Seq<u8>,
    /// The iv of the cipher.
    pub iv: Seq<u8>,
    /// The metadata entries in the order in which they are stored.
    pub entries: Entries,
    /// Number of bytes from offset 20 to the start of the data.
    pub header_size: u32,
    /// Number of bytes of ciphertext.
    pub data_size: u64,
}

/// Opening the container `src` with `key`: magic and version first, then
/// the tag, and only then the header — cipher name and iv, the cipher
/// itself, the metadata.
pub open spec fn parse_container<C: DynCipher, Cf: CipherFactory<C>>(
    factory: Cf,
    src: Seq<u8>,
    key: Seq<u8>,
) -> Result<Opened, EnardErrorView> {
    match parse_prefix(src) {
        Err(e) => Err(e),
        Ok((header_size, data_size)) => match check_mac(src, key, header_size, data_size) {
            Err(e) => Err(e),
            Ok(()) => parse_header::<C, Cf>(factory, src, key, header_size, data_size),
        },
    }
}

/// Reading the header of a container whose tag has been checked.
pub open spec fn parse_header<C: DynCipher, Cf: CipherFactory<C>>(
    factory: Cf,
    src: Seq<u8>,
    key: Seq<u8>,
    header_size: u32,
    data_size: u64,
) -> Result<Opened, EnardErrorView> {
    match parse_u8_block(src, HEADER_START as int) {
        None => Err(eof()),
        Some(name) => match parse_u8_block(src, HEADER_START + 1 + name.len()) {
            None => Err(eof()),
            Some(iv) => if !factory.supports(name) {
                Err(EnardErrorView::UnsupportedEncryption { kind: name })
            } else if !(key.len() == factory.meta_spec(name).key_size && iv.len()
                == factory.meta_spec(name).iv_size) {
                Err(EnardErrorView::InvalidLength)
            } else {
                match parse_meta(
                    src,
                    HEADER_START + 2 + name.len() + iv.len(),
                    HEADER_START + header_size,
                ) {
                    Err(e) => Err(e),
                    Ok(entries) => Ok(Opened { name, iv, entries, header_size, data_size }),
                }
            },
        },
    }
}

/// Wraps the bytes of an enard file and decrypts its contents on the fly,
/// acting as a reader, with seeking, for only the "wrapped" contents of the
/// file.
pub struct EnardReader<C: DynCipher> {
    inner: Vec<u8>,
    cipher: C,
    /// Offset in the inner bytes where the data section starts
    data_start: u64,
    /// Size in bytes of the data section
    data_size: u64,
    /// Current offset in the data for seek purposes
    current: u64,
    meta: MetaMap,
}

impl<C: DynCipher> EnardReader<C> {
    /// The bytes of the file.
    pub closed spec fn source(&self) -> Seq<u8> {
        self.inner@
    }

    /// Offset in the file where the data section starts.
    pub closed spec fn data_start(&self) -> u64 {
        self.data_start
    }

    /// Size in bytes of the data section.
    pub closed spec fn data_size(&self) -> u64 {
        self.data_size
    }

    /// Current offset in the data.
    pub closed spec fn position(&self) -> u64 {
        self.current
    }

    /// The keystream of the cipher.
    pub closed spec fn keystream(&self) -> Seq<u8> {
        self.cipher.keystream()
    }

    /// The metadata of the file.
    pub closed spec fn meta_spec(&self) -> Map<Seq<u8>, Seq<u8>> {
        self.meta@
    }

    /// The data section as the file holds it.
    pub open spec fn ciphertext(&self) -> Seq<u8> {
        self.source().subrange(self.data_start() as int, self.data_start() + self.data_size())
    }

    /// The decrypted data section, from its first byte to its last.
    pub open spec fn plaintext(&self) -> Seq<u8> {
        xor_keystream(self.ciphertext(), self.keystream(), 0)
    }

    /// The data section lies within the file, the position within the data
    /// section, and the cipher stands where the position is.
    pub closed spec fn inv(&self) -> bool {
        &&& self.cipher.inv()
        &&& self.cipher.pos() == self.current
        &&& self.current <= self.data_size
        &&& self.data_start + self.data_size <= self.inner@.len()
        &&& self.meta.inv()
    }

    /// Two states of a reader of one file: all but the position is the same.
    pub open spec fn same_file(&self, other: &Self) -> bool {
        &&& self.source() == other.source()
        &&& self.data_start() == other.data_start()
        &&& self.data_size() == other.data_size()
        &&& self.keystream() == other.keystream()
        &&& self.meta_spec() == other.meta_spec()
    }

    /// The data section lies within the file, and the position within it.
    /// The cipher stands where the position is, so the position lies
    /// within the keystream too: a read at the end of the data section
    /// succeeds, with nothing read.
    pub proof fn lemma_inv(&self)
        requires
            self.inv(),
        ensures
            self.position() <= self.data_size(),
            self.data_start() + self.data_size() <= self.source().len(),
            self.position() <= self.keystream().len(),
    {
        self.cipher.lemma_inv();
    }

    /// Seeking does not change what is read: two states of a reader of one
    /// file hold the same decrypted data, so that a read at position `p`,
    /// however it was come to, gives what a read of the whole from its start
    /// holds at `p`.
    pub proof fn lemma_seek_consistent(&self, other: &Self)
        requires
            self.same_file(other),
        ensures
            self.plaintext() == other.plaintext(),
            self.ciphertext() == other.ciphertext(),
    {
    }

    /// Opens the file `reader` with `key`, with a cipher of `factory`.
    pub fn new<Cf: CipherFactory<C>>(reader: Vec<u8>, factory: Cf, key: &[u8]) -> (r: Result<
        Self,
        EnardError,
    >)
        ensures
            opened(r, parse_container::<C, Cf>(factory, reader@, key@), factory, reader@, key@),
    {
        EnardBuilder::new(reader, factory, key).build()
    }

    /// Access the metadata from the enard file
    pub fn meta(&self) -> (m: &MetaMap)
        requires
            self.inv(),
        ensures
            m@ == self.meta_spec(),
            m.inv(),
    {
        &self.meta
    }

    /// Unwraps this [`EnardReader`], returning the bytes of the file.
    pub fn into_inner(self) -> (v: Vec<u8>)
        ensures
            v@ == self.source(),
    {
        self.inner
    }

    /// Reads from the current position into the front of `buf`, as far as
    /// `buf` and the data section go, and decrypts what it read. Returns the
    /// number of bytes read: 0 at the end of the data section. The tag
    /// behind the data is never handed out.
    ///
    /// Fails, with nothing changed, where the keystream ends before the end
    /// of what was to be read.
    pub fn read(&mut self, buf: &mut [u8]) -> (r: Result<usize, IoError>)
        requires
            old(self).inv(),
        ensures
            final(self).inv(),
            final(self).same_file(old(self)),
            final(buf)@.len() == old(buf)@.len(),
            r is Ok <==> old(self).position() + read_len(
                old(buf)@.len(),
                old(self).position(),
                old(self).data_size(),
            ) <= old(self).keystream().len(),
            r matches Ok(n) ==> {
                &&& n == read_len(old(buf)@.len(), old(self).position(), old(self).data_size())
                &&& final(self).position() == old(self).position() + n
                &&& final(buf)@.subrange(0, n as int) == old(self).plaintext().subrange(
                    old(self).position() as int,
                    old(self).position() + n,
                )
                &&& final(buf)@.subrange(n as int, old(buf)@.len() as int) == old(buf)@.subrange(
                    n as int,
                    old(buf)@.len() as int,
                )
            },
            r matches Err(e) ==> {
                &&& e.kind == IoErrorKind::Other
                &&& final(self).position() == old(self).position()
                &&& final(buf)@ == old(buf)@
            },
    {
        let total = self.inner.len();
        assert(self.data_start + self.data_size <= total);
        let left = self.data_size - self.current;
        let limit: usize = if (buf.len() as u64) < left {
            buf.len()
        } else {
            left as usize
        };
        let start = (self.data_start + self.current) as usize;
        let mut chunk = slice_to_vec(slice_subrange(self.inner.as_slice(), start, start + limit));
        let ghost before = *self;
        match self.cipher.try_apply_keystream(chunk.as_mut_slice()) {
            Ok(()) => {},
            Err(_) => {
                return Err(IoError::new(IoErrorKind::Other));
            },
        }
        self.current = self.current + limit as u64;
        copy_into(buf, chunk.as_slice());
        proof {
            let p = before.position() as int;
            crate::bytes::lemma_xor_keystream_subrange(
                before.ciphertext(),
                before.keystream(),
                0,
                p,
                p + limit,
            );
            assert(before.ciphertext().subrange(p, p + limit) =~= before.source().subrange(
                start as int,
                start + limit,
            ));
            assert(chunk@.subrange(0, limit as int) =~= chunk@);
        }
        Ok(limit)
    }

    /// Moves the position to `pos`, which is taken from the start of the
    /// data section, from its end or from the current position. A position
    /// before the start or behind the end of the data section is refused as
    /// invalid input; one behind the end of the keystream fails in the
    /// cipher. A failed seek changes nothing.
    pub fn seek(&mut self, pos: SeekFrom) -> (r: Result<u64, IoError>)
        requires
            old(self).inv(),
        ensures
            final(self).inv(),
            final(self).same_file(old(self)),
            match seek_result(
                seek_target(pos, old(self).position(), old(self).data_size()),
                old(self).data_size(),
                old(self).keystream().len(),
            ) {
                Ok(p) => r == Ok::<u64, IoError>(p) && final(self).position() == p,
                Err(kind) => r is Err && r->Err_0.kind == kind && final(self).position() == old(self).position(),
            },
    {
        let new_pos = match resolve_seek(pos, self.current, self.data_size) {
            Some(p) => p,
            None => {
                return Err(IoError::new(IoErrorKind::InvalidInput));
            },
        };
        match self.cipher.try_seek(new_pos) {
            Ok(()) => {},
            Err(_) => {
                return Err(IoError::new(IoErrorKind::Other));
            },
        }
        self.current = new_pos;
        Ok(new_pos)
    }

    /// The current position in the data section.
    pub fn stream_position(&self) -> (r: Result<u64, IoError>)
        ensures
            r == Ok::<u64, IoError>(self.position()),
    {
        Ok(self.current)
    }
}

impl EnardReader<BoxDynCipher> {
    /// Create a new [`EnardReader`] that will determine the cipher based on the metadata in
    /// the enard file.
    pub fn new_boxed(reader: Vec<u8>, key: &[u8]) -> (r: Result<Self, EnardError>)
        ensures
            opened(
                r,
                parse_container::<BoxDynCipher, BoxDynCipherFactory>(
                    BoxDynCipherFactory,
                    reader@,
                    key@,
                ),
                BoxDynCipherFactory,
                reader@,
                key@,
            ),
    {
        Self::new(reader, BoxDynCipher::factory(), key)
    }
}

/// Number of bytes that a read into a buffer of `buf_len` bytes takes from
/// a data section of `data_size` bytes, at position `pos`.
pub open spec fn read_len(buf_len: nat, pos: u64, data_size: u64) -> nat {
    if buf_len < data_size - pos {
        buf_len
    } else {
        (data_size - pos) as nat
    }
}

/// What a seek to `target` gives in a data section of `data_size` bytes
/// under a keystream of `stream_len` bytes.
pub open spec fn seek_result(target: int, data_size: u64, stream_len: nat) -> Result<
    u64,
    IoErrorKind,
> {
    if target < 0 || target > data_size {
        Err(IoErrorKind::InvalidInput)
    } else if target > stream_len {
        Err(IoErrorKind::Other)
    } else {
        Ok(target as u64)
    }
}

/// The result `r` of opening the file `src` is as `parsed` says: the same
/// error, or a reader at the start of the data section that the header
/// tells of, with the metadata of the header and the cipher that the
/// factory makes for the header's cipher name and iv.
pub open spec fn opened<C: DynCipher, Cf: CipherFactory<C>>(
    r: Result<EnardReader<C>, EnardError>,
    parsed: Result<Opened, EnardErrorView>,
    factory: Cf,
    src: Seq<u8>,
    key: Seq<u8>,
) -> bool {
    match parsed {
        Err(e) => r is Err && r->Err_0@ == e,
        Ok(o) => {
            &&& r is Ok
            &&& r->Ok_0.inv()
            &&& r->Ok_0.source() == src
            &&& r->Ok_0.data_start() == HEADER_START + o.header_size
            &&& r->Ok_0.data_size() == o.data_size
            &&& r->Ok_0.position() == 0
            &&& r->Ok_0.meta_spec() == entries_map(o.entries)
            &&& r->Ok_0.keystream() == factory.keystream_spec(o.name, key, o.iv)
        },
    }
}

/// Reader-builder that parses the enard format and returns a new [`EnardReader`].
pub struct EnardBuilder<C, Cf> {
    reader: Vec<u8>,
    factory: Cf,
    key: Vec<u8>,
    phantom: PhantomData<C>,
}

impl<C: DynCipher, Cf: CipherFactory<C>> EnardBuilder<C, Cf> {
    /// The bytes of the file.
    pub closed spec fn source(&self) -> Seq<u8> {
        self.reader@
    }

    /// The key to open it with.
    pub closed spec fn key_spec(&self) -> Seq<u8> {
        self.key@
    }

    /// The factory of the cipher.
    pub closed spec fn factory_spec(&self) -> Cf {
        self.factory
    }

    pub fn new(reader: Vec<u8>, factory: Cf, key: &[u8]) -> (b: Self)
        ensures
            b.source() == reader@,
            b.key_spec() == key@,
            b.factory_spec() == factory,
    {
        let key = bytes_to_vec(key);
        let phantom = PhantomData;
        Self { reader, factory, key, phantom }
    }

    /// Checks magic bytes and version, then reads the file.
    pub fn build(self) -> (r: Result<EnardReader<C>, EnardError>)
        ensures
            opened(
                r,
                parse_container::<C, Cf>(self.factory_spec(), self.source(), self.key_spec()),
                self.factory_spec(),
                self.source(),
                self.key_spec(),
            ),
    {
        let src = self.reader.as_slice();
        if src.len() < 6 {
            return Err(EnardError::new_io(IoErrorKind::UnexpectedEof));
        }
        let magic_buf = slice_subrange(src, 0, 6);
        let want = magic_bytes();
        if !bytes_eq(magic_buf, want.as_slice()) {
            return Err(EnardError::new_invalid_magic(want.as_slice(), magic_buf));
        }
        if src.len() < 8 {
            return Err(EnardError::new_io(IoErrorKind::UnexpectedEof));
        }
        let version = u16_from_le_bytes(slice_subrange(src, 6, 8));
        if version == VERSION {
            self.read_v1()
        } else {
            Err(EnardError::UnsupportedVersion { version })
        }
    }

    /// Reads a file of version 1, behind its magic bytes and version.
    fn read_v1(self) -> (r: Result<EnardReader<C>, EnardError>)
        requires
            self.source().len() >= 8,
            self.source().subrange(0, 6) == magic(),
            vstd::bytes::spec_u16_from_le_bytes(self.source().subrange(6, 8)) == VERSION,
        ensures
            opened(
                r,
                parse_container::<C, Cf>(self.factory_spec(), self.source(), self.key_spec()),
                self.factory_spec(),
                self.source(),
                self.key_spec(),
            ),
    {
        let src = self.reader.as_slice();
        if src.len() < 20 {
            return Err(EnardError::new_io(IoErrorKind::UnexpectedEof));
        }
        // First is the header size, which includes metadata about the encryption scheme.
        let header_size = u32_from_le_bytes(slice_subrange(src, 8, 12));
        // Next comes the data size: it bounds the data, and tells where the tag is.
        let data_size = u64_from_le_bytes(slice_subrange(src, 12, 20));
        // Calculate the start of the data given
        let data_start: u64 = HEADER_START as u64 + header_size as u64;
        // Verify the MAC
        match Self::verify_mac(src, self.key.as_slice(), header_size, data_size) {
            Ok(()) => {},
            Err(e) => {
                return Err(e);
            },
        }
        // Now go back and read the header: cipher type first
        let cipher_kind = match Self::read_u8_block(src, HEADER_START) {
            Ok(v) => v,
            Err(e) => {
                return Err(EnardError::IO(e));
            },
        };
        assert(parse_u8_block(src@, HEADER_START as int) == Some(cipher_kind@));
        assert(parse_vec(src@, HEADER_START + 1, src@[HEADER_START as int] as int) == Some(
            cipher_kind@,
        ));
        let iv_at = HEADER_START + 1 + cipher_kind.len();
        // Read cipher iv (aka nonce), may be empty
        let cipher_iv = match Self::read_u8_block(src, iv_at) {
            Ok(v) => v,
            Err(e) => {
                return Err(EnardError::IO(e));
            },
        };
        assert(parse_u8_block(src@, iv_at as int) == Some(cipher_iv@));
        assert(parse_vec(src@, iv_at + 1, src@[iv_at as int] as int) == Some(cipher_iv@));
        // Try to create the cipher
        let cipher = match self.factory.create(
            cipher_kind.as_slice(),
            self.key.as_slice(),
            cipher_iv.as_slice(),
        ) {
            Ok(c) => c,
            Err(e) => {
                return Err(e);
            },
        };
        // Now we can read additional metadata
        let meta_at = iv_at + 1 + cipher_iv.len();
        let meta = match Self::read_meta_blocks(src, meta_at, data_start as usize) {
            Ok(m) => m,
            Err(e) => {
                return Err(e);
            },
        };
        // And FINALLY we can construct the actual object
        Ok(EnardReader { inner: self.reader, cipher, data_start, data_size, current: 0, meta })
    }

    /// Checks the tag of the file: it stands behind the `header_size` and
    /// `data_size` bytes that follow the first 20, and covers them.
    fn verify_mac(src: &[u8], key: &[u8], header_size: u32, data_size: u64) -> (r: Result<
        (),
        EnardError,
    >)
        ensures
            match check_mac(src@, key@, header_size, data_size) {
                Ok(()) => r is Ok,
                Err(e) => r is Err && r->Err_0@ == e,
            },
    {
        let fixed: u64 = HEADER_START as u64 + header_size as u64 + TAG_SIZE as u64;
        let len = src.len() as u64;
        if len < fixed || data_size > len - fixed {
            return Err(EnardError::new_io(IoErrorKind::UnexpectedEof));
        }
        let end = (HEADER_START as u64 + header_size as u64 + data_size) as usize;
        let span = slice_subrange(src, HEADER_START, end);
        // The mac tag is right after the data
        let tag_buf = slice_subrange(src, end, end + TAG_SIZE);
        match hmac_sha256_verify(key, span, tag_buf) {
            Ok(()) => Ok(()),
            Err(_) => Err(EnardError::MacError),
        }
    }

    /// Allocates a [`Vec<u8>`] with the given size, reads that many bytes
    /// at offset `at` into it, and returns the vec.
    pub fn read_vec(src: &[u8], at: usize, size: usize) -> (r: Result<Vec<u8>, IoError>)
        ensures
            match parse_vec(src@, at as int, size as int) {
                Some(v) => r is Ok && r->Ok_0@ == v,
                None => r is Err && r->Err_0.kind == IoErrorKind::UnexpectedEof,
            },
    {
        if at > src.len() || size > src.len() - at {
            return Err(IoError::new(IoErrorKind::UnexpectedEof));
        }
        Ok(slice_to_vec(slice_subrange(src, at, at + size)))
    }

    /// Reads the block with a 1-byte length at offset `at`.
    pub fn read_u8_block(src: &[u8], at: usize) -> (r: Result<Vec<u8>, IoError>)
        ensures
            match parse_u8_block(src@, at as int) {
                Some(v) => r is Ok && r->Ok_0@ == v,
                None => r is Err && r->Err_0.kind == IoErrorKind::UnexpectedEof,
            },
    {
        if at >= src.len() {
            return Err(IoError::new(IoErrorKind::UnexpectedEof));
        }
        let size = src[at] as usize;
        Self::read_vec(src, at + 1, size)
    }

    /// Reads the block with a 2-byte length at offset `at`, unless the
    /// length is over `limit`.
    pub fn read_u16_block(src: &[u8], at: usize, limit: usize) -> (r: Result<Vec<u8>, EnardError>)
        ensures
            match parse_u16_block(src@, at as int, limit as int) {
                Ok(v) => r is Ok && r->Ok_0@ == v,
                Err(e) => r is Err && r->Err_0@ == e,
            },
    {
        if src.len() < 2 || at > src.len() - 2 {
            return Err(EnardError::new_io(IoErrorKind::UnexpectedEof));
        }
        let size = u16_from_le_bytes(slice_subrange(src, at, at + 2)) as usize;
        if size > limit {
            return Err(EnardError::new_block_size(size as u64, limit as u64));
        }
        match Self::read_vec(src, at + 2, size) {
            Ok(v) => Ok(v),
            Err(e) => Err(EnardError::IO(e)),
        }
    }

    /// Reads the metadata block at offset `at` of a source whose header
    /// ends at `header_end`. A value may not be longer than what is left of
    /// the header behind its length.
    pub fn read_meta_blocks(src: &[u8], at: usize, header_end: usize) -> (r: Result<
        MetaMap,
        EnardError,
    >)
        ensures
            match parse_meta(src@, at as int, header_end as int) {
                Ok(e) => r is Ok && r->Ok_0@ == entries_map(e) && r->Ok_0.inv(),
                Err(e) => r is Err && r->Err_0@ == e,
            },
    {
        if at >= src.len() {
            return Err(EnardError::new_io(IoErrorKind::UnexpectedEof));
        }
        let count = src[at] as usize;
        let src_len = src.len();
        let mut result = MetaMap::new();
        let mut pos: usize = at + 1;
        let ghost mut acc: Entries = Seq::empty();
        let mut i: usize = 0;
        while i < count
            invariant
                i <= count,
                src_len == src@.len(),
                pos <= src@.len(),
                result.inv(),
                result@ == entries_map(acc),
                parse_meta(src@, at as int, header_end as int) == parse_entries(
                    src@,
                    pos as int,
                    (count - i) as nat,
                    header_end as int,
                    acc,
                ),
            decreases count - i,
        {
            let key = match Self::read_u8_block(src, pos) {
                Ok(k) => k,
                Err(e) => {
                    return Err(EnardError::IO(e));
                },
            };
            assert(pos < src@.len() && pos + 1 + key@.len() <= src@.len()) by {
                assert(parse_u8_block(src@, pos as int) == Some(key@));
                assert(parse_vec(src@, pos + 1, src@[pos as int] as int) == Some(key@));
                assert(key@.len() == src@[pos as int]);
            }
            let p = pos + 1 + key.len();
            let limit = if header_end > p && header_end - p > 2 {
                header_end - p - 2
            } else {
                0
            };
            assert(limit == capacity_left(p + 2, header_end as int));
            let value = match Self::read_u16_block(src, p, limit) {
                Ok(v) => v,
                Err(e) => {
                    return Err(e);
                },
            };
            assert(p + 2 + value@.len() <= src@.len()) by {
                assert(parse_u16_block(src@, p as int, limit as int) == Ok::<
                    Seq<u8>,
                    EnardErrorView,
                >(value@));
                let size = vstd::bytes::spec_u16_from_le_bytes(src@.subrange(p as int, p + 2));
                assert(parse_vec(src@, p + 2, size as int) == Some(value@));
            }
            pos = p + 2 + value.len();
            proof {
                let entry = (key@, value@);
                assert(acc.push(entry).drop_last() =~= acc);
                acc = acc.push(entry);
            }
            result.insert(key, value);
            i += 1;
        }
        Ok(result)
    }
}

} // verus!
