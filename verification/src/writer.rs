//! Writing a container.
use vstd::prelude::*;
use vstd::bytes::{
    spec_u16_to_le_bytes,
    u16_to_le_bytes,
    u32_to_le_bytes,
    u64_to_le_bytes,
};
use vstd::slice::slice_subrange;
use crate::bytes::{
    bytes_to_vec,
    extend_bytes,
    extend_zeros,
    overwrite_bytes,
    xor_keystream,
    zeros,
};
use crate::cipher_factory::CipherFactory;
use crate::dyn_cipher::{DynCipher, DynCipherCore};
use crate::error::{EnardError, EnardErrorView, IoError, IoErrorKind};
use crate::format::{
    lemma_entries_bytes_len,
    lemma_entries_bytes_push,
    lemma_entries_fault_prefix,
    lemma_entries_fault_push,
    magic_bytes,
    HEADER_MAX,
    container_bytes,
    entries_bytes,
    entries_fault,
    entry_fault,
    entry_bytes,
    header_bytes,
    header_fault,
    header_fields,
    magic,
    padding_len,
    prefix_placeholder,
    u16_block,
    u8_block,
    Entries,
    DATA_ALIGNMENT,
    HEADER_START,
    META_MAX,
    U16_BLOCK_MAX,
    U8_BLOCK_MAX,
    VERSION,
};
use crate::mac::{hmac_sha256_tag, TAG_SIZE};
use crate::meta::MetaMap;

verus! {

/// How far a writer has come.
#[derive(Debug, Clone, Copy, PartialEq, Eq, Structural)]
pub enum WriterState {
    /// Nothing has been written.
    Created,
    /// The header stands; no data has been written.
    HeaderWritten,
    /// Data has been written.
    Writing,
    /// The tag and the sizes stand: the container is complete.
    Finished,
}

/// Size of the buffer in which data is encrypted, chunk by chunk.
pub const CRYPT_BUF_SIZE: usize = 256;

/// Appends a new encrypted enard file to a vector of bytes.
///
/// When creating a new file, first call [write_header](EnardWriter::write_header),
/// then [write](EnardWriter::write) any number of times, then
/// [finish](EnardWriter::finish).
pub struct EnardWriter<C: DynCipher> {
    inner: Vec<u8>,
    cipher: C,
    iv: Vec<u8>,
    key: Vec<u8>,
    start_pos: usize,
    meta: MetaMap,
    header_size: u32,
    state: WriterState,
}

/// Appends a block with its length in one byte.
fn write_u8_block(out: &mut Vec<u8>, block: &[u8])
    requires
        block@.len() <= U8_BLOCK_MAX,
    ensures
        final(out)@ == old(out)@ + u8_block(block@),
{
    let ghost before = out@;
    out.push(block.len() as u8);
    extend_bytes(out, block);
    assert(out@ =~= before + u8_block(block@));
}

/// Appends a block with its length in two bytes.
fn write_u16_block(out: &mut Vec<u8>, block: &[u8])
    requires
        block@.len() <= U16_BLOCK_MAX,
    ensures
        final(out)@ == old(out)@ + u16_block(block@),
{
    let ghost before = out@;
    let len = u16_to_le_bytes(block.len() as u16);
    extend_bytes(out, len.as_slice());
    extend_bytes(out, block);
    assert(out@ =~= before + u16_block(block@));
}

/// Appends the metadata block: the number of entries, then each entry.
fn write_meta_blocks(out: &mut Vec<u8>, meta: &MetaMap)
    requires
        meta.entries().len() <= META_MAX,
        entries_fault(meta.entries()) is None,
    ensures
        final(out)@ == old(out)@ + seq![meta.entries().len() as u8] + entries_bytes(
            meta.entries(),
        ),
{
    let ghost before = out@;
    let ghost e = meta.entries();
    // Write meta count
    let count = meta.len();
    out.push(count as u8);
    let mut i: usize = 0;
    while i < count
        invariant
            i <= count,
            count == e.len(),
            e == meta.entries(),
            entries_fault(e) is None,
            entries_fault(e.take(i as int)) is None,
            out@ == before + seq![e.len() as u8] + entries_bytes(e.take(i as int)),
        decreases count - i,
    {
        let ghost prev = out@;
        proof {
            lemma_entries_fault_push(e.take(i as int), e[i as int]);
            assert(e.take(i + 1) =~= e.take(i as int).push(e[i as int]));
            lemma_entries_bytes_push(e.take(i as int), e[i as int]);
            if entries_fault(e.take(i + 1)) is Some {
                lemma_entries_fault_prefix(e, i + 1);
            }
            assert(entry_fault(e[i as int]) is None);
        }
        write_u8_block(out, meta.key_at(i).as_slice());
        write_u16_block(out, meta.value_at(i).as_slice());
        assert(out@ =~= prev + entry_bytes(e[i as int]));
        i += 1;
        assert(out@ =~= before + seq![e.len() as u8] + entries_bytes(e.take(i as int)));
    }
    assert(e.take(count as int) =~= e);
}

/// The sink after `finish`: the tag appended, and the sizes written over
/// bytes 8 to 19 of the container that starts at offset `s`.
proof fn lemma_patched(
    before: Seq<u8>,
    s: int,
    head: Seq<u8>,
    header: Seq<u8>,
    ciphertext: Seq<u8>,
    tag: Seq<u8>,
    hs: Seq<u8>,
    ds: Seq<u8>,
    with_hs: Seq<u8>,
    after: Seq<u8>,
)
    requires
        0 <= s,
        head.len() == 8,
        hs.len() == 4,
        ds.len() == 8,
        before.len() == s + 20 + header.len() + ciphertext.len(),
        before.subrange(s, s + 8) == head,
        before.subrange(s + 20, s + 20 + header.len()) == header,
        before.subrange(s + 20 + header.len(), before.len() as int) == ciphertext,
        with_hs == (before + tag).subrange(0, s + 8) + hs + (before + tag).subrange(
            s + 12,
            (before + tag).len() as int,
        ),
        after == with_hs.subrange(0, s + 12) + ds + with_hs.subrange(
            s + 20,
            with_hs.len() as int,
        ),
    ensures
        after == before.subrange(0, s) + (head + hs + ds + header + ciphertext + tag),
{
    let want = before.subrange(0, s) + (head + hs + ds + header + ciphertext + tag);
    assert(after.len() == want.len());
    assert forall|j: int| 0 <= j < want.len() implies after[j] == want[j] by {
        if j < s {
        } else if j < s + 8 {
            assert(before.subrange(s, s + 8)[j - s] == before[j]);
        } else if j < s + 12 {
        } else if j < s + 20 {
        } else if j < s + 20 + header.len() {
            assert(before.subrange(s + 20, s + 20 + header.len())[j - s - 20] == before[j]);
        } else if j < before.len() {
            assert(before.subrange(s + 20 + header.len(), before.len() as int)[j - s - 20
                - header.len()] == before[j]);
        } else {
        }
    }
    assert(after =~= want);
}

impl<C: DynCipher> EnardWriter<C> {
    /// The bytes written so far, behind what the vector held before.
    pub closed spec fn sink(&self) -> Seq<u8> {
        self.inner@
    }

    /// How far the writer has come.
    pub closed spec fn state(&self) -> WriterState {
        self.state
    }

    /// Offset in the sink at which the container starts.
    pub closed spec fn start(&self) -> nat {
        self.start_pos as nat
    }

    /// The keystream of the cipher.
    pub closed spec fn keystream(&self) -> Seq<u8> {
        self.cipher.keystream()
    }

    /// The position of the cipher in its keystream: the number of data
    /// bytes encrypted so far.
    pub closed spec fn cipher_pos(&self) -> u64 {
        self.cipher.pos()
    }

    /// The name of the cipher, as the header gives it.
    pub closed spec fn name_spec(&self) -> Seq<u8> {
        self.cipher.name_spec()
    }

    /// The key of cipher and tag.
    pub closed spec fn key_spec(&self) -> Seq<u8> {
        self.key@
    }

    /// The iv of the cipher.
    pub closed spec fn iv_spec(&self) -> Seq<u8> {
        self.iv@
    }

    /// The metadata entries.
    pub closed spec fn entries(&self) -> Entries {
        self.meta.entries()
    }

    /// The header that this writer writes.
    pub open spec fn header(&self) -> Seq<u8> {
        header_bytes(self.name_spec(), self.iv_spec(), self.entries())
    }

    /// Offset in the sink at which the data starts, once the header stands.
    pub open spec fn data_start(&self) -> nat {
        self.start() + HEADER_START as nat + self.header().len()
    }

    /// What holds of a writer in each of its states.
    pub closed spec fn inv(&self) -> bool {
        &&& self.cipher.inv()
        &&& self.meta.inv()
        &&& self.state == WriterState::Created ==> self.cipher.pos() == 0
        &&& (self.state == WriterState::HeaderWritten || self.state == WriterState::Writing) ==> {
            &&& self.header_size == self.header().len()
            &&& self.data_start() + self.cipher.pos() == self.inner@.len()
            &&& self.inner@.subrange(self.start_pos as int, self.data_start() as int)
                == prefix_placeholder() + self.header()
        }
        &&& self.state == WriterState::HeaderWritten ==> self.cipher.pos() == 0
    }

    /// Two states of one writer: cipher, key, iv and metadata are the same.
    pub open spec fn same_setup(&self, other: &Self) -> bool {
        &&& self.keystream() == other.keystream()
        &&& self.name_spec() == other.name_spec()
        &&& self.key_spec() == other.key_spec()
        &&& self.iv_spec() == other.iv_spec()
        &&& self.entries() == other.entries()
    }

    /// Once the header stands, the sink holds it behind the placeholder of
    /// the first 20 bytes, and behind it as many data bytes as the cipher
    /// has encrypted.
    pub proof fn lemma_inv(&self)
        requires
            self.inv(),
            self.state() == WriterState::HeaderWritten || self.state() == WriterState::Writing,
        ensures
            self.data_start() + self.cipher_pos() == self.sink().len(),
            self.sink().subrange(self.start() as int, self.data_start() as int)
                == prefix_placeholder() + self.header(),
    {
    }

    /// The cipher stands within its keystream; before any data is written
    /// it stands at the start.
    pub proof fn lemma_cipher_pos(&self)
        requires
            self.inv(),
        ensures
            self.cipher_pos() <= self.keystream().len(),
            self.state() == WriterState::Created || self.state() == WriterState::HeaderWritten
                ==> self.cipher_pos() == 0,
    {
        self.cipher.lemma_inv();
    }

    /// A writer that appends a container to `inner`, encrypted by the
    /// cipher that `factory` makes for `name`, `key` and `iv`.
    pub fn new<Cf: CipherFactory<C>>(
        inner: Vec<u8>,
        factory: Cf,
        name: &[u8],
        key: &[u8],
        iv: &[u8],
        meta: MetaMap,
    ) -> (r: Result<Self, EnardError>)
        requires
            meta.inv(),
        ensures
            !factory.supports(name@) ==> r is Err && r->Err_0@ == (
            EnardErrorView::UnsupportedEncryption { kind: name@ }),
            factory.supports(name@) ==> match r {
                Ok(w) => {
                    &&& key@.len() == factory.meta_spec(name@).key_size
                    &&& iv@.len() == factory.meta_spec(name@).iv_size
                    &&& w.inv()
                    &&& w.state() == WriterState::Created
                    &&& w.cipher_pos() == 0
                    &&& w.sink() == inner@
                    &&& w.keystream() == factory.keystream_spec(name@, key@, iv@)
                    &&& w.name_spec() == factory.meta_spec(name@).name
                    &&& w.key_spec() == key@
                    &&& w.iv_spec() == iv@
                    &&& w.entries() == meta.entries()
                },
                Err(e) => !(key@.len() == factory.meta_spec(name@).key_size && iv@.len()
                    == factory.meta_spec(name@).iv_size) && e@ == EnardErrorView::InvalidLength,
            },
    {
        let cipher = match factory.create(name, key, iv) {
            Ok(c) => c,
            Err(e) => {
                return Err(e);
            },
        };
        Ok(
            Self {
                inner,
                cipher,
                iv: bytes_to_vec(iv),
                key: bytes_to_vec(key),
                start_pos: 0,
                meta,
                header_size: 0,
                state: WriterState::Created,
            },
        )
    }

    /// Extracts the inner bytes
    pub fn into_inner(self) -> (v: Vec<u8>)
        ensures
            v@ == self.sink(),
    {
        self.inner
    }

    /// How far the writer has come.
    pub fn get_state(&self) -> (s: WriterState)
        ensures
            s == self.state(),
    {
        self.state
    }

    /// Refuses a block of more than `limit` bytes.
    fn block_size_check(block: &[u8], limit: usize) -> (r: Result<(), EnardError>)
        ensures
            r is Ok <==> block@.len() <= limit,
            r matches Err(e) ==> e@ == (EnardErrorView::BlockTooLarge {
                size: block@.len() as u64,
                limit: limit as u64,
            }),
    {
        if block.len() > limit {
            Err(EnardError::new_block_size(block.len() as u64, limit as u64))
        } else {
            Ok(())
        }
    }

    /// Holds cipher name, iv and metadata against the bounds of the format.
    fn check_header(&self) -> (r: Result<(), EnardError>)
        requires
            self.inv(),
        ensures
            match header_fault(self.name_spec(), self.iv_spec(), self.entries()) {
                Some((size, limit)) => r is Err && r->Err_0@ == (EnardErrorView::BlockTooLarge {
                    size,
                    limit,
                }),
                None => r is Ok,
            },
    {
        let name = self.cipher.get_name();
        match Self::block_size_check(name, U8_BLOCK_MAX) {
            Ok(()) => {},
            Err(e) => {
                return Err(e);
            },
        }
        match Self::block_size_check(self.iv.as_slice(), U8_BLOCK_MAX) {
            Ok(()) => {},
            Err(e) => {
                return Err(e);
            },
        }
        let count = self.meta.len();
        if count > META_MAX {
            return Err(EnardError::new_block_size(count as u64, META_MAX as u64));
        }
        let ghost e = self.entries();
        let mut i: usize = 0;
        while i < count
            invariant
                i <= count,
                count == e.len(),
                e == self.entries(),
                self.name_spec().len() <= U8_BLOCK_MAX,
                self.iv_spec().len() <= U8_BLOCK_MAX,
                e.len() <= META_MAX,
                entries_fault(e.take(i as int)) is None,
            decreases count - i,
        {
            proof {
                lemma_entries_fault_push(e.take(i as int), e[i as int]);
                assert(e.take(i + 1) =~= e.take(i as int).push(e[i as int]));
                if entries_fault(e.take(i + 1)) is Some {
                    lemma_entries_fault_prefix(e, i + 1);
                }
            }
            match Self::block_size_check(self.meta.key_at(i).as_slice(), U8_BLOCK_MAX) {
                Ok(()) => {},
                Err(err) => {
                    return Err(err);
                },
            }
            match Self::block_size_check(self.meta.value_at(i).as_slice(), U16_BLOCK_MAX) {
                Ok(()) => {},
                Err(err) => {
                    return Err(err);
                },
            }
            i += 1;
        }
        assert(e.take(count as int) =~= e);
        Ok(())
    }

    /// Writes the header of an enard file, returns the number of bytes written.
    /// This should be called immediately after creating a new [`EnardWriter`].
    ///
    /// The first 20 bytes hold magic and version, and zeros in place of the
    /// sizes. Where cipher name, iv or metadata break a bound of the format,
    /// nothing is written.
    pub fn write_header(&mut self) -> (r: Result<usize, EnardError>)
        requires
            old(self).inv(),
            old(self).state() == WriterState::Created,
        ensures
            final(self).inv(),
            final(self).same_setup(old(self)),
            final(self).cipher_pos() == old(self).cipher_pos(),
            match header_fault(old(self).name_spec(), old(self).iv_spec(), old(self).entries()) {
                Some((size, limit)) => {
                    &&& r is Err
                    &&& r->Err_0@ == (EnardErrorView::BlockTooLarge { size, limit })
                    &&& final(self).sink() == old(self).sink()
                    &&& final(self).state() == WriterState::Created
                },
                None => {
                    &&& r == Ok::<usize, EnardError>((HEADER_START + old(self).header().len()) as usize)
                    &&& final(self).sink() == old(self).sink() + prefix_placeholder() + old(self).header()
                    &&& final(self).state() == WriterState::HeaderWritten
                    &&& final(self).start() == old(self).sink().len()
                },
            },
    {
        match self.check_header() {
            Ok(()) => {},
            Err(e) => {
                return Err(e);
            },
        }
        self.write_header_v1();
        Ok(HEADER_START + self.header_size as usize)
    }

    fn write_header_v1(&mut self)
        requires
            old(self).inv(),
            old(self).state() == WriterState::Created,
            header_fault(old(self).name_spec(), old(self).iv_spec(), old(self).entries()) is None,
        ensures
            final(self).inv(),
            final(self).same_setup(old(self)),
            final(self).cipher_pos() == old(self).cipher_pos(),
            final(self).sink() == old(self).sink() + prefix_placeholder() + old(self).header(),
            final(self).state() == WriterState::HeaderWritten,
            final(self).start() == old(self).sink().len(),
            final(self).header_size == old(self).header().len(),
            old(self).header().len() <= HEADER_MAX,
    {
        let ghost before = self.inner@;
        let ghost name_s = self.cipher.name_spec();
        let ghost iv_s = self.iv@;
        let ghost e = self.meta.entries();
        proof {
            lemma_entries_bytes_len(e);
            vstd::bytes::lemma_auto_spec_u16_to_from_le_bytes();
        }
        // Store the start position for when we need to re-write the sizes
        self.start_pos = self.inner.len();
        // Write magic and version
        let m = magic_bytes();
        extend_bytes(&mut self.inner, m.as_slice());
        let v = u16_to_le_bytes(VERSION);
        extend_bytes(&mut self.inner, v.as_slice());
        // Write placeholders for header and data sizes
        extend_zeros(&mut self.inner, 12);
        assert(self.inner@ =~= before + prefix_placeholder());
        let ghost base = self.inner@;
        // Write required blocks
        let name = self.cipher.get_name();
        write_u8_block(&mut self.inner, name);
        write_u8_block(&mut self.inner, self.iv.as_slice());
        // Write meta blocks
        write_meta_blocks(&mut self.inner, &self.meta);
        assert(self.inner@ =~= base + header_fields(name_s, iv_s, e));
        // Pad to 8-byte alignment
        let fields_len = self.inner.len() - self.start_pos - HEADER_START;
        assert(fields_len == header_fields(name_s, iv_s, e).len());
        let data_start = fields_len + HEADER_START;
        let padding = (DATA_ALIGNMENT - (data_start % DATA_ALIGNMENT)) % DATA_ALIGNMENT;
        assert(padding == padding_len(fields_len as int));
        extend_zeros(&mut self.inner, padding);
        assert(self.inner@ =~= base + header_bytes(name_s, iv_s, e));
        let hs = fields_len + padding;
        self.header_size = hs as u32;
        self.state = WriterState::HeaderWritten;
        assert(self.inner@ =~= before + prefix_placeholder() + header_bytes(name_s, iv_s, e));
        assert(self.inner@.subrange(self.start_pos as int, self.inner@.len() as int)
            =~= prefix_placeholder() + header_bytes(name_s, iv_s, e));
    }

    /// Encrypts `buf` and appends it to the sink, chunk by chunk. Returns
    /// the number of bytes taken, which on success is all of them.
    ///
    /// Where the keystream ends within `buf`, the chunks of 256 bytes that
    /// come wholly before its end are written, and an error is returned.
    /// Must not be called before the header is written or after `finish`.
    pub fn write(&mut self, buf: &[u8]) -> (r: Result<usize, IoError>)
        requires
            old(self).inv(),
            old(self).state() == WriterState::HeaderWritten || old(self).state()
                == WriterState::Writing,
        ensures
            final(self).inv(),
            final(self).same_setup(old(self)),
            final(self).start() == old(self).start(),
            final(self).state() == WriterState::Writing,
            r is Ok <==> old(self).cipher_pos() + buf@.len() <= old(self).keystream().len(),
            final(self).sink() == old(self).sink() + xor_keystream(
                buf@.subrange(0, written_len(buf@.len(), old(self).cipher_pos(), old(self).keystream().len()) as int),
                old(self).keystream(),
                old(self).cipher_pos() as int,
            ),
            final(self).cipher_pos() == old(self).cipher_pos() + written_len(
                buf@.len(),
                old(self).cipher_pos(),
                old(self).keystream().len(),
            ),
            r matches Ok(n) ==> n == buf@.len(),
            r matches Err(e) ==> e.kind == IoErrorKind::Other,
    {
        let ghost before = self.inner@;
        let ghost pos0 = self.cipher.pos();
        let ghost ks = self.cipher.keystream();
        let ghost start_state = *self;
        proof {
            self.cipher.lemma_inv();
        }
        self.state = WriterState::Writing;
        let mut crypt_buf: Vec<u8> = Vec::with_capacity(CRYPT_BUF_SIZE);
        let len = buf.len();
        let mut done: usize = 0;
        let ghost mut k: nat = 0;
        // Encrypt each part of the input using the cipher and then write it out
        while done < len
            invariant
                done <= len,
                len == buf@.len(),
                done == CRYPT_BUF_SIZE * k || done == len,
                done < len ==> done == CRYPT_BUF_SIZE * k,
                start_state == *old(self),
                before == start_state.sink(),
                self.inv(),
                self.same_setup(&start_state),
                self.start() == start_state.start(),
                self.state == WriterState::Writing,
                ks == self.cipher.keystream(),
                pos0 == start_state.cipher_pos(),
                ks == start_state.keystream(),
                pos0 + done <= ks.len(),
                self.cipher.pos() == pos0 + done,
                self.inner@ == before + xor_keystream(buf@.subrange(0, done as int), ks, pos0 as int),
            decreases len - done,
        {
            let n = if len - done < CRYPT_BUF_SIZE {
                len - done
            } else {
                CRYPT_BUF_SIZE
            };
            let chunk = slice_subrange(buf, done, done + n);
            crypt_buf.clear();
            extend_bytes(&mut crypt_buf, chunk);
            let ghost inner_prev = self.inner@;
            match self.cipher.try_apply_keystream(crypt_buf.as_mut_slice()) {
                Ok(()) => {},
                Err(_) => {
                    proof {
                        let avail = (ks.len() - pos0) as nat;
                        assert(done <= avail < done + n);
                        assert(avail / (CRYPT_BUF_SIZE as nat) == k);
                        assert(written_len(len as nat, pos0, ks.len()) == done);
                    }
                    return Err(IoError::new(IoErrorKind::Other));
                },
            }
            extend_bytes(&mut self.inner, crypt_buf.as_slice());
            proof {
                assert(self.inner@.subrange(self.start_pos as int, self.data_start() as int)
                    =~= inner_prev.subrange(self.start_pos as int, self.data_start() as int));
                crate::bytes::lemma_xor_keystream_concat(
                    buf@.subrange(0, done as int),
                    chunk@,
                    ks,
                    pos0 as int,
                );
                assert(buf@.subrange(0, done as int) + chunk@ =~= buf@.subrange(0, done + n));
                if done + n < len {
                    k = k + 1;
                }
            }
            done = done + n;
        }
        proof {
            assert(buf@.subrange(0, len as int) =~= buf@);
            assert(written_len(len as nat, pos0, ks.len()) == len);
        }
        Ok(len)
    }

    /// Finalize writing the file: appends the tag of header and data, and
    /// sets header size and data size in the first 20 bytes of the
    /// container. Returns the length of the tag.
    ///
    /// After calling this method, [`EnardWriter::write`] must not be called.
    /// [`EnardWriter::into_inner`] will still work though.
    pub fn finish(&mut self) -> (r: Result<usize, IoError>)
        requires
            old(self).inv(),
            old(self).state() == WriterState::HeaderWritten || old(self).state()
                == WriterState::Writing,
        ensures
            final(self).inv(),
            final(self).same_setup(old(self)),
            final(self).state() == WriterState::Finished,
            r == Ok::<usize, IoError>(TAG_SIZE),
            final(self).sink().len() == old(self).sink().len() + TAG_SIZE,
            final(self).sink() == old(self).sink().subrange(0, old(self).start() as int)
                + container_bytes(
                old(self).key_spec(),
                old(self).header(),
                old(self).sink().subrange(
                    old(self).data_start() as int,
                    old(self).sink().len() as int,
                ),
            ),
    {
        self.finish_v1()
    }

    fn finish_v1(&mut self) -> (r: Result<usize, IoError>)
        requires
            old(self).inv(),
            old(self).state() == WriterState::HeaderWritten || old(self).state()
                == WriterState::Writing,
        ensures
            final(self).inv(),
            final(self).same_setup(old(self)),
            final(self).state() == WriterState::Finished,
            r == Ok::<usize, IoError>(TAG_SIZE),
            final(self).sink().len() == old(self).sink().len() + TAG_SIZE,
            final(self).sink() == old(self).sink().subrange(0, old(self).start() as int)
                + container_bytes(
                old(self).key_spec(),
                old(self).header(),
                old(self).sink().subrange(
                    old(self).data_start() as int,
                    old(self).sink().len() as int,
                ),
            ),
    {
        let ghost before = self.inner@;
        let ghost header = self.header();
        proof {
            self.cipher.lemma_inv();
            vstd::bytes::lemma_auto_spec_u16_to_from_le_bytes();
            vstd::bytes::lemma_auto_spec_u32_to_from_le_bytes();
            vstd::bytes::lemma_auto_spec_u64_to_from_le_bytes();
        }
        let total = self.inner.len();
        let data_start = self.start_pos + HEADER_START + self.header_size as usize;
        let data_len = (total - data_start) as u64;
        let ghost ciphertext = before.subrange(data_start as int, total as int);
        // Write the MAC tag
        let tag = match hmac_sha256_tag(
            self.key.as_slice(),
            slice_subrange(self.inner.as_slice(), self.start_pos + HEADER_START, total),
        ) {
            Ok(t) => t,
            Err(_) => vstd::pervasive::unreached(),
        };
        assert(before.subrange(self.start_pos + HEADER_START, total as int) =~= header
            + ciphertext) by {
            assert(before.subrange(self.start_pos as int, data_start as int)
                == prefix_placeholder() + header);
            assert(header =~= before.subrange(self.start_pos as int, data_start as int).subrange(
                HEADER_START as int,
                HEADER_START + header.len(),
            ));
        }
        extend_bytes(&mut self.inner, tag.as_slice());
        let ghost with_tag = self.inner@;
        // Set header and data sizes in the first 20 bytes
        let hs = u32_to_le_bytes(self.header_size);
        let ds = u64_to_le_bytes(data_len);
        overwrite_bytes(&mut self.inner, self.start_pos + 8, hs.as_slice());
        let ghost with_hs = self.inner@;
        overwrite_bytes(&mut self.inner, self.start_pos + 12, ds.as_slice());
        self.state = WriterState::Finished;
        proof {
            let s = self.start_pos as int;
            let placed = before.subrange(s, data_start as int);
            let head = magic() + spec_u16_to_le_bytes(VERSION);
            assert(placed == prefix_placeholder() + header);
            assert(before.subrange(s, s + 8) =~= head) by {
                assert(before.subrange(s, s + 8) =~= placed.subrange(0, 8));
                assert(placed.subrange(0, 8) =~= head);
            }
            assert(before.subrange(s + 20, data_start as int) =~= header) by {
                assert(before.subrange(s + 20, data_start as int) =~= placed.subrange(
                    20,
                    placed.len() as int,
                ));
            }
            lemma_patched(before, s, head, header, ciphertext, tag@, hs@, ds@, with_hs, self.inner@);
        }
        Ok(TAG_SIZE)
    }

    /// Writes the header, the contents of `src`, and then calls `finish()`,
    /// returning the total number of bytes written.
    ///
    /// Where cipher name, iv or metadata break a bound of the format,
    /// nothing is written. Where the keystream is shorter than `src`, the
    /// header and the data up to the last whole chunk of 256 bytes are
    /// written, without tag and sizes.
    pub fn write_complete(&mut self, src: &[u8]) -> (r: Result<u64, EnardError>)
        requires
            old(self).inv(),
            old(self).state() == WriterState::Created,
        ensures
            final(self).inv(),
            final(self).same_setup(old(self)),
            match header_fault(old(self).name_spec(), old(self).iv_spec(), old(self).entries()) {
                Some((size, limit)) => {
                    &&& r is Err
                    &&& r->Err_0@ == (EnardErrorView::BlockTooLarge { size, limit })
                    &&& final(self).sink() == old(self).sink()
                    &&& final(self).state() == WriterState::Created
                },
                None => if src@.len() <= old(self).keystream().len() {
                    &&& r is Ok
                    &&& r->Ok_0 == final(self).sink().len() - old(self).sink().len()
                    &&& r->Ok_0 == HEADER_START + old(self).header().len() + src@.len() + TAG_SIZE
                    &&& final(self).state() == WriterState::Finished
                    &&& final(self).sink() == old(self).sink() + container_bytes(
                        old(self).key_spec(),
                        old(self).header(),
                        xor_keystream(src@, old(self).keystream(), 0),
                    )
                } else {
                    &&& r is Err
                    &&& r->Err_0@ == EnardErrorView::IO(IoErrorKind::Other)
                    &&& final(self).state() == WriterState::Writing
                    &&& final(self).sink() == old(self).sink() + prefix_placeholder() + old(self).header() + xor_keystream(
                        src@.subrange(0, written_len(src@.len(), 0, old(self).keystream().len()) as int),
                        old(self).keystream(),
                        0,
                    )
                },
            },
    {
        let ghost before = self.inner@;
        let ghost header = self.header();
        let base = self.inner.len();
        match self.write_header() {
            Ok(_) => {},
            Err(e) => {
                return Err(e);
            },
        }
        let ghost with_header = self.inner@;
        match self.write(src) {
            Ok(_) => {},
            Err(e) => {
                return Err(EnardError::IO(e));
            },
        }
        let ghost with_data = self.inner@;
        match self.finish() {
            Ok(_) => {},
            Err(e) => {
                return Err(EnardError::IO(e));
            },
        }
        proof {
            let ct = xor_keystream(src@, self.keystream(), 0);
            assert(src@.subrange(0, src@.len() as int) =~= src@);
            assert(with_data =~= before + prefix_placeholder() + header + ct);
            assert(with_data.subrange(0, before.len() as int) =~= before);
            assert(with_data.subrange(
                (before.len() + HEADER_START + header.len()) as int,
                with_data.len() as int,
            ) =~= ct);
        }
        Ok((self.inner.len() - base) as u64)
    }
}

/// Number of bytes of a buffer of `len` bytes that a write encrypts and
/// appends, with the cipher at `pos` in a keystream of `stream_len` bytes:
/// all of them where the keystream reaches, else the chunks of 256 bytes
/// that come wholly before its end.
pub open spec fn written_len(len: nat, pos: u64, stream_len: nat) -> nat {
    if pos + len <= stream_len {
        len
    } else {
        (((stream_len - pos) / (CRYPT_BUF_SIZE as int)) * CRYPT_BUF_SIZE) as nat
    }
}

} // verus!
