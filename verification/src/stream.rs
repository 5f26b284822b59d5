//! Streams in memory, and wrappers that limit or encrypt them.
use vstd::prelude::*;
use vstd::slice::slice_subrange;
use vstd::slice::slice_to_vec;
use crate::bytes::{
    copy_into,
    extend_bytes,
    extend_zeros,
    lemma_xor_keystream_concat,
    overwrite_bytes,
    xor_keystream,
    zeros,
};
use crate::dyn_cipher::{DynCipher, DynCipherCore};
use crate::error::{EnardError, IoError, IoErrorKind};
use crate::writer::CRYPT_BUF_SIZE;

verus! {

/// Where to seek to: an offset from the start, from the end, or from the
/// current position.
#[derive(Debug, Clone, Copy, PartialEq, Eq, Structural)]
pub enum SeekFrom {
    /// So many bytes from the start.
    Start(u64),
    /// So many bytes from the end; negative is before the end.
    End(i64),
    /// So many bytes from the current position.
    Current(i64),
}

/// The position that a seek asks for, in a stream of `size` bytes that
/// stands at `current`.
pub open spec fn seek_target(pos: SeekFrom, current: u64, size: u64) -> int {
    match pos {
        SeekFrom::Start(p) => p as int,
        SeekFrom::End(rel) => size + rel,
        SeekFrom::Current(rel) => current + rel,
    }
}

/// Resolves a seek in a stream of `size` bytes that stands at `current`:
/// the new position, or nothing where it would lie before the start or
/// behind the end.
pub fn resolve_seek(pos: SeekFrom, current: u64, size: u64) -> (r: Option<u64>)
    ensures
        r is Some <==> 0 <= seek_target(pos, current, size) <= size,
        r matches Some(p) ==> p == seek_target(pos, current, size),
{
    let target: i128 = match pos {
        SeekFrom::Start(p) => p as i128,
        SeekFrom::End(rel) => size as i128 + rel as i128,
        SeekFrom::Current(rel) => current as i128 + rel as i128,
    };
    if target < 0 || target > size as i128 {
        None
    } else {
        Some(target as u64)
    }
}

/// The position that a seek asks for in a stream that has no end to stay
/// within: any position from 0 to the largest that 64 bits hold.
pub fn resolve_seek_unbounded(pos: SeekFrom, current: u64, size: u64) -> (r: Option<u64>)
    ensures
        r is Some <==> 0 <= seek_target(pos, current, size) <= u64::MAX,
        r matches Some(p) ==> p == seek_target(pos, current, size),
{
    let target: i128 = match pos {
        SeekFrom::Start(p) => p as i128,
        SeekFrom::End(rel) => size as i128 + rel as i128,
        SeekFrom::Current(rel) => current as i128 + rel as i128,
    };
    if target < 0 || target > u64::MAX as i128 {
        None
    } else {
        Some(target as u64)
    }
}

/// Bytes in memory with a position: a stream to read from, to write to and
/// to seek in.
#[derive(Debug)]
pub struct MemStream {
    data: Vec<u8>,
    pos: u64,
}

/// What a write of `bytes` at `pos` makes of the bytes `data`: a gap
/// between the end and the position is filled with zeros, bytes from the
/// position on are replaced, and the stream grows where they do not reach.
pub open spec fn written_at(data: Seq<u8>, pos: int, bytes: Seq<u8>) -> Seq<u8> {
    let padded = if pos > data.len() {
        data + zeros((pos - data.len()) as nat)
    } else {
        data
    };
    if pos + bytes.len() >= padded.len() {
        padded.subrange(0, pos) + bytes
    } else {
        padded.subrange(0, pos) + bytes + padded.subrange(pos + bytes.len(), padded.len() as int)
    }
}

/// Number of bytes that a read into a buffer of `buf_len` bytes takes from
/// a stream of `size` bytes at position `pos`.
pub open spec fn available(buf_len: nat, pos: u64, size: nat) -> nat {
    if pos >= size {
        0
    } else if buf_len < size - pos {
        buf_len
    } else {
        (size - pos) as nat
    }
}

/// What a stream holds from a position on: nothing, where the position
/// lies at or behind the end.
pub open spec fn rest_of(bytes: Seq<u8>, pos: u64) -> Seq<u8> {
    if pos >= bytes.len() {
        Seq::empty()
    } else {
        bytes.subrange(pos as int, bytes.len() as int)
    }
}

impl MemStream {
    /// The bytes of the stream.
    pub closed spec fn bytes(&self) -> Seq<u8> {
        self.data@
    }

    /// The position in the stream; it may lie behind the end.
    pub closed spec fn pos(&self) -> u64 {
        self.pos
    }

    /// A stream over `data`, at position 0.
    pub fn new(data: Vec<u8>) -> (s: MemStream)
        ensures
            s.bytes() == data@,
            s.pos() == 0,
    {
        MemStream { data, pos: 0 }
    }

    /// The bytes of the stream.
    pub fn into_inner(self) -> (v: Vec<u8>)
        ensures
            v@ == self.bytes(),
    {
        self.data
    }

    /// The bytes of the stream.
    pub fn get_ref(&self) -> (v: &Vec<u8>)
        ensures
            v@ == self.bytes(),
    {
        &self.data
    }

    /// The position in the stream.
    pub fn stream_position(&self) -> (p: u64)
        ensures
            p == self.pos(),
    {
        self.pos
    }

    /// Moves the position. It may be set behind the end, not before the
    /// start.
    pub fn seek(&mut self, pos: SeekFrom) -> (r: Result<u64, IoError>)
        ensures
            final(self).bytes() == old(self).bytes(),
            r is Ok <==> 0 <= seek_target(pos, old(self).pos(), old(self).bytes().len() as u64)
                <= u64::MAX,
            r matches Ok(p) ==> p == seek_target(
                pos,
                old(self).pos(),
                old(self).bytes().len() as u64,
            ) && final(self).pos() == p,
            r matches Err(e) ==> e.kind == IoErrorKind::InvalidInput && final(self).pos() == old(self).pos(),
    {
        match resolve_seek_unbounded(pos, self.pos, self.data.len() as u64) {
            Some(p) => {
                self.pos = p;
                Ok(p)
            },
            None => Err(IoError::new(IoErrorKind::InvalidInput)),
        }
    }

    /// Reads from the position into the front of `buf`, as far as `buf`
    /// and the stream go, and moves the position behind what was read.
    pub fn read(&mut self, buf: &mut [u8]) -> (n: usize)
        ensures
            final(self).bytes() == old(self).bytes(),
            n == available(old(buf)@.len(), old(self).pos(), old(self).bytes().len()),
            final(self).pos() == old(self).pos() + n,
            final(buf)@.len() == old(buf)@.len(),
            n > 0 ==> final(buf)@.subrange(0, n as int) == old(self).bytes().subrange(
                old(self).pos() as int,
                old(self).pos() + n,
            ),
            final(buf)@.subrange(n as int, old(buf)@.len() as int) == old(buf)@.subrange(
                n as int,
                old(buf)@.len() as int,
            ),
    {
        let size = self.data.len();
        if self.pos >= size as u64 {
            return 0;
        }
        let at = self.pos as usize;
        let n = if buf.len() < size - at {
            buf.len()
        } else {
            size - at
        };
        copy_into(buf, slice_subrange(self.data.as_slice(), at, at + n));
        self.pos = self.pos + n as u64;
        n
    }

    /// What is left of the stream from the position on, without moving the
    /// position.
    pub fn fill_buf(&self) -> (b: &[u8])
        ensures
            b@ == rest_of(self.bytes(), self.pos()),
    {
        let size = self.data.len();
        if self.pos >= size as u64 {
            let b = slice_subrange(self.data.as_slice(), size, size);
            assert(b@ =~= Seq::<u8>::empty());
            b
        } else {
            slice_subrange(self.data.as_slice(), self.pos as usize, size)
        }
    }

    /// Moves the position on by `amt` bytes, which were taken with
    /// `fill_buf`.
    pub fn consume(&mut self, amt: usize)
        requires
            old(self).pos() + amt <= u64::MAX,
        ensures
            final(self).bytes() == old(self).bytes(),
            final(self).pos() == old(self).pos() + amt,
    {
        self.pos = self.pos + amt as u64;
    }

    /// Writes `buf` at the position and moves the position behind it. Fails,
    /// with nothing changed, where the stream would grow over what memory
    /// can address.
    pub fn write(&mut self, buf: &[u8]) -> (r: Result<usize, IoError>)
        ensures
            r is Ok <==> old(self).pos() + buf@.len() <= usize::MAX,
            r matches Ok(n) ==> n == buf@.len() && final(self).pos() == old(self).pos() + n
                && final(self).bytes() == written_at(
                old(self).bytes(),
                old(self).pos() as int,
                buf@,
            ),
            r matches Err(e) ==> e.kind == IoErrorKind::InvalidInput && final(self).pos() == old(self).pos() && final(self).bytes() == old(self).bytes(),
    {
        let size = self.data.len();
        if self.pos > usize::MAX as u64 || buf.len() > usize::MAX - self.pos as usize {
            return Err(IoError::new(IoErrorKind::InvalidInput));
        }
        let at = self.pos as usize;
        let ghost before = self.data@;
        if at > size {
            extend_zeros(&mut self.data, at - size);
        }
        let ghost padded = self.data@;
        let size = self.data.len();
        if buf.len() >= size - at {
            self.data.truncate(at);
            assert(self.data@ =~= padded.subrange(0, at as int));
            extend_bytes(&mut self.data, buf);
        } else {
            overwrite_bytes(&mut self.data, at, buf);
        }
        self.pos = self.pos + buf.len() as u64;
        Ok(buf.len())
    }
}

/// Wraps a stream and limits it to the section of `size` bytes that starts
/// at `start`.
#[derive(Debug)]
pub struct SubSeek {
    inner: MemStream,
    /// Start of the subset (bytes)
    start: u64,
    /// Size of the subset (bytes)
    size: u64,
    /// Current position
    current: u64,
}

impl SubSeek {
    /// The stream that is wrapped.
    pub closed spec fn inner_spec(&self) -> MemStream {
        self.inner
    }

    /// Start of the section in the stream.
    pub closed spec fn start(&self) -> u64 {
        self.start
    }

    /// Size of the section.
    pub closed spec fn size(&self) -> u64 {
        self.size
    }

    /// Position in the section.
    pub closed spec fn current(&self) -> u64 {
        self.current
    }

    /// The position lies within the section, and the section ends where a
    /// position can still say so.
    pub closed spec fn inv(&self) -> bool {
        &&& self.current <= self.size
        &&& self.start + self.size <= u64::MAX
    }

    /// Limits `inner` to a section. The stream must stand within the
    /// section, whose position is then counted from its start.
    pub fn new(inner: MemStream, start: u64, size: u64) -> (r: Result<Self, IoError>)
        requires
            start + size <= u64::MAX,
            start <= inner.pos() <= start + size,
        ensures
            r is Ok,
            r->Ok_0.inv(),
            r->Ok_0.inner_spec() == inner,
            r->Ok_0.start() == start,
            r->Ok_0.size() == size,
            r->Ok_0.current() == inner.pos() - start,
    {
        let current = inner.stream_position() - start;
        Ok(Self { inner, start, size, current })
    }

    /// Get the inner stream
    pub fn into_inner(self) -> (s: MemStream)
        ensures
            s == self.inner_spec(),
    {
        self.inner
    }

    /// Returns the number of bytes that may be read before this will return EOF.
    /// In case the limit is larger than a [usize], it will return `usize::MAX`.
    pub fn limit(&self) -> (n: usize)
        requires
            self.inv(),
        ensures
            n == if self.size() - self.current() <= usize::MAX {
                self.size() - self.current()
            } else {
                usize::MAX as int
            },
    {
        let left = self.size - self.current;
        if left <= usize::MAX as u64 {
            left as usize
        } else {
            usize::MAX
        }
    }

    /// Moves the position within the section, and the stream with it. A
    /// position before the start or behind the end of the section is refused
    /// as invalid input, with nothing changed.
    pub fn seek(&mut self, pos: SeekFrom) -> (r: Result<u64, IoError>)
        requires
            old(self).inv(),
        ensures
            final(self).inv(),
            final(self).start() == old(self).start(),
            final(self).size() == old(self).size(),
            final(self).inner_spec().bytes() == old(self).inner_spec().bytes(),
            r is Ok <==> 0 <= seek_target(pos, old(self).current(), old(self).size()) <= old(self).size(),
            r matches Ok(p) ==> p == seek_target(pos, old(self).current(), old(self).size())
                && final(self).current() == p && final(self).inner_spec().pos() == old(self).start() + p,
            r matches Err(e) ==> e.kind == IoErrorKind::InvalidInput && final(self).current()
                == old(self).current() && final(self).inner_spec() == old(self).inner_spec(),
    {
        let new_pos = match resolve_seek(pos, self.current, self.size) {
            Some(p) => p,
            None => {
                return Err(IoError::new(IoErrorKind::InvalidInput));
            },
        };
        self.current = new_pos;
        match self.inner.seek(SeekFrom::Start(self.start + self.current)) {
            Ok(_) => Ok(self.current),
            Err(e) => Err(e),
        }
    }

    /// The position in the section.
    pub fn stream_position(&self) -> (r: Result<u64, IoError>)
        ensures
            r == Ok::<u64, IoError>(self.current()),
    {
        Ok(self.current)
    }

    /// Reads from the stream into the front of `buf`, no more than the
    /// section has left behind its position; at the end of the section, or
    /// into an empty buffer, it fails with `UnexpectedEof`. The position in
    /// the section stays where it is.
    pub fn read(&mut self, buf: &mut [u8]) -> (r: Result<usize, IoError>)
        requires
            old(self).inv(),
        ensures
            final(self).inv(),
            final(self).start() == old(self).start(),
            final(self).size() == old(self).size(),
            final(self).current() == old(self).current(),
            final(self).inner_spec().bytes() == old(self).inner_spec().bytes(),
            final(buf)@.len() == old(buf)@.len(),
            r is Ok <==> old(self).current() < old(self).size() && old(buf)@.len() > 0,
            r matches Ok(n) ==> {
                &&& n == available(
                    sub_len(old(buf)@.len(), old(self).current(), old(self).size()),
                    old(self).inner_spec().pos(),
                    old(self).inner_spec().bytes().len(),
                )
                &&& final(self).inner_spec().pos() == old(self).inner_spec().pos() + n
                &&& n > 0 ==> final(buf)@.subrange(0, n as int) == old(self).inner_spec().bytes().subrange(
                    old(self).inner_spec().pos() as int,
                    old(self).inner_spec().pos() + n,
                )
                &&& final(buf)@.subrange(n as int, old(buf)@.len() as int) == old(buf)@.subrange(
                    n as int,
                    old(buf)@.len() as int,
                )
            },
            r matches Err(e) ==> e.kind == IoErrorKind::UnexpectedEof && final(buf)@ == old(buf)@
                && final(self).inner_spec() == old(self).inner_spec(),
    {
        // Make sure we properly limit the conversion in case usize < u64
        let limit = self.limit();
        let max = if limit < buf.len() {
            limit
        } else {
            buf.len()
        };
        if max == 0 {
            return Err(IoError::new(IoErrorKind::UnexpectedEof));
        }
        let ghost whole = buf@;
        let mut part: Vec<u8> = Vec::new();
        extend_zeros(&mut part, max);
        let n = self.inner.read(part.as_mut_slice());
        copy_into(buf, slice_subrange(part.as_slice(), 0, n));
        Ok(n)
    }

    /// What is left of the stream from its position on, no more than the
    /// section has left behind its own position.
    pub fn fill_buf(&self) -> (b: &[u8])
        requires
            self.inv(),
        ensures
            b@ == rest_of(self.inner_spec().bytes(), self.inner_spec().pos()).take(
                sub_len(
                    rest_of(self.inner_spec().bytes(), self.inner_spec().pos()).len(),
                    self.current(),
                    self.size(),
                ) as int,
            ),
    {
        let limit = self.limit();
        let buf = self.inner.fill_buf();
        let max = if limit < buf.len() {
            limit
        } else {
            buf.len()
        };
        let b = slice_subrange(buf, 0, max);
        assert(b@ =~= buf@.take(max as int));
        b
    }

    /// Moves the stream on by `amt` bytes, no more than the section has left
    /// behind its own position, which stays.
    pub fn consume(&mut self, amt: usize)
        requires
            old(self).inv(),
            old(self).inner_spec().pos() + sub_len(
                amt as nat,
                old(self).current(),
                old(self).size(),
            ) <= u64::MAX,
        ensures
            final(self).inv(),
            final(self).start() == old(self).start(),
            final(self).size() == old(self).size(),
            final(self).current() == old(self).current(),
            final(self).inner_spec().bytes() == old(self).inner_spec().bytes(),
            final(self).inner_spec().pos() == old(self).inner_spec().pos() + sub_len(
                amt as nat,
                old(self).current(),
                old(self).size(),
            ),
    {
        let limit = self.limit();
        let n = if limit < amt {
            limit
        } else {
            amt
        };
        self.inner.consume(n)
    }

    /// Writes to the stream; the section does not limit it.
    pub fn write(&mut self, buf: &[u8]) -> (r: Result<usize, IoError>)
        requires
            old(self).inv(),
        ensures
            final(self).inv(),
            final(self).start() == old(self).start(),
            final(self).size() == old(self).size(),
            final(self).current() == old(self).current(),
            r is Ok <==> old(self).inner_spec().pos() + buf@.len() <= usize::MAX,
            r matches Ok(n) ==> n == buf@.len() && final(self).inner_spec().pos() == old(self).inner_spec().pos() + n && final(self).inner_spec().bytes() == written_at(
                old(self).inner_spec().bytes(),
                old(self).inner_spec().pos() as int,
                buf@,
            ),
            r matches Err(e) ==> final(self).inner_spec().pos() == old(self).inner_spec().pos()
                && final(self).inner_spec().bytes() == old(self).inner_spec().bytes(),
    {
        self.inner.write(buf)
    }
}

/// Number of bytes that a read through a section asks its stream for: what
/// the buffer takes, and no more than the section has left.
pub open spec fn sub_len(buf_len: nat, current: u64, size: u64) -> nat {
    let left = if size - current <= usize::MAX {
        (size - current) as nat
    } else {
        usize::MAX as nat
    };
    if left < buf_len {
        left
    } else {
        buf_len
    }
}

/// Writing two pieces one behind the other is writing them as one.
pub proof fn lemma_written_at_concat(data: Seq<u8>, pos: int, a: Seq<u8>, b: Seq<u8>)
    requires
        0 <= pos,
    ensures
        written_at(written_at(data, pos, a), pos + a.len(), b) == written_at(data, pos, a + b),
{
    assert(written_at(written_at(data, pos, a), pos + a.len(), b) =~= written_at(
        data,
        pos,
        a + b,
    ));
}

/// Wraps a stream and decrypts its contents on the fly, as they are read.
#[derive(Debug)]
pub struct CipherRead<C: DynCipher> {
    /// Wrapped reader
    inner: MemStream,
    /// Cipher used for decryption
    cipher: C,
}

impl<C: DynCipher> CipherRead<C> {
    /// The stream that is wrapped.
    pub closed spec fn inner_spec(&self) -> MemStream {
        self.inner
    }

    /// The cipher.
    pub closed spec fn cipher_spec(&self) -> C {
        self.cipher
    }

    /// The cipher is a valid one.
    pub open spec fn inv(&self) -> bool {
        self.cipher_spec().inv()
    }

    /// Construct a new [`CipherRead`] which decrypts content from
    /// `reader` as data is read. Both the stream and the cipher are set to
    /// their start.
    pub fn new(reader: MemStream, cipher: C) -> (r: Result<Self, EnardError>)
        requires
            cipher.inv(),
        ensures
            r is Ok,
            r->Ok_0.inv(),
            r->Ok_0.inner_spec().bytes() == reader.bytes(),
            r->Ok_0.inner_spec().pos() == 0,
            r->Ok_0.cipher_spec().pos() == 0,
            r->Ok_0.cipher_spec().keystream() == cipher.keystream(),
            r->Ok_0.cipher_spec().name_spec() == cipher.name_spec(),
    {
        let mut reader = reader;
        let mut cipher = cipher;
        match reader.seek(SeekFrom::Start(0)) {
            Ok(_) => {},
            Err(e) => {
                return Err(EnardError::IO(e));
            },
        }
        match cipher.try_seek(0) {
            Ok(()) => {},
            Err(_) => {
                return Err(EnardError::new_io(IoErrorKind::Other));
            },
        }
        Ok(Self { inner: reader, cipher })
    }

    /// Extract the wrapped reader and cipher from this object
    pub fn into_inner(self) -> (r: (MemStream, C))
        ensures
            r.0 == self.inner_spec(),
            r.1 == self.cipher_spec(),
    {
        (self.inner, self.cipher)
    }

    /// Reads from the stream into the front of `buf` and decrypts what was
    /// read with the keystream at the cipher's position. Where the
    /// keystream ends before the data does, the data stands in `buf` as it
    /// was read, and an error is returned.
    pub fn read(&mut self, buf: &mut [u8]) -> (r: Result<usize, IoError>)
        requires
            old(self).inv(),
        ensures
            final(self).inv(),
            final(self).inner_spec().bytes() == old(self).inner_spec().bytes(),
            final(self).cipher_spec().keystream() == old(self).cipher_spec().keystream(),
            final(self).cipher_spec().name_spec() == old(self).cipher_spec().name_spec(),
            final(buf)@.len() == old(buf)@.len(),
            ({
                let n = available(
                    old(buf)@.len(),
                    old(self).inner_spec().pos(),
                    old(self).inner_spec().bytes().len(),
                );
                let read = old(self).inner_spec().bytes().subrange(
                    old(self).inner_spec().pos() as int,
                    old(self).inner_spec().pos() + n,
                );
                &&& final(self).inner_spec().pos() == old(self).inner_spec().pos() + n
                &&& final(buf)@.subrange(n as int, old(buf)@.len() as int) == old(buf)@.subrange(
                    n as int,
                    old(buf)@.len() as int,
                )
                &&& r is Ok <==> old(self).cipher_spec().pos() + n <= old(self).cipher_spec().keystream().len()
                &&& r matches Ok(k) ==> k == n && final(self).cipher_spec().pos() == old(self).cipher_spec().pos() + n && (n > 0 ==> final(buf)@.subrange(0, n as int)
                    == xor_keystream(
                    read,
                    old(self).cipher_spec().keystream(),
                    old(self).cipher_spec().pos() as int,
                ))
                &&& r matches Err(e) ==> e.kind == IoErrorKind::Other && final(self).cipher_spec().pos()
                    == old(self).cipher_spec().pos() && (n > 0 ==> final(buf)@.subrange(0, n as int)
                    == read)
            }),
    {
        // Read the data into the destination buffer
        let n = self.inner.read(buf);
        // decrypt buffer data
        let mut part = slice_to_vec(slice_subrange(buf, 0, n));
        match self.cipher.try_apply_keystream(part.as_mut_slice()) {
            Ok(()) => {},
            Err(_) => {
                return Err(IoError::new(IoErrorKind::Other));
            },
        }
        copy_into(buf, part.as_slice());
        Ok(n)
    }

    /// Moves the position of the stream, and the cipher to the same
    /// position in its keystream. Where the cipher cannot follow, the stream
    /// has moved and the cipher has not.
    pub fn seek(&mut self, pos: SeekFrom) -> (r: Result<u64, IoError>)
        requires
            old(self).inv(),
        ensures
            final(self).inv(),
            final(self).inner_spec().bytes() == old(self).inner_spec().bytes(),
            final(self).cipher_spec().keystream() == old(self).cipher_spec().keystream(),
            final(self).cipher_spec().name_spec() == old(self).cipher_spec().name_spec(),
            ({
                let target = seek_target(
                    pos,
                    old(self).inner_spec().pos(),
                    old(self).inner_spec().bytes().len() as u64,
                );
                if !(0 <= target <= u64::MAX) {
                    &&& r is Err
                    &&& r->Err_0.kind == IoErrorKind::InvalidInput
                    &&& final(self).inner_spec().pos() == old(self).inner_spec().pos()
                    &&& final(self).cipher_spec().pos() == old(self).cipher_spec().pos()
                } else if target > old(self).cipher_spec().keystream().len() {
                    &&& r is Err
                    &&& r->Err_0.kind == IoErrorKind::Other
                    &&& final(self).inner_spec().pos() == target
                    &&& final(self).cipher_spec().pos() == old(self).cipher_spec().pos()
                } else {
                    &&& r == Ok::<u64, IoError>(target as u64)
                    &&& final(self).inner_spec().pos() == target
                    &&& final(self).cipher_spec().pos() == target
                }
            }),
    {
        let new_pos = match self.inner.seek(pos) {
            Ok(p) => p,
            Err(e) => {
                return Err(e);
            },
        };
        match self.cipher.try_seek(new_pos) {
            Ok(()) => Ok(new_pos),
            Err(_) => Err(IoError::new(IoErrorKind::Other)),
        }
    }

    /// The position of the stream.
    pub fn stream_position(&self) -> (r: Result<u64, IoError>)
        ensures
            r == Ok::<u64, IoError>(self.inner_spec().pos()),
    {
        Ok(self.inner.stream_position())
    }
}

/// Number of bytes that a cipher and a stream can take together: what is
/// left of the keystream behind `cipher_pos`, and no more than the stream
/// can grow by behind `pos`. It is negative where the stream stands behind
/// what memory can address.
pub open spec fn write_room(cipher_pos: u64, stream_len: nat, pos: u64) -> int {
    let stream_left = stream_len - cipher_pos;
    let growth = usize::MAX - pos;
    if stream_left < growth {
        stream_left
    } else {
        growth
    }
}

/// Number of bytes of a buffer of `len` bytes that are encrypted and
/// written where there is room for `room`: all of them where they fit, else
/// the chunks of 256 bytes that fit wholly.
pub open spec fn chunks_written(len: nat, room: int) -> nat {
    if len <= room {
        len
    } else if room < 0 {
        0
    } else {
        ((room / (CRYPT_BUF_SIZE as int)) * CRYPT_BUF_SIZE) as nat
    }
}

/// Where the chunk ends that follows `written` bytes of a buffer of `len`
/// bytes.
pub open spec fn failing_chunk_end(len: nat, written: nat) -> nat {
    if len - written < CRYPT_BUF_SIZE {
        len
    } else {
        written + CRYPT_BUF_SIZE as nat
    }
}

/// Wraps a stream and a cipher: what is written is encrypted on its way
/// into the stream.
#[derive(Debug)]
pub struct CipherWriteStream<C: DynCipher> {
    inner: MemStream,
    cipher: C,
}

impl<C: DynCipher> CipherWriteStream<C> {
    /// The stream that is wrapped.
    pub closed spec fn inner_spec(&self) -> MemStream {
        self.inner
    }

    /// The cipher.
    pub closed spec fn cipher_spec(&self) -> C {
        self.cipher
    }

    /// The cipher is a valid one.
    pub open spec fn inv(&self) -> bool {
        self.cipher_spec().inv()
    }

    /// Construct a new [`CipherWriteStream`] with the given inner stream
    /// and cipher.
    ///
    /// `inner` must be positioned at the start of the cipher stream when
    /// passed into this function.
    pub fn new(inner: MemStream, cipher: C) -> (w: Self)
        ensures
            w.inner_spec() == inner,
            w.cipher_spec() == cipher,
    {
        Self { inner, cipher }
    }

    /// Extracts the inner stream and cipher
    pub fn into_inner(self) -> (r: (MemStream, C))
        ensures
            r.0 == self.inner_spec(),
            r.1 == self.cipher_spec(),
    {
        (self.inner, self.cipher)
    }

    /// Encrypts `buf` and writes it to the stream, chunk by chunk. On
    /// success all of `buf` has been written; an empty `buf` changes
    /// nothing.
    ///
    /// It fails at the first chunk of 256 bytes for which the keystream
    /// is too short (`Other`) or over which the stream cannot grow
    /// (`InvalidInput`). The chunks before it have then been written. Of the
    /// failing chunk nothing is written; where it is the stream that fails,
    /// the cipher has moved over that chunk.
    pub fn write(&mut self, buf: &[u8]) -> (r: Result<usize, IoError>)
        requires
            old(self).inv(),
        ensures
            final(self).inv(),
            final(self).cipher_spec().keystream() == old(self).cipher_spec().keystream(),
            final(self).cipher_spec().name_spec() == old(self).cipher_spec().name_spec(),
            ({
                let stream_left = old(self).cipher_spec().keystream().len() - old(self).cipher_spec().pos();
                let room = write_room(
                    old(self).cipher_spec().pos(),
                    old(self).cipher_spec().keystream().len(),
                    old(self).inner_spec().pos(),
                );
                let m = chunks_written(buf@.len(), room);
                let end = failing_chunk_end(buf@.len(), m);
                &&& r is Ok <==> buf@.len() == 0 || buf@.len() <= room
                &&& final(self).inner_spec().pos() == old(self).inner_spec().pos() + m
                &&& final(self).inner_spec().bytes() == if m == 0 {
                    old(self).inner_spec().bytes()
                } else {
                    written_at(
                        old(self).inner_spec().bytes(),
                        old(self).inner_spec().pos() as int,
                        xor_keystream(
                            buf@.subrange(0, m as int),
                            old(self).cipher_spec().keystream(),
                            old(self).cipher_spec().pos() as int,
                        ),
                    )
                }
                &&& r matches Ok(n) ==> n == buf@.len() && m == buf@.len() && final(self).cipher_spec().pos() == old(self).cipher_spec().pos() + n
                &&& r matches Err(e) ==> if end > stream_left {
                    e.kind == IoErrorKind::Other && final(self).cipher_spec().pos() == old(self).cipher_spec().pos() + m
                } else {
                    e.kind == IoErrorKind::InvalidInput && final(self).cipher_spec().pos() == old(self).cipher_spec().pos() + end
                }
            }),
    {
        let ghost data0 = self.inner.bytes();
        let ghost pos0 = self.inner.pos();
        let ghost cpos0 = self.cipher.pos();
        let ghost ks = self.cipher.keystream();
        let ghost room = write_room(cpos0, ks.len(), pos0);
        proof {
            self.cipher.lemma_inv();
        }
        let mut crypt_buf: Vec<u8> = Vec::with_capacity(CRYPT_BUF_SIZE);
        let len = buf.len();
        let mut done: usize = 0;
        let ghost mut k: nat = 0;
        // Encrypt each part of the input using the cipher and then write it out
        while done < len
            invariant
                done <= len,
                len == buf@.len(),
                done < len ==> done == CRYPT_BUF_SIZE * k,
                self.inv(),
                ks == self.cipher.keystream(),
                self.cipher.name_spec() == old(self).cipher_spec().name_spec(),
                data0 == old(self).inner_spec().bytes(),
                pos0 == old(self).inner_spec().pos(),
                cpos0 == old(self).cipher_spec().pos(),
                ks == old(self).cipher_spec().keystream(),
                room == write_room(cpos0, ks.len(), pos0),
                cpos0 + done <= ks.len(),
                self.cipher.pos() == cpos0 + done,
                done > 0 ==> pos0 + done <= usize::MAX,
                self.inner.pos() == pos0 + done,
                done > 0 ==> self.inner.bytes() == written_at(
                    data0,
                    pos0 as int,
                    xor_keystream(buf@.subrange(0, done as int), ks, cpos0 as int),
                ),
                done == 0 ==> self.inner.bytes() == data0,
            decreases len - done,
        {
            let n = if len - done < CRYPT_BUF_SIZE {
                len - done
            } else {
                CRYPT_BUF_SIZE
            };
            let chunk = slice_subrange(buf, done, done + n);
            crypt_buf.clear();
            extend_bytes(&mut crypt_buf, chunk);
            match self.cipher.try_apply_keystream(crypt_buf.as_mut_slice()) {
                Ok(()) => {},
                Err(_) => {
                    proof {
                        assert(done + n > ks.len() - cpos0);
                        assert(room < done + n);
                        assert(done > 0 ==> done <= room);
                        assert(room >= 0 ==> room / (CRYPT_BUF_SIZE as int) == k);
                        assert(chunks_written(len as nat, room) == done);
                        assert(failing_chunk_end(len as nat, done as nat) == done + n);
                    }
                    return Err(IoError::new(IoErrorKind::Other));
                },
            }
            match self.inner.write(crypt_buf.as_slice()) {
                Ok(_) => {},
                Err(e) => {
                    proof {
                        assert(done + n > usize::MAX - pos0);
                        assert(room < done + n);
                        assert(done > 0 ==> done <= room);
                        assert(room >= 0 ==> room / (CRYPT_BUF_SIZE as int) == k);
                        assert(chunks_written(len as nat, room) == done);
                        assert(failing_chunk_end(len as nat, done as nat) == done + n);
                    }
                    return Err(e);
                },
            }
            proof {
                let head = xor_keystream(buf@.subrange(0, done as int), ks, cpos0 as int);
                lemma_xor_keystream_concat(buf@.subrange(0, done as int), chunk@, ks, cpos0 as int);
                assert(buf@.subrange(0, done as int) + chunk@ =~= buf@.subrange(0, done + n));
                if done > 0 {
                    lemma_written_at_concat(data0, pos0 as int, head, crypt_buf@);
                } else {
                    assert(head =~= Seq::<u8>::empty());
                    assert(head + crypt_buf@ =~= crypt_buf@);
                }
                if done + n < len {
                    k = k + 1;
                }
            }
            done = done + n;
        }
        proof {
            assert(buf@.subrange(0, len as int) =~= buf@);
            assert(len > 0 ==> len <= room);
            assert(chunks_written(len as nat, room) == len);
        }
        Ok(len)
    }

    /// Nothing is held back: there is nothing to flush.
    pub fn flush(&mut self) -> (r: Result<(), IoError>)
        ensures
            r is Ok,
            *final(self) == *old(self),
    {
        Ok(())
    }

    /// Moves the position of the stream, and the cipher to the same
    /// position in its keystream. Where the cipher cannot follow, the stream
    /// has moved and the cipher has not.
    pub fn seek(&mut self, pos: SeekFrom) -> (r: Result<u64, IoError>)
        requires
            old(self).inv(),
        ensures
            final(self).inv(),
            final(self).inner_spec().bytes() == old(self).inner_spec().bytes(),
            final(self).cipher_spec().keystream() == old(self).cipher_spec().keystream(),
            final(self).cipher_spec().name_spec() == old(self).cipher_spec().name_spec(),
            ({
                let target = seek_target(
                    pos,
                    old(self).inner_spec().pos(),
                    old(self).inner_spec().bytes().len() as u64,
                );
                if !(0 <= target <= u64::MAX) {
                    &&& r is Err
                    &&& r->Err_0.kind == IoErrorKind::InvalidInput
                    &&& final(self).inner_spec().pos() == old(self).inner_spec().pos()
                    &&& final(self).cipher_spec().pos() == old(self).cipher_spec().pos()
                } else if target > old(self).cipher_spec().keystream().len() {
                    &&& r is Err
                    &&& r->Err_0.kind == IoErrorKind::Other
                    &&& final(self).inner_spec().pos() == target
                    &&& final(self).cipher_spec().pos() == old(self).cipher_spec().pos()
                } else {
                    &&& r == Ok::<u64, IoError>(target as u64)
                    &&& final(self).inner_spec().pos() == target
                    &&& final(self).cipher_spec().pos() == target
                }
            }),
    {
        let new_pos = match self.inner.seek(pos) {
            Ok(p) => p,
            Err(e) => {
                return Err(e);
            },
        };
        match self.cipher.try_seek(new_pos) {
            Ok(()) => Ok(new_pos),
            Err(_) => Err(IoError::new(IoErrorKind::Other)),
        }
    }

    /// The position of the stream.
    pub fn stream_position(&self) -> (r: Result<u64, IoError>)
        ensures
            r == Ok::<u64, IoError>(self.inner_spec().pos()),
    {
        Ok(self.inner.stream_position())
    }
}

} // verus!
