//! The binary layout of a container, as functions on byte sequences.
//!
//! All integers are little-endian. A container is the 20 bytes of magic,
//! version and sizes, the header (cipher name, iv, metadata, zero padding),
//! the ciphertext, and the tag over header and ciphertext.
use vstd::prelude::*;
use vstd::bytes::{
    spec_u16_from_le_bytes,
    spec_u16_to_le_bytes,
    spec_u32_from_le_bytes,
    spec_u32_to_le_bytes,
    spec_u64_from_le_bytes,
    spec_u64_to_le_bytes,
};
use crate::bytes::zeros;
use crate::error::{EnardErrorView, IoErrorKind};
use crate::mac::{hmac_sha256, TAG_SIZE};

verus! {

/// The data section starts at a multiple of this, counted from the start of
/// the container.
pub const DATA_ALIGNMENT: usize = 8;

/// Start of the header data relative to the file start:
/// magic, version, header size and data size come before it.
pub const HEADER_START: usize = 20;

/// The one format version that is handled.
pub const VERSION: u16 = 1;

/// Most bytes that a block with a 1-byte length can hold.
pub const U8_BLOCK_MAX: usize = 255;

/// Most bytes that a block with a 2-byte length can hold.
pub const U16_BLOCK_MAX: usize = 65535;

/// Most entries that the metadata can hold.
pub const META_MAX: usize = 255;

/// A list of metadata entries, each a key with its value.
pub type Entries = Seq<(Seq<u8>, Seq<u8>)>;

/// The bytes that every container starts with: 0x03, then `ENARD`.
pub open spec fn magic() -> Seq<u8> {
    seq![3u8, 69u8, 78u8, 65u8, 82u8, 68u8]
}

/// The fault of a source that ends too early.
pub open spec fn eof() -> EnardErrorView {
    EnardErrorView::IO(IoErrorKind::UnexpectedEof)
}

/// The magic bytes.
pub fn magic_bytes() -> (m: Vec<u8>)
    ensures
        m@ == magic(),
{
    let m = vec![3u8, 69u8, 78u8, 65u8, 82u8, 68u8];
    assert(m@ =~= magic());
    m
}

// ---------------------------------------------------------------------
// Encoding
// ---------------------------------------------------------------------
/// A block with a 1-byte length in front.
pub open spec fn u8_block(b: Seq<u8>) -> Seq<u8> {
    seq![b.len() as u8] + b
}

/// A block with a 2-byte length in front.
pub open spec fn u16_block(b: Seq<u8>) -> Seq<u8> {
    spec_u16_to_le_bytes(b.len() as u16) + b
}

/// One metadata entry: the key with a 1-byte length, the value with a
/// 2-byte length.
pub open spec fn entry_bytes(e: (Seq<u8>, Seq<u8>)) -> Seq<u8> {
    u8_block(e.0) + u16_block(e.1)
}

/// The entries one after the other.
pub open spec fn entries_bytes(e: Entries) -> Seq<u8>
    decreases e.len(),
{
    if e.len() == 0 {
        Seq::empty()
    } else {
        entry_bytes(e.first()) + entries_bytes(e.drop_first())
    }
}

/// The header before its padding: cipher name, iv, number of entries,
/// entries.
pub open spec fn header_fields(name: Seq<u8>, iv: Seq<u8>, e: Entries) -> Seq<u8> {
    u8_block(name) + u8_block(iv) + seq![e.len() as u8] + entries_bytes(e)
}

/// Number of zero bytes after `unpadded` bytes of header, so that the data
/// starts at a multiple of 8.
pub open spec fn padding_len(unpadded: int) -> int {
    (DATA_ALIGNMENT - (unpadded + HEADER_START) % (DATA_ALIGNMENT as int)) % (
    DATA_ALIGNMENT as int)
}

/// The header with its padding.
pub open spec fn header_bytes(name: Seq<u8>, iv: Seq<u8>, e: Entries) -> Seq<u8> {
    let fields = header_fields(name, iv, e);
    fields + zeros(padding_len(fields.len() as int) as nat)
}

/// The first 20 bytes of a container.
pub open spec fn prefix_bytes(header_size: u32, data_size: u64) -> Seq<u8> {
    magic() + spec_u16_to_le_bytes(VERSION) + spec_u32_to_le_bytes(header_size)
        + spec_u64_to_le_bytes(data_size)
}

/// The first 20 bytes as they stand until the sizes are known.
pub open spec fn prefix_placeholder() -> Seq<u8> {
    magic() + spec_u16_to_le_bytes(VERSION) + zeros(12)
}

/// A whole container: sizes, header, ciphertext, and the tag of header and
/// ciphertext under `key`.
pub open spec fn container_bytes(key: Seq<u8>, header: Seq<u8>, ciphertext: Seq<u8>) -> Seq<u8> {
    prefix_bytes(header.len() as u32, ciphertext.len() as u64) + header + ciphertext
        + hmac_sha256(key, header + ciphertext)
}

/// The first bound that a header breaks, as the size met and its limit:
/// the cipher name, the iv, the number of entries, then each entry's key
/// and value in turn.
pub open spec fn header_fault(name: Seq<u8>, iv: Seq<u8>, e: Entries) -> Option<(u64, u64)> {
    if name.len() > U8_BLOCK_MAX {
        Some((name.len() as u64, U8_BLOCK_MAX as u64))
    } else if iv.len() > U8_BLOCK_MAX {
        Some((iv.len() as u64, U8_BLOCK_MAX as u64))
    } else if e.len() > META_MAX {
        Some((e.len() as u64, META_MAX as u64))
    } else {
        entries_fault(e)
    }
}

/// The bound that an entry breaks: a key of more than 255 bytes or, with a
/// key within its bound, a value of more than 65535.
pub open spec fn entry_fault(x: (Seq<u8>, Seq<u8>)) -> Option<(u64, u64)> {
    if x.0.len() > U8_BLOCK_MAX {
        Some((x.0.len() as u64, U8_BLOCK_MAX as u64))
    } else if x.1.len() > U16_BLOCK_MAX {
        Some((x.1.len() as u64, U16_BLOCK_MAX as u64))
    } else {
        None
    }
}

/// The bound that the first faulty entry of a list breaks.
pub open spec fn entries_fault(e: Entries) -> Option<(u64, u64)>
    decreases e.len(),
{
    if e.len() == 0 {
        None
    } else if entry_fault(e.first()) is Some {
        entry_fault(e.first())
    } else {
        entries_fault(e.drop_first())
    }
}

/// A cipher name or an iv of more than 255 bytes is a fault of the header,
/// whatever the metadata holds: the name's first, then the iv's.
pub proof fn lemma_long_block_refused(name: Seq<u8>, iv: Seq<u8>, e: Entries)
    ensures
        name.len() > U8_BLOCK_MAX ==> header_fault(name, iv, e) == Some(
            (name.len() as u64, U8_BLOCK_MAX as u64),
        ),
        name.len() <= U8_BLOCK_MAX && iv.len() > U8_BLOCK_MAX ==> header_fault(name, iv, e)
            == Some((iv.len() as u64, U8_BLOCK_MAX as u64)),
{
}

/// Appending an entry appends its bytes.
pub proof fn lemma_entries_bytes_push(e: Entries, x: (Seq<u8>, Seq<u8>))
    ensures
        entries_bytes(e.push(x)) == entries_bytes(e) + entry_bytes(x),
    decreases e.len(),
{
    if e.len() == 0 {
        assert(e.push(x).drop_first() =~= e);
        assert(entries_bytes(e.push(x)) =~= entry_bytes(x) + entries_bytes(e));
        assert(entries_bytes(e.push(x)) =~= entries_bytes(e) + entry_bytes(x));
    } else {
        lemma_entries_bytes_push(e.drop_first(), x);
        assert(e.push(x).drop_first() =~= e.drop_first().push(x));
        assert(e.push(x).first() == e.first());
        assert(entries_bytes(e.push(x)) =~= entries_bytes(e) + entry_bytes(x));
    }
}

/// Behind entries without a fault, the fault of a list is that of the
/// entry that follows them.
pub proof fn lemma_entries_fault_push(e: Entries, x: (Seq<u8>, Seq<u8>))
    requires
        entries_fault(e) is None,
    ensures
        entries_fault(e.push(x)) == entry_fault(x),
    decreases e.len(),
{
    if e.len() == 0 {
        assert(e.push(x).first() == x);
        assert(e.push(x).drop_first() =~= e);
    } else {
        lemma_entries_fault_push(e.drop_first(), x);
        assert(e.push(x).drop_first() =~= e.drop_first().push(x));
        assert(e.push(x).first() == e.first());
    }
}

/// A fault among the first entries is the fault of the whole list.
pub proof fn lemma_entries_fault_prefix(e: Entries, n: int)
    requires
        0 <= n <= e.len(),
        entries_fault(e.take(n)) is Some,
    ensures
        entries_fault(e) == entries_fault(e.take(n)),
    decreases n,
{
    let t = e.take(n);
    assert(n > 0);
    assert(t.first() == e.first());
    if entry_fault(e.first()) is None {
        assert(t.drop_first() =~= e.drop_first().take(n - 1));
        lemma_entries_fault_prefix(e.drop_first(), n - 1);
    }
}


/// Most bytes that a header takes, with its padding.
pub const HEADER_MAX: usize = 16777735;

/// Most bytes that one entry takes in the header.
pub const ENTRY_MAX: usize = 65793;

/// Entries within their bounds take no more than 65793 bytes each.
pub proof fn lemma_entries_bytes_len(e: Entries)
    requires
        entries_fault(e) is None,
    ensures
        entries_bytes(e).len() <= ENTRY_MAX * e.len(),
    decreases e.len(),
{
    vstd::bytes::lemma_auto_spec_u16_to_from_le_bytes();
    if e.len() > 0 {
        lemma_entries_bytes_len(e.drop_first());
        assert(entry_bytes(e.first()).len() == 1 + e.first().0.len() + 2 + e.first().1.len());
    }
}

/// A header within the bounds of the format is at most 16777735 bytes long.
pub proof fn lemma_header_len(name: Seq<u8>, iv: Seq<u8>, e: Entries)
    requires
        header_fault(name, iv, e) is None,
    ensures
        header_bytes(name, iv, e).len() <= HEADER_MAX,
        header_bytes(name, iv, e).len() == header_fields(name, iv, e).len() + padding_len(
            header_fields(name, iv, e).len() as int,
        ),
        header_fields(name, iv, e).len() == 3 + name.len() + iv.len() + entries_bytes(e).len(),
        (HEADER_START + header_bytes(name, iv, e).len()) % 8 == 0,
{
    lemma_entries_bytes_len(e);
}

// ---------------------------------------------------------------------
// Decoding
// ---------------------------------------------------------------------
/// `size` bytes at offset `at`, if the source has them.
pub open spec fn parse_vec(src: Seq<u8>, at: int, size: int) -> Option<Seq<u8>> {
    if 0 <= at && 0 <= size && at + size <= src.len() {
        Some(src.subrange(at, at + size))
    } else {
        None
    }
}

/// The block with a 1-byte length at offset `at`, if the source has it.
pub open spec fn parse_u8_block(src: Seq<u8>, at: int) -> Option<Seq<u8>> {
    if 0 <= at < src.len() {
        parse_vec(src, at + 1, src[at] as int)
    } else {
        None
    }
}

/// The block with a 2-byte length at offset `at`: too large if the length
/// is over `limit`.
pub open spec fn parse_u16_block(src: Seq<u8>, at: int, limit: int) -> Result<
    Seq<u8>,
    EnardErrorView,
> {
    if !(0 <= at && at + 2 <= src.len()) {
        Err(eof())
    } else {
        let size = spec_u16_from_le_bytes(src.subrange(at, at + 2));
        if size > limit {
            Err(EnardErrorView::BlockTooLarge { size: size as u64, limit: limit as u64 })
        } else {
            match parse_vec(src, at + 2, size as int) {
                Some(v) => Ok(v),
                None => Err(eof()),
            }
        }
    }
}

/// What is left of the header after offset `at`, where the header ends at
/// `header_end`.
pub open spec fn capacity_left(at: int, header_end: int) -> int {
    if at < header_end {
        header_end - at
    } else {
        0
    }
}

/// The metadata entry at offset `at`, with the offset behind it. The value
/// may be as long as what is left of the header behind its length field.
pub open spec fn parse_entry(src: Seq<u8>, at: int, header_end: int) -> Result<
    ((Seq<u8>, Seq<u8>), int),
    EnardErrorView,
> {
    match parse_u8_block(src, at) {
        None => Err(eof()),
        Some(key) => {
            let p = at + 1 + key.len();
            match parse_u16_block(src, p, capacity_left(p + 2, header_end)) {
                Err(e) => Err(e),
                Ok(value) => Ok(((key, value), p + 2 + value.len())),
            }
        },
    }
}

/// `count` entries from offset `at` on, behind the entries `acc`.
pub open spec fn parse_entries(
    src: Seq<u8>,
    at: int,
    count: nat,
    header_end: int,
    acc: Entries,
) -> Result<Entries, EnardErrorView>
    decreases count,
{
    if count == 0 {
        Ok(acc)
    } else {
        match parse_entry(src, at, header_end) {
            Err(e) => Err(e),
            Ok((entry, next)) => parse_entries(
                src,
                next,
                (count - 1) as nat,
                header_end,
                acc.push(entry),
            ),
        }
    }
}

/// The metadata block at offset `at`: the number of entries in one byte,
/// then the entries.
pub open spec fn parse_meta(src: Seq<u8>, at: int, header_end: int) -> Result<
    Entries,
    EnardErrorView,
> {
    if 0 <= at < src.len() {
        parse_entries(src, at + 1, src[at] as nat, header_end, Seq::empty())
    } else {
        Err(eof())
    }
}

/// Header size and data size of a source that starts with the magic bytes
/// and the handled version.
pub open spec fn parse_prefix(src: Seq<u8>) -> Result<(u32, u64), EnardErrorView> {
    if src.len() < 6 {
        Err(eof())
    } else if src.subrange(0, 6) != magic() {
        Err(EnardErrorView::InvalidMagic { exp: magic(), found: src.subrange(0, 6) })
    } else if src.len() < 8 {
        Err(eof())
    } else if spec_u16_from_le_bytes(src.subrange(6, 8)) != VERSION {
        Err(
            EnardErrorView::UnsupportedVersion {
                version: spec_u16_from_le_bytes(src.subrange(6, 8)),
            },
        )
    } else if src.len() < 20 {
        Err(eof())
    } else {
        Ok(
            (
                spec_u32_from_le_bytes(src.subrange(8, 12)),
                spec_u64_from_le_bytes(src.subrange(12, 20)),
            ),
        )
    }
}

/// The bytes that the tag covers: header, padding and ciphertext.
pub open spec fn authenticated_span(src: Seq<u8>, header_size: u32, data_size: u64) -> Seq<u8> {
    src.subrange(HEADER_START as int, HEADER_START + header_size + data_size)
}

/// The tag as the source holds it, behind the authenticated span.
pub open spec fn stored_tag(src: Seq<u8>, header_size: u32, data_size: u64) -> Seq<u8> {
    src.subrange(
        HEADER_START + header_size + data_size,
        HEADER_START + header_size + data_size + TAG_SIZE,
    )
}

/// The check of the tag: the source must hold the span and the tag, and the
/// tag must be that of the span under `key`.
pub open spec fn check_mac(src: Seq<u8>, key: Seq<u8>, header_size: u32, data_size: u64) -> Result<
    (),
    EnardErrorView,
> {
    if HEADER_START + header_size + data_size + TAG_SIZE > src.len() {
        Err(eof())
    } else if stored_tag(src, header_size, data_size) != hmac_sha256(
        key,
        authenticated_span(src, header_size, data_size),
    ) {
        Err(EnardErrorView::MacError)
    } else {
        Ok(())
    }
}

} // verus!
