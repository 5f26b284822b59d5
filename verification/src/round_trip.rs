//! What is written can be read back: the proofs that tie the writer's
//! layout to the reader's parsing.
use vstd::prelude::*;
use vstd::bytes::{
    lemma_auto_spec_u16_to_from_le_bytes,
    lemma_auto_spec_u32_to_from_le_bytes,
    lemma_auto_spec_u64_to_from_le_bytes,
    spec_u16_from_le_bytes,
    spec_u16_to_le_bytes,
    spec_u32_to_le_bytes,
    spec_u64_to_le_bytes,
};
use crate::bytes::{lemma_xor_keystream_twice, xor_keystream};
use crate::cipher_factory::CipherFactory;
use crate::dyn_cipher::DynCipher;
use crate::error::EnardErrorView;
use crate::format::{
    lemma_header_len,
    authenticated_span,
    capacity_left,
    check_mac,
    container_bytes,
    entries_bytes,
    entries_fault,
    header_bytes,
    header_fault,
    header_fields,
    magic,
    padding_len,
    parse_entries,
    parse_entry,
    parse_meta,
    parse_prefix,
    parse_u16_block,
    parse_u8_block,
    prefix_bytes,
    stored_tag,
    u16_block,
    u8_block,
    Entries,
    HEADER_START,
    META_MAX,
    U16_BLOCK_MAX,
    U8_BLOCK_MAX,
    VERSION,
};
use crate::mac::{hmac_sha256, TAG_SIZE};
use crate::reader::{parse_container, parse_header, Opened};

verus! {

/// The middle one of three pieces is found where the first ends.
pub proof fn lemma_middle(a: Seq<u8>, b: Seq<u8>, c: Seq<u8>)
    ensures
        (a + b + c).subrange(a.len() as int, (a.len() + b.len()) as int) == b,
        (a + b + c).len() == a.len() + b.len() + c.len(),
{
    assert((a + b + c).subrange(a.len() as int, (a.len() + b.len()) as int) =~= b);
}

/// A block with a 1-byte length that stands at offset `at` is read back.
pub proof fn lemma_parse_u8_block(src: Seq<u8>, at: int, b: Seq<u8>)
    requires
        0 <= at,
        b.len() <= U8_BLOCK_MAX,
        at + 1 + b.len() <= src.len(),
        src.subrange(at, at + 1 + b.len()) == u8_block(b),
    ensures
        parse_u8_block(src, at) == Some(b),
{
    let piece = src.subrange(at, at + 1 + b.len());
    assert(src[at] == piece[0]);
    assert(u8_block(b)[0] == b.len() as u8);
    assert(src.subrange(at + 1, at + 1 + b.len()) =~= piece.subrange(1, (1 + b.len()) as int));
    assert(u8_block(b).subrange(1, (1 + b.len()) as int) =~= b);
}

/// A block with a 2-byte length that stands at offset `at` is read back,
/// where the limit allows its length.
pub proof fn lemma_parse_u16_block(src: Seq<u8>, at: int, b: Seq<u8>, limit: int)
    requires
        0 <= at,
        b.len() <= U16_BLOCK_MAX,
        b.len() <= limit,
        at + 2 + b.len() <= src.len(),
        src.subrange(at, at + 2 + b.len()) == u16_block(b),
    ensures
        parse_u16_block(src, at, limit) == Ok::<Seq<u8>, EnardErrorView>(b),
{
    lemma_auto_spec_u16_to_from_le_bytes();
    let piece = src.subrange(at, at + 2 + b.len());
    let len = spec_u16_to_le_bytes(b.len() as u16);
    assert(len.len() == 2);
    assert(src.subrange(at, at + 2) =~= piece.subrange(0, 2));
    assert(u16_block(b).subrange(0, 2) =~= len);
    assert(spec_u16_from_le_bytes(len) == b.len() as u16);
    assert(src.subrange(at + 2, at + 2 + b.len()) =~= piece.subrange(2, (2 + b.len()) as int));
    assert(u16_block(b).subrange(2, (2 + b.len()) as int) =~= b);
}

/// Entries that stand at offset `at`, within their bounds and within the
/// header, are read back in their order.
pub proof fn lemma_parse_entries(src: Seq<u8>, at: int, e: Entries, header_end: int, acc: Entries)
    requires
        0 <= at,
        entries_fault(e) is None,
        at + entries_bytes(e).len() <= header_end,
        at + entries_bytes(e).len() <= src.len(),
        src.subrange(at, at + entries_bytes(e).len()) == entries_bytes(e),
    ensures
        parse_entries(src, at, e.len(), header_end, acc) == Ok::<Entries, EnardErrorView>(acc + e),
    decreases e.len(),
{
    lemma_auto_spec_u16_to_from_le_bytes();
    if e.len() == 0 {
        assert(acc + e =~= acc);
    } else {
        let x = e.first();
        let rest = e.drop_first();
        let all = entries_bytes(e);
        let kb = u8_block(x.0);
        let vb = u16_block(x.1);
        assert(all == kb + vb + entries_bytes(rest));
        let piece = src.subrange(at, at + all.len());
        let p = at + 1 + x.0.len();
        let next = p + 2 + x.1.len();
        assert(src.subrange(at, p) =~= piece.subrange(0, kb.len() as int));
        assert(all.subrange(0, kb.len() as int) =~= kb);
        lemma_parse_u8_block(src, at, x.0);
        assert(src.subrange(p, next) =~= piece.subrange(kb.len() as int, (kb.len() + vb.len()) as int));
        assert(all.subrange(kb.len() as int, (kb.len() + vb.len()) as int) =~= vb);
        lemma_parse_u16_block(src, p, x.1, capacity_left(p + 2, header_end));
        assert(parse_entry(src, at, header_end) == Ok::<
            ((Seq<u8>, Seq<u8>), int),
            EnardErrorView,
        >((x, next)));
        assert(src.subrange(next, next + entries_bytes(rest).len()) =~= piece.subrange(
            (kb.len() + vb.len()) as int,
            all.len() as int,
        ));
        assert(all.subrange((kb.len() + vb.len()) as int, all.len() as int) =~= entries_bytes(rest));
        lemma_parse_entries(src, next, rest, header_end, acc.push(x));
        assert(acc.push(x) + rest =~= acc + e);
    }
}

/// A metadata block that stands at offset `at`, within its bounds and
/// within the header, is read back entry for entry.
pub proof fn lemma_parse_meta(src: Seq<u8>, at: int, e: Entries, header_end: int)
    requires
        0 <= at,
        e.len() <= META_MAX,
        entries_fault(e) is None,
        at + 1 + entries_bytes(e).len() <= header_end,
        at + 1 + entries_bytes(e).len() <= src.len(),
        src.subrange(at, at + 1 + entries_bytes(e).len()) == seq![e.len() as u8] + entries_bytes(e),
    ensures
        parse_meta(src, at, header_end) == Ok::<Entries, EnardErrorView>(e),
{
    let block = seq![e.len() as u8] + entries_bytes(e);
    let piece = src.subrange(at, at + block.len());
    assert(src[at] == piece[0]);
    assert(block[0] == e.len() as u8);
    assert(src.subrange(at + 1, at + 1 + entries_bytes(e).len()) =~= piece.subrange(
        1,
        block.len() as int,
    ));
    assert(block.subrange(1, block.len() as int) =~= entries_bytes(e));
    lemma_parse_entries(src, at + 1, e, header_end, Seq::empty());
    assert(Seq::<(Seq<u8>, Seq<u8>)>::empty() + e =~= e);
}

/// Encoding a metadata map and decoding it again gives the map back: for
/// at most 255 entries, with keys of at most 255 bytes and values of at
/// most 65535, the metadata block that stands at offset `before.len()`,
/// within the header, is read back entry for entry.
pub proof fn lemma_meta_round_trip(e: Entries, before: Seq<u8>, after: Seq<u8>, header_end: int)
    requires
        e.len() <= META_MAX,
        entries_fault(e) is None,
        before.len() + 1 + entries_bytes(e).len() <= header_end,
    ensures
        parse_meta(
            before + (seq![e.len() as u8] + entries_bytes(e)) + after,
            before.len() as int,
            header_end,
        ) == Ok::<Entries, EnardErrorView>(e),
{
    let block = seq![e.len() as u8] + entries_bytes(e);
    lemma_middle(before, block, after);
    lemma_parse_meta(before + block + after, before.len() as int, e, header_end);
}

/// The first 20 bytes of a container tell its sizes.
pub proof fn lemma_parse_prefix(header_size: u32, data_size: u64, rest: Seq<u8>)
    ensures
        parse_prefix(prefix_bytes(header_size, data_size) + rest) == Ok::<
            (u32, u64),
            EnardErrorView,
        >((header_size, data_size)),
        prefix_bytes(header_size, data_size).len() == HEADER_START,
{
    lemma_auto_spec_u16_to_from_le_bytes();
    lemma_auto_spec_u32_to_from_le_bytes();
    lemma_auto_spec_u64_to_from_le_bytes();
    let p = prefix_bytes(header_size, data_size);
    let src = p + rest;
    assert(p.len() == 20);
    assert(src.subrange(0, 6) =~= magic());
    assert(src.subrange(6, 8) =~= spec_u16_to_le_bytes(VERSION));
    assert(src.subrange(8, 12) =~= spec_u32_to_le_bytes(header_size));
    assert(src.subrange(12, 20) =~= spec_u64_to_le_bytes(data_size));
}

/// The container that holds `plaintext` under the cipher that `factory`
/// makes for `name`, `key` and `iv`, with the metadata `e`.
pub open spec fn sealed<C: DynCipher, Cf: CipherFactory<C>>(
    factory: Cf,
    key: Seq<u8>,
    name: Seq<u8>,
    iv: Seq<u8>,
    e: Entries,
    plaintext: Seq<u8>,
) -> Seq<u8> {
    container_bytes(
        key,
        header_bytes(name, iv, e),
        xor_keystream(plaintext, factory.keystream_spec(name, key, iv), 0),
    )
}

/// The decrypted data section of the container `file`, opened with `key`.
pub open spec fn unsealed<C: DynCipher, Cf: CipherFactory<C>>(
    factory: Cf,
    file: Seq<u8>,
    key: Seq<u8>,
) -> Result<Seq<u8>, EnardErrorView> {
    match parse_container::<C, Cf>(factory, file, key) {
        Err(e) => Err(e),
        Ok(o) => Ok(
            xor_keystream(
                file.subrange(
                    HEADER_START + o.header_size,
                    HEADER_START + o.header_size + o.data_size,
                ),
                factory.keystream_spec(o.name, key, o.iv),
                0,
            ),
        ),
    }
}

/// Decrypting what was encrypted gives the plaintext back, whatever its
/// length: a container written for a cipher that the factory supports,
/// with a key and an iv of the lengths that the cipher asks for, opens
/// under the same key, tells cipher name, iv and metadata as they were
/// written, and holds the plaintext.
///
/// The tag is taken to have its 32 bytes, as every tag has that the MAC
/// hands out.
pub proof fn lemma_round_trip<C: DynCipher, Cf: CipherFactory<C>>(
    factory: Cf,
    key: Seq<u8>,
    name: Seq<u8>,
    iv: Seq<u8>,
    e: Entries,
    plaintext: Seq<u8>,
)
    requires
        factory.supports(name),
        key.len() == factory.meta_spec(name).key_size,
        iv.len() == factory.meta_spec(name).iv_size,
        header_fault(name, iv, e) is None,
        plaintext.len() <= u64::MAX,
        hmac_sha256(
            key,
            header_bytes(name, iv, e) + xor_keystream(
                plaintext,
                factory.keystream_spec(name, key, iv),
                0,
            ),
        ).len() == TAG_SIZE,
    ensures
        parse_container::<C, Cf>(factory, sealed::<C, Cf>(factory, key, name, iv, e, plaintext), key)
            == Ok::<Opened, EnardErrorView>(
            Opened {
                name,
                iv,
                entries: e,
                header_size: header_bytes(name, iv, e).len() as u32,
                data_size: plaintext.len() as u64,
            },
        ),
        unsealed::<C, Cf>(factory, sealed::<C, Cf>(factory, key, name, iv, e, plaintext), key)
            == Ok::<Seq<u8>, EnardErrorView>(plaintext),
{
    let ks = factory.keystream_spec(name, key, iv);
    let header = header_bytes(name, iv, e);
    let ct = xor_keystream(plaintext, ks, 0);
    let hs = header.len() as u32;
    let ds = ct.len() as u64;
    let file = sealed::<C, Cf>(factory, key, name, iv, e, plaintext);
    lemma_header_len(name, iv, e);
    lemma_container_layout(key, header, ct);
    lemma_parse_header::<C, Cf>(factory, file, key, name, iv, e, ds);
    lemma_xor_keystream_twice(plaintext, ks, 0);
}

/// Where the pieces of a container stand: the sizes in the first 20 bytes,
/// then header and ciphertext, which the tag covers, then the tag.
pub proof fn lemma_container_layout(key: Seq<u8>, header: Seq<u8>, ciphertext: Seq<u8>)
    requires
        header.len() <= u32::MAX,
        ciphertext.len() <= u64::MAX,
        hmac_sha256(key, header + ciphertext).len() == TAG_SIZE,
    ensures
        ({
            let file = container_bytes(key, header, ciphertext);
            let hs = header.len() as u32;
            let ds = ciphertext.len() as u64;
            &&& file.len() == HEADER_START + header.len() + ciphertext.len() + TAG_SIZE
            &&& parse_prefix(file) == Ok::<(u32, u64), EnardErrorView>((hs, ds))
            &&& file.subrange(HEADER_START as int, HEADER_START + header.len()) == header
            &&& file.subrange(HEADER_START + hs, HEADER_START + hs + ds) == ciphertext
            &&& authenticated_span(file, hs, ds) == header + ciphertext
            &&& stored_tag(file, hs, ds) == hmac_sha256(key, header + ciphertext)
            &&& check_mac(file, key, hs, ds) == Ok::<(), EnardErrorView>(())
        }),
{
    let file = container_bytes(key, header, ciphertext);
    let hs = header.len() as u32;
    let ds = ciphertext.len() as u64;
    let tag = hmac_sha256(key, header + ciphertext);
    let prefix = prefix_bytes(hs, ds);
    lemma_parse_prefix(hs, ds, header + ciphertext + tag);
    assert(file =~= prefix + (header + ciphertext + tag));
    assert(file.subrange(20, (20 + header.len()) as int) =~= header);
    assert(file.subrange(20 + hs, 20 + hs + ds) =~= ciphertext);
    assert(authenticated_span(file, hs, ds) =~= header + ciphertext);
    assert(stored_tag(file, hs, ds) =~= tag);
}

/// A header that stands behind the first 20 bytes of a file is read back:
/// cipher name, iv and metadata.
pub proof fn lemma_parse_header<C: DynCipher, Cf: CipherFactory<C>>(
    factory: Cf,
    file: Seq<u8>,
    key: Seq<u8>,
    name: Seq<u8>,
    iv: Seq<u8>,
    e: Entries,
    data_size: u64,
)
    requires
        factory.supports(name),
        key.len() == factory.meta_spec(name).key_size,
        iv.len() == factory.meta_spec(name).iv_size,
        header_fault(name, iv, e) is None,
        HEADER_START + header_bytes(name, iv, e).len() <= file.len(),
        file.subrange(HEADER_START as int, HEADER_START + header_bytes(name, iv, e).len())
            == header_bytes(name, iv, e),
    ensures
        parse_header::<C, Cf>(
            factory,
            file,
            key,
            header_bytes(name, iv, e).len() as u32,
            data_size,
        ) == Ok::<Opened, EnardErrorView>(
            Opened {
                name,
                iv,
                entries: e,
                header_size: header_bytes(name, iv, e).len() as u32,
                data_size,
            },
        ),
{
    lemma_header_len(name, iv, e);
    let header = header_bytes(name, iv, e);
    let fields = header_fields(name, iv, e);
    let placed = file.subrange(20, (20 + header.len()) as int);
    let nb = u8_block(name);
    let ib = u8_block(iv);
    let mb = seq![e.len() as u8] + entries_bytes(e);
    assert(fields =~= nb + ib + mb);
    let iv_at = 21 + name.len();
    let meta_at = iv_at + 1 + iv.len();
    assert(file.subrange(20, iv_at as int) =~= placed.subrange(0, nb.len() as int));
    assert(header.subrange(0, nb.len() as int) =~= nb);
    lemma_parse_u8_block(file, 20, name);
    assert(file.subrange(iv_at as int, meta_at as int) =~= placed.subrange(
        nb.len() as int,
        (nb.len() + ib.len()) as int,
    ));
    assert(header.subrange(nb.len() as int, (nb.len() + ib.len()) as int) =~= ib);
    lemma_parse_u8_block(file, iv_at as int, iv);
    assert(file.subrange(meta_at as int, (meta_at + mb.len()) as int) =~= placed.subrange(
        (nb.len() + ib.len()) as int,
        fields.len() as int,
    ));
    assert(header.subrange((nb.len() + ib.len()) as int, fields.len() as int) =~= mb);
    lemma_parse_meta(file, meta_at as int, e, (20 + header.len()) as int);
}

/// A value whose length is over what is left of the header is refused as
/// too large, whatever follows it: no byte of it is read.
pub proof fn lemma_oversized_value_refused(src: Seq<u8>, at: int, header_end: int)
    requires
        parse_u8_block(src, at) is Some,
        at + 1 + parse_u8_block(src, at)->Some_0.len() + 2 <= src.len(),
        spec_u16_from_le_bytes(
            src.subrange(
                at + 1 + parse_u8_block(src, at)->Some_0.len(),
                at + 1 + parse_u8_block(src, at)->Some_0.len() + 2,
            ),
        ) > capacity_left(at + 1 + parse_u8_block(src, at)->Some_0.len() + 2, header_end),
    ensures
        parse_entry(src, at, header_end) == Err::<((Seq<u8>, Seq<u8>), int), EnardErrorView>(
            EnardErrorView::BlockTooLarge {
                size: spec_u16_from_le_bytes(
                    src.subrange(
                        at + 1 + parse_u8_block(src, at)->Some_0.len(),
                        at + 1 + parse_u8_block(src, at)->Some_0.len() + 2,
                    ),
                ) as u64,
                limit: capacity_left(
                    at + 1 + parse_u8_block(src, at)->Some_0.len() + 2,
                    header_end,
                ) as u64,
            },
        ),
{
}

} // verus!
