//! What the tag protects: a container whose authenticated bytes were
//! changed, or that is opened with another key, is refused before any
//! field of its header is looked at.
use vstd::prelude::*;
use crate::cipher_factory::CipherFactory;
use crate::dyn_cipher::DynCipher;
use crate::error::EnardErrorView;
use crate::format::{authenticated_span, check_mac, parse_prefix, stored_tag, HEADER_START};
use crate::mac::hmac_sha256;
use crate::reader::{parse_container, Opened};

verus! {

/// A change to the authenticated bytes of a container (header, padding or
/// ciphertext) makes opening it fail with `MacError`, whatever the header
/// then says. The first 20 bytes and the tag are left as they were.
///
/// The changed bytes must not have the tag of the unchanged ones: that two
/// spans share a tag is not impossible, only out of reach.
pub proof fn lemma_tamper_detected<C: DynCipher, Cf: CipherFactory<C>>(
    factory: Cf,
    file: Seq<u8>,
    tampered: Seq<u8>,
    key: Seq<u8>,
)
    requires
        parse_prefix(file) is Ok,
        check_mac(file, key, parse_prefix(file)->Ok_0.0, parse_prefix(file)->Ok_0.1) is Ok,
        tampered.len() == file.len(),
        tampered.subrange(0, HEADER_START as int) == file.subrange(0, HEADER_START as int),
        stored_tag(tampered, parse_prefix(file)->Ok_0.0, parse_prefix(file)->Ok_0.1) == stored_tag(
            file,
            parse_prefix(file)->Ok_0.0,
            parse_prefix(file)->Ok_0.1,
        ),
        authenticated_span(tampered, parse_prefix(file)->Ok_0.0, parse_prefix(file)->Ok_0.1)
            != authenticated_span(file, parse_prefix(file)->Ok_0.0, parse_prefix(file)->Ok_0.1),
        hmac_sha256(
            key,
            authenticated_span(tampered, parse_prefix(file)->Ok_0.0, parse_prefix(file)->Ok_0.1),
        ) != hmac_sha256(
            key,
            authenticated_span(file, parse_prefix(file)->Ok_0.0, parse_prefix(file)->Ok_0.1),
        ),
    ensures
        parse_container::<C, Cf>(factory, tampered, key) == Err::<Opened, EnardErrorView>(
            EnardErrorView::MacError,
        ),
{
    assert(file.len() >= 20);
    assert(tampered.subrange(0, 6) =~= tampered.subrange(0, 20).subrange(0, 6));
    assert(file.subrange(0, 6) =~= file.subrange(0, 20).subrange(0, 6));
    assert(tampered.subrange(6, 8) =~= tampered.subrange(0, 20).subrange(6, 8));
    assert(file.subrange(6, 8) =~= file.subrange(0, 20).subrange(6, 8));
    assert(tampered.subrange(8, 12) =~= tampered.subrange(0, 20).subrange(8, 12));
    assert(file.subrange(8, 12) =~= file.subrange(0, 20).subrange(8, 12));
    assert(tampered.subrange(12, 20) =~= tampered.subrange(0, 20).subrange(12, 20));
    assert(file.subrange(12, 20) =~= file.subrange(0, 20).subrange(12, 20));
    assert(parse_prefix(tampered) == parse_prefix(file));
}

/// The file with one bit of the byte at offset `at` flipped.
pub open spec fn flip_bit(file: Seq<u8>, at: int, bit: u8) -> Seq<u8> {
    file.update(at, file[at] ^ (1u8 << bit))
}

/// Flipping a bit changes the byte.
pub proof fn lemma_flip_changes(b: u8, bit: u8)
    requires
        bit < 8,
    ensures
        b ^ (1u8 << bit) != b,
{
    assert(bit < 8 ==> b ^ (1u8 << bit) != b) by (bit_vector);
}

/// Flipping any single bit anywhere in the authenticated span of a
/// container (header, padding or ciphertext) makes opening it fail with
/// `MacError`, before any field of its header is looked at.
///
/// The span with the flipped bit must not have the tag of the span
/// without: that two spans share a tag is not impossible, only out of
/// reach.
pub proof fn lemma_flipped_bit_detected<C: DynCipher, Cf: CipherFactory<C>>(
    factory: Cf,
    file: Seq<u8>,
    key: Seq<u8>,
    at: int,
    bit: u8,
)
    requires
        parse_prefix(file) is Ok,
        check_mac(file, key, parse_prefix(file)->Ok_0.0, parse_prefix(file)->Ok_0.1) is Ok,
        HEADER_START <= at < HEADER_START + parse_prefix(file)->Ok_0.0 + parse_prefix(
            file,
        )->Ok_0.1,
        bit < 8,
        hmac_sha256(
            key,
            authenticated_span(
                flip_bit(file, at, bit),
                parse_prefix(file)->Ok_0.0,
                parse_prefix(file)->Ok_0.1,
            ),
        ) != hmac_sha256(
            key,
            authenticated_span(file, parse_prefix(file)->Ok_0.0, parse_prefix(file)->Ok_0.1),
        ),
    ensures
        authenticated_span(
            flip_bit(file, at, bit),
            parse_prefix(file)->Ok_0.0,
            parse_prefix(file)->Ok_0.1,
        ) != authenticated_span(file, parse_prefix(file)->Ok_0.0, parse_prefix(file)->Ok_0.1),
        parse_container::<C, Cf>(factory, flip_bit(file, at, bit), key) == Err::<
            Opened,
            EnardErrorView,
        >(EnardErrorView::MacError),
{
    let h = parse_prefix(file)->Ok_0.0;
    let d = parse_prefix(file)->Ok_0.1;
    let flipped = flip_bit(file, at, bit);
    lemma_flip_changes(file[at], bit);
    assert(flipped.subrange(0, HEADER_START as int) =~= file.subrange(0, HEADER_START as int));
    assert(stored_tag(flipped, h, d) =~= stored_tag(file, h, d));
    assert(authenticated_span(flipped, h, d)[at - HEADER_START] != authenticated_span(
        file,
        h,
        d,
    )[at - HEADER_START]);
    lemma_tamper_detected::<C, Cf>(factory, file, flipped, key);
}

/// Opening a container with a key other than the one it was written with
/// fails with `MacError`: no plaintext is handed out.
///
/// The wrong key must not give the authenticated bytes the tag that the
/// right key gives them. Keys that the MAC fills to the same block do: a
/// short key and the same key with zero bytes behind it. Such a key passes
/// the tag, and the container then opens or fails as its header and the
/// cipher decide.
pub proof fn lemma_wrong_key_detected<C: DynCipher, Cf: CipherFactory<C>>(
    factory: Cf,
    file: Seq<u8>,
    key: Seq<u8>,
    wrong: Seq<u8>,
)
    requires
        parse_prefix(file) is Ok,
        check_mac(file, key, parse_prefix(file)->Ok_0.0, parse_prefix(file)->Ok_0.1) is Ok,
        hmac_sha256(
            wrong,
            authenticated_span(file, parse_prefix(file)->Ok_0.0, parse_prefix(file)->Ok_0.1),
        ) != hmac_sha256(
            key,
            authenticated_span(file, parse_prefix(file)->Ok_0.0, parse_prefix(file)->Ok_0.1),
        ),
    ensures
        parse_container::<C, Cf>(factory, file, wrong) == Err::<Opened, EnardErrorView>(
            EnardErrorView::MacError,
        ),
{
}

} // verus!
