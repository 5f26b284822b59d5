//! The calls into the stream-cipher crate and the random number generator:
//! the only place where keystream bytes and random bytes are produced.
//! Everything here is believed, not proved.
use vstd::prelude::*;
use cipher::{KeyIvInit, StreamCipher, StreamCipherSeek};
use rand::RngCore;

verus! {

/// The error of the stream-cipher traits: the end of the keystream was
/// reached.
#[verifier::external_type_specification]
#[verifier::external_body]
pub struct ExStreamCipherError(cipher::StreamCipherError);

/// Number of keystream bytes that a ChaCha cipher with a 32-bit block counter
/// hands out: 64 bytes for each of the blocks 0 to 2^32 - 2.
pub const CHACHA_STREAM_LEN: u64 = 274877906880;

/// Key length of the ChaCha family, in bytes.
pub const CHACHA_KEY_SIZE: usize = 32;

/// Nonce length of the ChaCha family, in bytes.
pub const CHACHA_IV_SIZE: usize = 12;

/// The keystream byte of ChaCha8 at the absolute position `pos`, under the
/// given key and nonce.
pub uninterp spec fn chacha8_keystream(key: Seq<u8>, iv: Seq<u8>, pos: u64) -> u8;

/// The keystream byte of ChaCha12 at the absolute position `pos`.
pub uninterp spec fn chacha12_keystream(key: Seq<u8>, iv: Seq<u8>, pos: u64) -> u8;

/// The keystream byte of ChaCha20 at the absolute position `pos`.
pub uninterp spec fn chacha20_keystream(key: Seq<u8>, iv: Seq<u8>, pos: u64) -> u8;

/// `chacha20::ChaCha8`: `new`, `try_seek` to `pos`, then
/// `try_apply_keystream` on `buf`.
///
/// Claims that every byte of `buf` is XORed with the keystream byte of its
/// absolute position, which key, nonce and position determine; and that the
/// calls succeed while the data ends within the keystream: the seek takes a
/// position whose block number fits in 32 bits, and the keystream is
/// applied unless it would need a block behind block 2^32 - 2. `new` takes
/// a key of 32 and a nonce of 12 bytes, and nothing else.
#[verifier::external_body]
pub(crate) fn chacha8_apply(key: &[u8], iv: &[u8], pos: u64, buf: &mut [u8]) -> (r: Result<
    (),
    cipher::StreamCipherError,
>)
    requires
        key@.len() == CHACHA_KEY_SIZE,
        iv@.len() == CHACHA_IV_SIZE,
        pos + old(buf)@.len() <= CHACHA_STREAM_LEN,
    ensures
        r is Ok,
        final(buf)@.len() == old(buf)@.len(),
        forall|i: int|
            0 <= i < old(buf)@.len() ==> #[trigger] final(buf)@[i] == old(buf)@[i]
                ^ chacha8_keystream(key@, iv@, (pos + i) as u64),
{
    let mut c = chacha20::ChaCha8::new(key.into(), iv.into());
    c.try_seek(pos)?;
    c.try_apply_keystream(buf)
}

/// `chacha20::ChaCha12`: `new`, `try_seek` to `pos`, then
/// `try_apply_keystream` on `buf`.
///
/// Claims that every byte of `buf` is XORed with the keystream byte of its
/// absolute position, which key, nonce and position determine; and that the
/// calls succeed while the data ends within the keystream: the seek takes a
/// position whose block number fits in 32 bits, and the keystream is
/// applied unless it would need a block behind block 2^32 - 2. `new` takes
/// a key of 32 and a nonce of 12 bytes, and nothing else.
#[verifier::external_body]
pub(crate) fn chacha12_apply(key: &[u8], iv: &[u8], pos: u64, buf: &mut [u8]) -> (r: Result<
    (),
    cipher::StreamCipherError,
>)
    requires
        key@.len() == CHACHA_KEY_SIZE,
        iv@.len() == CHACHA_IV_SIZE,
        pos + old(buf)@.len() <= CHACHA_STREAM_LEN,
    ensures
        r is Ok,
        final(buf)@.len() == old(buf)@.len(),
        forall|i: int|
            0 <= i < old(buf)@.len() ==> #[trigger] final(buf)@[i] == old(buf)@[i]
                ^ chacha12_keystream(key@, iv@, (pos + i) as u64),
{
    let mut c = chacha20::ChaCha12::new(key.into(), iv.into());
    c.try_seek(pos)?;
    c.try_apply_keystream(buf)
}

/// `chacha20::ChaCha20`: `new`, `try_seek` to `pos`, then
/// `try_apply_keystream` on `buf`.
///
/// Claims that every byte of `buf` is XORed with the keystream byte of its
/// absolute position, which key, nonce and position determine; and that the
/// calls succeed while the data ends within the keystream: the seek takes a
/// position whose block number fits in 32 bits, and the keystream is
/// applied unless it would need a block behind block 2^32 - 2. `new` takes
/// a key of 32 and a nonce of 12 bytes, and nothing else.
#[verifier::external_body]
pub(crate) fn chacha20_apply(key: &[u8], iv: &[u8], pos: u64, buf: &mut [u8]) -> (r: Result<
    (),
    cipher::StreamCipherError,
>)
    requires
        key@.len() == CHACHA_KEY_SIZE,
        iv@.len() == CHACHA_IV_SIZE,
        pos + old(buf)@.len() <= CHACHA_STREAM_LEN,
    ensures
        r is Ok,
        final(buf)@.len() == old(buf)@.len(),
        forall|i: int|
            0 <= i < old(buf)@.len() ==> #[trigger] final(buf)@[i] == old(buf)@[i]
                ^ chacha20_keystream(key@, iv@, (pos + i) as u64),
{
    let mut c = chacha20::ChaCha20::new(key.into(), iv.into());
    c.try_seek(pos)?;
    c.try_apply_keystream(buf)
}

/// An error value of the stream-cipher traits.
#[verifier::external_body]
pub(crate) fn keystream_end() -> (e: cipher::StreamCipherError) {
    cipher::StreamCipherError
}

/// The standard random number generator of the `rand` crate.
#[verifier::external_type_specification]
#[verifier::external_body]
pub struct ExStdRng(rand::rngs::StdRng);

/// `RngCore::fill_bytes` of `StdRng`: fills `buf` with random bytes. Of
/// the bytes nothing is claimed; the length of `buf` stays.
#[verifier::external_body]
pub(crate) fn rng_fill_bytes(rng: &mut rand::rngs::StdRng, buf: &mut [u8])
    ensures
        final(buf)@.len() == old(buf)@.len(),
{
    rng.fill_bytes(buf)
}

} // verus!
