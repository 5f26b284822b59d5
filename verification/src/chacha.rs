//! The ChaCha family of stream ciphers, at 8, 12 and 20 rounds.
//!
//! A cipher here is its key, its nonce and a position. The keystream bytes
//! come from the `chacha20` crate, which is asked anew for every buffer.
use vstd::prelude::*;
use crate::bytes::{bytes_to_vec, xor_keystream};
use crate::cipher_factory::{CipherName, KeyIvCipher};
use crate::dyn_cipher::{DynCipher, DynCipherCore};
use crate::error::EnardError;
use crate::keystream::{
    chacha12_apply,
    chacha12_keystream,
    chacha20_apply,
    chacha20_keystream,
    chacha8_apply,
    chacha8_keystream,
    keystream_end,
    CHACHA_IV_SIZE,
    CHACHA_KEY_SIZE,
    CHACHA_STREAM_LEN,
};
use cipher::StreamCipherError;
use core::marker::PhantomData;

verus! {

/// One strength of the ChaCha family: its name and its keystream.
pub trait ChaChaRounds: Sized + Send {
    /// The name of the cipher at this strength.
    spec fn spec_name() -> Seq<u8>;

    /// The keystream byte at the absolute position `pos`.
    spec fn stream_byte(key: Seq<u8>, iv: Seq<u8>, pos: u64) -> u8;

    fn name() -> (n: &'static [u8])
        ensures
            n@ == Self::spec_name(),
    ;

    /// XORs `buf` with the keystream that starts at `pos`.
    fn apply(key: &[u8], iv: &[u8], pos: u64, buf: &mut [u8]) -> (r: Result<
        (),
        StreamCipherError,
    >)
        requires
            key@.len() == CHACHA_KEY_SIZE,
            iv@.len() == CHACHA_IV_SIZE,
            pos + old(buf)@.len() <= CHACHA_STREAM_LEN,
        ensures
            r is Ok,
            final(buf)@.len() == old(buf)@.len(),
            forall|i: int|
                0 <= i < old(buf)@.len() ==> #[trigger] final(buf)@[i] == old(buf)@[i]
                    ^ Self::stream_byte(key@, iv@, (pos + i) as u64),
    ;
}

/// Eight rounds.
#[derive(Debug)]
pub struct Rounds8;

/// Twelve rounds.
#[derive(Debug)]
pub struct Rounds12;

/// Twenty rounds.
#[derive(Debug)]
pub struct Rounds20;

impl ChaChaRounds for Rounds8 {
    open spec fn spec_name() -> Seq<u8> {
        seq![67u8, 104u8, 97u8, 67u8, 104u8, 97u8, 56u8]
    }

    open spec fn stream_byte(key: Seq<u8>, iv: Seq<u8>, pos: u64) -> u8 {
        chacha8_keystream(key, iv, pos)
    }

    fn name() -> (n: &'static [u8]) {
        let s: &'static str = "ChaCha8";
        proof {
            reveal_strlit("ChaCha8");
            vstd::string::is_ascii_spec_bytes(s);
        }
        let n = s.as_bytes();
        assert(n@ =~= Self::spec_name());
        n
    }

    fn apply(key: &[u8], iv: &[u8], pos: u64, buf: &mut [u8]) -> (r: Result<
        (),
        StreamCipherError,
    >) {
        chacha8_apply(key, iv, pos, buf)
    }
}

impl ChaChaRounds for Rounds12 {
    open spec fn spec_name() -> Seq<u8> {
        seq![67u8, 104u8, 97u8, 67u8, 104u8, 97u8, 49u8, 50u8]
    }

    open spec fn stream_byte(key: Seq<u8>, iv: Seq<u8>, pos: u64) -> u8 {
        chacha12_keystream(key, iv, pos)
    }

    fn name() -> (n: &'static [u8]) {
        let s: &'static str = "ChaCha12";
        proof {
            reveal_strlit("ChaCha12");
            vstd::string::is_ascii_spec_bytes(s);
        }
        let n = s.as_bytes();
        assert(n@ =~= Self::spec_name());
        n
    }

    fn apply(key: &[u8], iv: &[u8], pos: u64, buf: &mut [u8]) -> (r: Result<
        (),
        StreamCipherError,
    >) {
        chacha12_apply(key, iv, pos, buf)
    }
}

impl ChaChaRounds for Rounds20 {
    open spec fn spec_name() -> Seq<u8> {
        seq![67u8, 104u8, 97u8, 67u8, 104u8, 97u8, 50u8, 48u8]
    }

    open spec fn stream_byte(key: Seq<u8>, iv: Seq<u8>, pos: u64) -> u8 {
        chacha20_keystream(key, iv, pos)
    }

    fn name() -> (n: &'static [u8]) {
        let s: &'static str = "ChaCha20";
        proof {
            reveal_strlit("ChaCha20");
            vstd::string::is_ascii_spec_bytes(s);
        }
        let n = s.as_bytes();
        assert(n@ =~= Self::spec_name());
        n
    }

    fn apply(key: &[u8], iv: &[u8], pos: u64, buf: &mut [u8]) -> (r: Result<
        (),
        StreamCipherError,
    >) {
        chacha20_apply(key, iv, pos, buf)
    }
}

/// The whole keystream of a ChaCha cipher under a key and a nonce.
pub open spec fn chacha_stream<R: ChaChaRounds>(key: Seq<u8>, iv: Seq<u8>) -> Seq<u8> {
    Seq::new(CHACHA_STREAM_LEN as nat, |p: int| R::stream_byte(key, iv, p as u64))
}

/// A ChaCha stream cipher with a 32-byte key and a 12-byte nonce.
///
/// It holds its key, and so does not print itself.
pub struct ChaCha<R: ChaChaRounds> {
    key: Vec<u8>,
    iv: Vec<u8>,
    pos: u64,
    rounds: PhantomData<R>,
}

/// ChaCha8 stream cipher (reduced-round variant of [`ChaCha20`] with 8 rounds)
pub type ChaCha8 = ChaCha<Rounds8>;

/// ChaCha12 stream cipher (reduced-round variant of [`ChaCha20`] with 12 rounds)
pub type ChaCha12 = ChaCha<Rounds12>;

/// ChaCha20 stream cipher (RFC 8439 version with 96-bit nonce)
pub type ChaCha20 = ChaCha<Rounds20>;

impl<R: ChaChaRounds> ChaCha<R> {
    /// The key that the cipher was made from.
    pub closed spec fn key_spec(&self) -> Seq<u8> {
        self.key@
    }

    /// The nonce that the cipher was made from.
    pub closed spec fn iv_spec(&self) -> Seq<u8> {
        self.iv@
    }
}

impl<R: ChaChaRounds> DynCipherCore for ChaCha<R> {
    closed spec fn inv(&self) -> bool {
        &&& self.key@.len() == CHACHA_KEY_SIZE
        &&& self.iv@.len() == CHACHA_IV_SIZE
        &&& self.pos <= CHACHA_STREAM_LEN
    }

    open spec fn keystream(&self) -> Seq<u8> {
        chacha_stream::<R>(self.key_spec(), self.iv_spec())
    }

    closed spec fn pos(&self) -> u64 {
        self.pos
    }

    open spec fn name_spec(&self) -> Seq<u8> {
        R::spec_name()
    }

    open spec fn iv_size_spec(&self) -> usize {
        CHACHA_IV_SIZE
    }

    open spec fn key_size_spec(&self) -> usize {
        CHACHA_KEY_SIZE
    }

    proof fn lemma_inv(&self) {
    }

    fn try_seek(&mut self, new_pos: u64) -> (r: Result<(), StreamCipherError>) {
        if new_pos > CHACHA_STREAM_LEN {
            return Err(keystream_end());
        }
        self.pos = new_pos;
        Ok(())
    }

    fn current_pos(&self) -> (p: u64) {
        self.pos
    }

    fn get_name(&self) -> (n: &'static [u8]) {
        R::name()
    }

    fn iv_size(&self) -> (n: usize) {
        CHACHA_IV_SIZE
    }

    fn key_size(&self) -> (n: usize) {
        CHACHA_KEY_SIZE
    }
}

impl<R: ChaChaRounds> DynCipher for ChaCha<R> {
    fn try_apply_keystream(&mut self, buf: &mut [u8]) -> (r: Result<(), StreamCipherError>) {
        let len = buf.len();
        if len as u64 > CHACHA_STREAM_LEN - self.pos {
            return Err(keystream_end());
        }
        let ghost before = buf@;
        let r = R::apply(self.key.as_slice(), self.iv.as_slice(), self.pos, buf);
        proof {
            let want = xor_keystream(before, self.keystream(), self.pos as int);
            assert forall|i: int| 0 <= i < before.len() implies buf@[i] == want[i] by {
                assert(self.keystream()[self.pos + i] == R::stream_byte(
                    self.key@,
                    self.iv@,
                    (self.pos + i) as u64,
                ));
            }
            assert(buf@ =~= want);
        }
        self.pos = self.pos + len as u64;
        r
    }
}

impl<R: ChaChaRounds> CipherName for ChaCha<R> {
    open spec fn spec_name() -> Seq<u8> {
        R::spec_name()
    }

    fn name() -> (n: &'static [u8]) {
        R::name()
    }
}

impl<R: ChaChaRounds> KeyIvCipher for ChaCha<R> {
    open spec fn key_len_spec() -> usize {
        CHACHA_KEY_SIZE
    }

    open spec fn iv_len_spec() -> usize {
        CHACHA_IV_SIZE
    }

    open spec fn stream_of(key: Seq<u8>, iv: Seq<u8>) -> Seq<u8> {
        chacha_stream::<R>(key, iv)
    }

    fn key_len() -> (n: usize) {
        CHACHA_KEY_SIZE
    }

    fn iv_len() -> (n: usize) {
        CHACHA_IV_SIZE
    }

    fn new_from_slices(key: &[u8], iv: &[u8]) -> (r: Result<Self, EnardError>) {
        if key.len() != CHACHA_KEY_SIZE || iv.len() != CHACHA_IV_SIZE {
            Err(EnardError::InvalidLength)
        } else {
            Ok(ChaCha { key: bytes_to_vec(key), iv: bytes_to_vec(iv), pos: 0, rounds: PhantomData })
        }
    }
}

} // verus!
