//! The cipher that changes nothing.
use vstd::prelude::*;
use crate::bytes::{lemma_xor_zero, xor_keystream, zeros};
use crate::cipher_factory::{CipherName, KeyIvCipher};
use crate::dyn_cipher::{DynCipher, DynCipherCore};
use crate::error::EnardError;
use crate::keystream::keystream_end;
use cipher::StreamCipherError;

verus! {

/// Cipher implementation that just copies data without encrypting it.
///
/// This is useful for testing purposes as well as being able to verify
/// an archive without actually encrypting it. Its keystream is all zero and
/// as long as a position can say.
#[derive(Debug)]
pub struct NothingCipher {
    pos: u64,
}

/// The keystream of the [`NothingCipher`].
pub open spec fn nothing_keystream() -> Seq<u8> {
    zeros(u64::MAX as nat)
}

impl NothingCipher {
    pub fn new() -> (c: Self)
        ensures
            c.inv(),
            c.pos() == 0,
    {
        Self { pos: 0 }
    }
}

impl Default for NothingCipher {
    fn default() -> (c: Self)
        ensures
            c.inv(),
            c.pos() == 0,
    {
        Self::new()
    }
}

impl DynCipherCore for NothingCipher {
    open spec fn inv(&self) -> bool {
        true
    }

    open spec fn keystream(&self) -> Seq<u8> {
        nothing_keystream()
    }

    closed spec fn pos(&self) -> u64 {
        self.pos
    }

    open spec fn name_spec(&self) -> Seq<u8> {
        <Self as CipherName>::spec_name()
    }

    open spec fn iv_size_spec(&self) -> usize {
        0
    }

    open spec fn key_size_spec(&self) -> usize {
        0
    }

    proof fn lemma_inv(&self) {
    }

    fn try_seek(&mut self, new_pos: u64) -> (r: Result<(), StreamCipherError>) {
        self.pos = new_pos;
        Ok(())
    }

    fn current_pos(&self) -> (p: u64) {
        self.pos
    }

    fn get_name(&self) -> (n: &'static [u8]) {
        <Self as CipherName>::name()
    }

    fn iv_size(&self) -> (n: usize) {
        0
    }

    fn key_size(&self) -> (n: usize) {
        0
    }
}

impl DynCipher for NothingCipher {
    fn try_apply_keystream(&mut self, buf: &mut [u8]) -> (r: Result<(), StreamCipherError>) {
        let len = buf.len();
        if len as u64 > u64::MAX - self.pos {
            return Err(keystream_end());
        }
        proof {
            let same = xor_keystream(buf@, nothing_keystream(), self.pos as int);
            assert forall|i: int| 0 <= i < buf@.len() implies same[i] == buf@[i] by {
                lemma_xor_zero(buf@[i]);
            }
            assert(same =~= buf@);
        }
        self.pos = self.pos + len as u64;
        Ok(())
    }
}

impl CipherName for NothingCipher {
    /// The bytes of `NothingCipher`.
    open spec fn spec_name() -> Seq<u8> {
        seq![
            78u8, 111u8, 116u8, 104u8, 105u8, 110u8, 103u8, 67u8, 105u8, 112u8, 104u8, 101u8,
            114u8,
        ]
    }

    fn name() -> (n: &'static [u8]) {
        let s: &'static str = "NothingCipher";
        proof {
            reveal_strlit("NothingCipher");
            vstd::string::is_ascii_spec_bytes(s);
        }
        let n = s.as_bytes();
        assert(n@ =~= Self::spec_name());
        n
    }
}

impl KeyIvCipher for NothingCipher {
    open spec fn key_len_spec() -> usize {
        0
    }

    open spec fn iv_len_spec() -> usize {
        0
    }

    open spec fn stream_of(key: Seq<u8>, iv: Seq<u8>) -> Seq<u8> {
        nothing_keystream()
    }

    fn key_len() -> (n: usize) {
        0
    }

    fn iv_len() -> (n: usize) {
        0
    }

    fn new_from_slices(key: &[u8], iv: &[u8]) -> (r: Result<Self, EnardError>) {
        if key.len() != 0 || iv.len() != 0 {
            Err(EnardError::InvalidLength)
        } else {
            Ok(Self::new())
        }
    }
}

} // verus!
