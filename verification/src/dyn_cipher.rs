//! The capability interface of a seekable stream cipher.
use vstd::prelude::*;
use crate::bytes::{bytes_eq, xor_keystream};
use crate::chacha::{ChaCha12, ChaCha20, ChaCha8};
use crate::cipher_factory::{
    meta_of,
    CipherFactory,
    CipherMeta,
    CipherMetaView,
    CipherName,
    GetFactory,
    KeyIvCipher,
    SimpleCipherFactory,
};
use crate::error::EnardError;
use crate::nothing_cipher::NothingCipher;
use cipher::StreamCipherError;

verus! {

/// Position and introspection of a seekable stream cipher.
///
/// A cipher is described by its whole keystream, a sequence of bytes fixed
/// when the cipher is made, and by a position in it.
pub trait DynCipherCore: Sized {
    /// What holds of every cipher that the library hands out.
    spec fn inv(&self) -> bool;

    /// The keystream from its first byte to its end.
    spec fn keystream(&self) -> Seq<u8>;

    /// The position in the keystream of the next byte to be used.
    spec fn pos(&self) -> u64;

    /// The ascii name of the cipher.
    spec fn name_spec(&self) -> Seq<u8>;

    /// IV size in bytes.
    spec fn iv_size_spec(&self) -> usize;

    /// Key size in bytes.
    spec fn key_size_spec(&self) -> usize;

    /// The keystream is not longer than a position can say.
    proof fn lemma_inv(&self)
        requires
            self.inv(),
        ensures
            self.pos() <= self.keystream().len() <= u64::MAX,
    ;

    /// Try to seek to the given position in the key stream. Any position up
    /// to the end of the keystream can be reached; a failed seek changes
    /// nothing.
    fn try_seek(&mut self, new_pos: u64) -> (r: Result<(), StreamCipherError>)
        requires
            old(self).inv(),
        ensures
            final(self).inv(),
            final(self).keystream() == old(self).keystream(),
            final(self).name_spec() == old(self).name_spec(),
            final(self).iv_size_spec() == old(self).iv_size_spec(),
            final(self).key_size_spec() == old(self).key_size_spec(),
            r is Ok <==> new_pos <= old(self).keystream().len(),
            r is Ok ==> final(self).pos() == new_pos,
            r is Err ==> final(self).pos() == old(self).pos(),
    ;

    /// Returns the current position in the key stream
    fn current_pos(&self) -> (p: u64)
        requires
            self.inv(),
        ensures
            p == self.pos(),
    ;

    /// Returns the ascii name of this cipher
    fn get_name(&self) -> (n: &'static [u8])
        requires
            self.inv(),
        ensures
            n@ == self.name_spec(),
    ;

    /// IV size in bytes
    fn iv_size(&self) -> (n: usize)
        requires
            self.inv(),
        ensures
            n == self.iv_size_spec(),
    ;

    /// Key size in bytes
    fn key_size(&self) -> (n: usize)
        requires
            self.inv(),
        ensures
            n == self.key_size_spec(),
    ;
}

/// Interface for seekable stream ciphers.
pub trait DynCipher: DynCipherCore + Send {
    /// XORs `buf` in place with the keystream at the current position and
    /// moves the position on by the length of `buf`. Where the keystream
    /// ends before the data does, nothing is changed and an error returned.
    fn try_apply_keystream(&mut self, buf: &mut [u8]) -> (r: Result<(), StreamCipherError>)
        requires
            old(self).inv(),
        ensures
            final(self).inv(),
            final(self).keystream() == old(self).keystream(),
            final(self).name_spec() == old(self).name_spec(),
            final(self).iv_size_spec() == old(self).iv_size_spec(),
            final(self).key_size_spec() == old(self).key_size_spec(),
            r is Ok <==> old(self).pos() + old(buf)@.len() <= old(self).keystream().len(),
            r is Ok ==> final(self).pos() == old(self).pos() + old(buf)@.len() && final(buf)@
                == xor_keystream(old(buf)@, old(self).keystream(), old(self).pos() as int),
            r is Err ==> final(self).pos() == old(self).pos() && final(buf)@ == old(buf)@,
    ;
}

/// The ciphers that are compiled in.
pub enum RegisteredCipher {
    Nothing(NothingCipher),
    ChaCha8(ChaCha8),
    ChaCha12(ChaCha12),
    ChaCha20(ChaCha20),
}

/// Wraps any one of the compiled-in ciphers and also provides a
/// [`CipherFactory`] which dynamically selects the cipher implementation
/// based on the provided name.
pub struct BoxDynCipher(pub RegisteredCipher);

impl GetFactory<BoxDynCipherFactory> for BoxDynCipher {
    fn factory() -> BoxDynCipherFactory {
        BoxDynCipherFactory
    }
}

impl DynCipherCore for BoxDynCipher {
    open spec fn inv(&self) -> bool {
        match self.0 {
            RegisteredCipher::Nothing(c) => c.inv(),
            RegisteredCipher::ChaCha8(c) => c.inv(),
            RegisteredCipher::ChaCha12(c) => c.inv(),
            RegisteredCipher::ChaCha20(c) => c.inv(),
        }
    }

    open spec fn keystream(&self) -> Seq<u8> {
        match self.0 {
            RegisteredCipher::Nothing(c) => c.keystream(),
            RegisteredCipher::ChaCha8(c) => c.keystream(),
            RegisteredCipher::ChaCha12(c) => c.keystream(),
            RegisteredCipher::ChaCha20(c) => c.keystream(),
        }
    }

    open spec fn pos(&self) -> u64 {
        match self.0 {
            RegisteredCipher::Nothing(c) => c.pos(),
            RegisteredCipher::ChaCha8(c) => c.pos(),
            RegisteredCipher::ChaCha12(c) => c.pos(),
            RegisteredCipher::ChaCha20(c) => c.pos(),
        }
    }

    open spec fn name_spec(&self) -> Seq<u8> {
        match self.0 {
            RegisteredCipher::Nothing(c) => c.name_spec(),
            RegisteredCipher::ChaCha8(c) => c.name_spec(),
            RegisteredCipher::ChaCha12(c) => c.name_spec(),
            RegisteredCipher::ChaCha20(c) => c.name_spec(),
        }
    }

    open spec fn iv_size_spec(&self) -> usize {
        match self.0 {
            RegisteredCipher::Nothing(c) => c.iv_size_spec(),
            RegisteredCipher::ChaCha8(c) => c.iv_size_spec(),
            RegisteredCipher::ChaCha12(c) => c.iv_size_spec(),
            RegisteredCipher::ChaCha20(c) => c.iv_size_spec(),
        }
    }

    open spec fn key_size_spec(&self) -> usize {
        match self.0 {
            RegisteredCipher::Nothing(c) => c.key_size_spec(),
            RegisteredCipher::ChaCha8(c) => c.key_size_spec(),
            RegisteredCipher::ChaCha12(c) => c.key_size_spec(),
            RegisteredCipher::ChaCha20(c) => c.key_size_spec(),
        }
    }

    proof fn lemma_inv(&self) {
        match self.0 {
            RegisteredCipher::Nothing(c) => c.lemma_inv(),
            RegisteredCipher::ChaCha8(c) => c.lemma_inv(),
            RegisteredCipher::ChaCha12(c) => c.lemma_inv(),
            RegisteredCipher::ChaCha20(c) => c.lemma_inv(),
        }
    }

    fn try_seek(&mut self, new_pos: u64) -> (r: Result<(), StreamCipherError>) {
        match &mut self.0 {
            RegisteredCipher::Nothing(c) => c.try_seek(new_pos),
            RegisteredCipher::ChaCha8(c) => c.try_seek(new_pos),
            RegisteredCipher::ChaCha12(c) => c.try_seek(new_pos),
            RegisteredCipher::ChaCha20(c) => c.try_seek(new_pos),
        }
    }

    fn current_pos(&self) -> (p: u64) {
        match &self.0 {
            RegisteredCipher::Nothing(c) => c.current_pos(),
            RegisteredCipher::ChaCha8(c) => c.current_pos(),
            RegisteredCipher::ChaCha12(c) => c.current_pos(),
            RegisteredCipher::ChaCha20(c) => c.current_pos(),
        }
    }

    fn get_name(&self) -> (n: &'static [u8]) {
        match &self.0 {
            RegisteredCipher::Nothing(c) => c.get_name(),
            RegisteredCipher::ChaCha8(c) => c.get_name(),
            RegisteredCipher::ChaCha12(c) => c.get_name(),
            RegisteredCipher::ChaCha20(c) => c.get_name(),
        }
    }

    fn iv_size(&self) -> (n: usize) {
        match &self.0 {
            RegisteredCipher::Nothing(c) => c.iv_size(),
            RegisteredCipher::ChaCha8(c) => c.iv_size(),
            RegisteredCipher::ChaCha12(c) => c.iv_size(),
            RegisteredCipher::ChaCha20(c) => c.iv_size(),
        }
    }

    fn key_size(&self) -> (n: usize) {
        match &self.0 {
            RegisteredCipher::Nothing(c) => c.key_size(),
            RegisteredCipher::ChaCha8(c) => c.key_size(),
            RegisteredCipher::ChaCha12(c) => c.key_size(),
            RegisteredCipher::ChaCha20(c) => c.key_size(),
        }
    }
}

impl DynCipher for BoxDynCipher {
    fn try_apply_keystream(&mut self, buf: &mut [u8]) -> (r: Result<(), StreamCipherError>) {
        match &mut self.0 {
            RegisteredCipher::Nothing(c) => c.try_apply_keystream(buf),
            RegisteredCipher::ChaCha8(c) => c.try_apply_keystream(buf),
            RegisteredCipher::ChaCha12(c) => c.try_apply_keystream(buf),
            RegisteredCipher::ChaCha20(c) => c.try_apply_keystream(buf),
        }
    }
}

/// The factory of [`BoxDynCipher`]: it knows the compiled-in ciphers by
/// their exact names, none of which is empty. The empty name, which the
/// factory of a single cipher takes for that cipher, selects nothing here.
#[derive(Debug)]
pub struct BoxDynCipherFactory;

impl CipherFactory<BoxDynCipher> for BoxDynCipherFactory {
    open spec fn supports(&self, name: Seq<u8>) -> bool {
        name == NothingCipher::spec_name() || name == ChaCha8::spec_name() || name
            == ChaCha12::spec_name() || name == ChaCha20::spec_name()
    }

    open spec fn meta_spec(&self, name: Seq<u8>) -> CipherMetaView {
        if name == NothingCipher::spec_name() {
            meta_of::<NothingCipher>()
        } else if name == ChaCha8::spec_name() {
            meta_of::<ChaCha8>()
        } else if name == ChaCha12::spec_name() {
            meta_of::<ChaCha12>()
        } else {
            meta_of::<ChaCha20>()
        }
    }

    open spec fn keystream_spec(&self, name: Seq<u8>, key: Seq<u8>, iv: Seq<u8>) -> Seq<u8> {
        if name == NothingCipher::spec_name() {
            NothingCipher::stream_of(key, iv)
        } else if name == ChaCha8::spec_name() {
            ChaCha8::stream_of(key, iv)
        } else if name == ChaCha12::spec_name() {
            ChaCha12::stream_of(key, iv)
        } else {
            ChaCha20::stream_of(key, iv)
        }
    }

    fn get_meta(&self, name: &[u8]) -> (r: Result<CipherMeta, EnardError>) {
        if bytes_eq(name, NothingCipher::name()) {
            return SimpleCipherFactory::<NothingCipher>::new().get_meta(name);
        }
        if bytes_eq(name, ChaCha8::name()) {
            return SimpleCipherFactory::<ChaCha8>::new().get_meta(name);
        }
        if bytes_eq(name, ChaCha12::name()) {
            return SimpleCipherFactory::<ChaCha12>::new().get_meta(name);
        }
        if bytes_eq(name, ChaCha20::name()) {
            return SimpleCipherFactory::<ChaCha20>::new().get_meta(name);
        }
        // If that all fails, error out

        Err(EnardError::new_unsupported_encryption(name))
    }

    fn create(&self, name: &[u8], key: &[u8], iv: &[u8]) -> (r: Result<BoxDynCipher, EnardError>) {
        if bytes_eq(name, NothingCipher::name()) {
            return match SimpleCipherFactory::<NothingCipher>::new().create(name, key, iv) {
                Ok(cipher) => Ok(BoxDynCipher(RegisteredCipher::Nothing(cipher))),
                Err(e) => Err(e),
            };
        }
        if bytes_eq(name, ChaCha8::name()) {
            return match SimpleCipherFactory::<ChaCha8>::new().create(name, key, iv) {
                Ok(cipher) => Ok(BoxDynCipher(RegisteredCipher::ChaCha8(cipher))),
                Err(e) => Err(e),
            };
        }
        if bytes_eq(name, ChaCha12::name()) {
            return match SimpleCipherFactory::<ChaCha12>::new().create(name, key, iv) {
                Ok(cipher) => Ok(BoxDynCipher(RegisteredCipher::ChaCha12(cipher))),
                Err(e) => Err(e),
            };
        }
        if bytes_eq(name, ChaCha20::name()) {
            return match SimpleCipherFactory::<ChaCha20>::new().create(name, key, iv) {
                Ok(cipher) => Ok(BoxDynCipher(RegisteredCipher::ChaCha20(cipher))),
                Err(e) => Err(e),
            };
        }
        // If that all fails, error out

        Err(EnardError::new_unsupported_encryption(name))
    }
}

/// The registry refuses the empty name: each of its ciphers has a name of
/// its own, and none of these is empty.
pub proof fn lemma_registry_refuses_empty()
    ensures
        !BoxDynCipherFactory.supports(Seq::<u8>::empty()),
        NothingCipher::spec_name().len() == 13,
        ChaCha8::spec_name().len() == 7,
        ChaCha12::spec_name().len() == 8,
        ChaCha20::spec_name().len() == 8,
        ChaCha12::spec_name() != ChaCha20::spec_name(),
{
    let empty = Seq::<u8>::empty();
    assert(empty.len() == 0);
    assert(NothingCipher::spec_name().len() == 13);
    assert(ChaCha8::spec_name().len() == 7);
    assert(ChaCha12::spec_name().len() == 8);
    assert(ChaCha20::spec_name().len() == 8);
    assert(ChaCha12::spec_name()[6] != ChaCha20::spec_name()[6]);
}

} // verus!
