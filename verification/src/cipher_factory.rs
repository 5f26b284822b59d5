//! Names, descriptions and factories of ciphers.
use vstd::prelude::*;
use crate::bytes::bytes_eq;
use crate::dyn_cipher::{DynCipher, DynCipherCore};
use crate::error::{EnardError, EnardErrorView};
use crate::keystream::rng_fill_bytes;
use core::marker::PhantomData;
use rand::rngs::StdRng;

verus! {

/// Name a cipher implementation. Used for auto-implementing [`CipherFactory`].
pub trait CipherName {
    /// The name, as a sequence of ascii bytes.
    spec fn spec_name() -> Seq<u8>;

    fn name() -> (n: &'static [u8])
        ensures
            n@ == Self::spec_name(),
    ;
}

/// A cipher that is made from a key and an iv of fixed lengths.
pub trait KeyIvCipher: CipherName + DynCipher {
    /// Key size in bytes.
    spec fn key_len_spec() -> usize;

    /// IV size in bytes.
    spec fn iv_len_spec() -> usize;

    /// The keystream of the cipher made from `key` and `iv`.
    spec fn stream_of(key: Seq<u8>, iv: Seq<u8>) -> Seq<u8>;

    fn key_len() -> (n: usize)
        ensures
            n == Self::key_len_spec(),
    ;

    fn iv_len() -> (n: usize)
        ensures
            n == Self::iv_len_spec(),
    ;

    /// Makes the cipher, at the start of its keystream. Fails with
    /// `InvalidLength` exactly when the key or the iv has the wrong length.
    fn new_from_slices(key: &[u8], iv: &[u8]) -> (r: Result<Self, EnardError>)
        ensures
            r is Ok <==> key@.len() == Self::key_len_spec() && iv@.len() == Self::iv_len_spec(),
            r matches Ok(c) ==> c.inv() && c.pos() == 0 && c.keystream() == Self::stream_of(
                key@,
                iv@,
            ) && c.name_spec() == Self::spec_name() && c.key_size_spec() == Self::key_len_spec()
                && c.iv_size_spec() == Self::iv_len_spec(),
            r matches Err(e) ==> e@ == EnardErrorView::InvalidLength,
    ;
}

/// What a cipher is called and what it needs.
#[derive(Debug, Clone, Copy, PartialEq, Eq)]
pub struct CipherMeta {
    pub name: &'static [u8],
    pub key_size: usize,
    pub iv_size: usize,
}

/// The mathematical value of a [`CipherMeta`].
pub struct CipherMetaView {
    pub name: Seq<u8>,
    pub key_size: usize,
    pub iv_size: usize,
}

impl CipherMeta {
    /// Helper function to generate an IV for this cipher using a cryptographic RNG
    pub fn generate_iv(&self, rng: &mut StdRng) -> (iv: Vec<u8>)
        ensures
            iv@.len() == self.iv_size,
    {
        let mut iv: Vec<u8> = Vec::new();
        iv.resize(self.iv_size, 0u8);
        rng_fill_bytes(rng, iv.as_mut_slice());
        iv
    }
}

impl View for CipherMeta {
    type V = CipherMetaView;

    open spec fn view(&self) -> CipherMetaView {
        CipherMetaView { name: self.name@, key_size: self.key_size, iv_size: self.iv_size }
    }
}

/// What `create` of a factory returns for a name that it supports: the
/// cipher at position 0 of the keystream `stream`, or `InvalidLength`.
pub open spec fn created<C: DynCipher>(
    r: Result<C, EnardError>,
    meta: CipherMetaView,
    stream: Seq<u8>,
    key: Seq<u8>,
    iv: Seq<u8>,
) -> bool {
    match r {
        Ok(c) => key.len() == meta.key_size && iv.len() == meta.iv_size && c.inv() && c.pos() == 0
            && c.keystream() == stream && c.name_spec() == meta.name && c.key_size_spec()
            == meta.key_size && c.iv_size_spec() == meta.iv_size,
        Err(e) => !(key.len() == meta.key_size && iv.len() == meta.iv_size) && e@
            == EnardErrorView::InvalidLength,
    }
}

/// Factory for creating [`DynCipher`] objects.
///
/// When calling [`CipherFactory::create`] on the factory of a concrete
/// cipher the name is of little use; [`crate::dyn_cipher::BoxDynCipher`]
/// may not support the named cipher type, thus the construction *may* return
/// an error.
pub trait CipherFactory<C: DynCipher> {
    /// Whether the factory makes a cipher for this name.
    spec fn supports(&self, name: Seq<u8>) -> bool;

    /// The description of the cipher that the name selects.
    spec fn meta_spec(&self, name: Seq<u8>) -> CipherMetaView;

    /// The keystream of the cipher that the name selects, under a key and
    /// an iv.
    spec fn keystream_spec(&self, name: Seq<u8>, key: Seq<u8>, iv: Seq<u8>) -> Seq<u8>;

    /// Returns a [`CipherMeta`] representing the cipher with the given name,
    /// or an error if this factory doesn't support that cipher.
    fn get_meta(&self, name: &[u8]) -> (r: Result<CipherMeta, EnardError>)
        ensures
            r is Ok <==> self.supports(name@),
            r matches Ok(m) ==> m@ == self.meta_spec(name@),
            r matches Err(e) ==> e@ == (EnardErrorView::UnsupportedEncryption { kind: name@ }),
    ;

    /// Construct a new cipher with the given name, encryption key, and IV.
    ///
    /// Returns `UnsupportedEncryption` if this factory doesn't support the
    /// named cipher, else `InvalidLength` if the key or the iv has not the
    /// length that the cipher's description gives.
    fn create(&self, name: &[u8], key: &[u8], iv: &[u8]) -> (r: Result<C, EnardError>)
        ensures
            !self.supports(name@) ==> r is Err && r->Err_0@ == (
            EnardErrorView::UnsupportedEncryption { kind: name@ }),
            self.supports(name@) ==> created(
                r,
                self.meta_spec(name@),
                self.keystream_spec(name@, key@, iv@),
                key@,
                iv@,
            ),
    ;
}

/// Default implementation of [`CipherFactory`] for concrete ciphers (e.g. ChaCha12).
pub struct SimpleCipherFactory<C> {
    phantom: PhantomData<C>,
}

impl<C> SimpleCipherFactory<C> {
    pub fn new() -> Self {
        Self { phantom: PhantomData }
    }
}

/// The description of the cipher `C`.
pub open spec fn meta_of<C: KeyIvCipher>() -> CipherMetaView {
    CipherMetaView {
        name: C::spec_name(),
        key_size: C::key_len_spec(),
        iv_size: C::iv_len_spec(),
    }
}

/// Whether `name` selects the cipher called `own`: it is that name, or empty.
pub open spec fn name_matches(name: Seq<u8>, own: Seq<u8>) -> bool {
    name.len() == 0 || name == own
}

impl<C: KeyIvCipher> CipherFactory<C> for SimpleCipherFactory<C> {
    open spec fn supports(&self, name: Seq<u8>) -> bool {
        name_matches(name, C::spec_name())
    }

    open spec fn meta_spec(&self, name: Seq<u8>) -> CipherMetaView {
        meta_of::<C>()
    }

    open spec fn keystream_spec(&self, name: Seq<u8>, key: Seq<u8>, iv: Seq<u8>) -> Seq<u8> {
        C::stream_of(key, iv)
    }

    fn get_meta(&self, name: &[u8]) -> (r: Result<CipherMeta, EnardError>) {
        match check_supported_name::<C>(name) {
            Ok(()) => Ok(
                CipherMeta { name: C::name(), key_size: C::key_len(), iv_size: C::iv_len() },
            ),
            Err(e) => Err(e),
        }
    }

    fn create(&self, name: &[u8], key: &[u8], iv: &[u8]) -> (r: Result<C, EnardError>) {
        match check_supported_name::<C>(name) {
            Ok(()) => C::new_from_slices(key, iv),
            Err(e) => Err(e),
        }
    }
}

/// If `name` is either the same `C`'s name or an empty slice, returns `()`,
/// otherwise returns an error.
pub fn check_supported_name<C: CipherName>(name: &[u8]) -> (r: Result<(), EnardError>)
    ensures
        r is Ok <==> name_matches(name@, C::spec_name()),
        r matches Err(e) ==> e@ == (EnardErrorView::UnsupportedEncryption { kind: name@ }),
{
    if name.len() == 0 || bytes_eq(name, C::name()) {
        Ok(())
    } else {
        Err(EnardError::new_unsupported_encryption(name))
    }
}

/// Simple trait to allow easily getting the a factory object for the given cipher type.
pub trait GetFactory<Cf> {
    fn factory() -> Cf;
}

impl<C: KeyIvCipher> GetFactory<SimpleCipherFactory<C>> for C {
    fn factory() -> SimpleCipherFactory<C> {
        SimpleCipherFactory::new()
    }
}

} // verus!
