//! The keyed MAC of the container: HMAC over SHA-256, computed by the `hmac`
//! and `sha2` crates. Everything here is believed, not proved.
use vstd::prelude::*;
use hmac::Mac;

verus! {

/// The error of a tag that does not match.
#[verifier::external_type_specification]
#[verifier::external_body]
pub struct ExMacError(digest::MacError);

/// The error of a key of a length that is not taken.
#[verifier::external_type_specification]
#[verifier::external_body]
pub struct ExInvalidLength(crypto_common::InvalidLength);

/// Length of a tag in bytes.
pub const TAG_SIZE: usize = 32;

/// The HMAC-SHA256 tag of `msg` under `key`.
pub uninterp spec fn hmac_sha256(key: Seq<u8>, msg: Seq<u8>) -> Seq<u8>;

/// `Hmac::<Sha256>::new_from_slice`, `update` and `finalize`: the tag of
/// `msg` under `key`, which is 32 bytes long. A key of any length is taken,
/// so the call does not fail.
#[verifier::external_body]
pub(crate) fn hmac_sha256_tag(key: &[u8], msg: &[u8]) -> (r: Result<
    Vec<u8>,
    crypto_common::InvalidLength,
>)
    ensures
        r is Ok,
        r->Ok_0@ == hmac_sha256(key@, msg@),
        r->Ok_0@.len() == TAG_SIZE,
{
    let mut mac = <hmac::Hmac<sha2::Sha256> as Mac>::new_from_slice(key)?;
    mac.update(msg);
    Ok(mac.finalize().into_bytes().to_vec())
}

/// `Hmac::<Sha256>::new_from_slice`, `update` and `verify_slice`: succeeds
/// exactly when `tag` is the tag of `msg` under `key`. The comparison takes
/// the same time whatever the tag holds.
#[verifier::external_body]
pub(crate) fn hmac_sha256_verify(key: &[u8], msg: &[u8], tag: &[u8]) -> (r: Result<
    (),
    digest::MacError,
>)
    ensures
        r is Ok <==> tag@ == hmac_sha256(key@, msg@),
{
    match <hmac::Hmac<sha2::Sha256> as Mac>::new_from_slice(key) {
        Ok(mut mac) => {
            mac.update(msg);
            mac.verify_slice(tag)
        },
        Err(_) => Err(digest::MacError),
    }
}

} // verus!
