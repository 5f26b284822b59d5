//! Whole files at once: encrypting a payload into a container and getting
//! it back out of one.
use vstd::prelude::*;
use crate::bytes::extend_bytes;
use crate::cipher_factory::{CipherFactory, GetFactory};
use crate::dyn_cipher::{BoxDynCipher, BoxDynCipherFactory};
use crate::error::{EnardError, EnardErrorView, IoErrorKind};
use crate::format::{entries_fault, header_fault, Entries, HEADER_START, META_MAX};
use crate::keystream::CHACHA_STREAM_LEN;
use crate::meta::MetaMap;
use crate::options::SupportedCiphers;
use crate::reader::{parse_container, EnardReader};
use crate::round_trip::{sealed, unsealed};
use crate::writer::EnardWriter;
use rand::rngs::StdRng;
use vstd::slice::slice_subrange;

verus! {

/// Why a file could not be encrypted.
#[derive(Debug)]
pub enum EncryptError {
    /// The key has `len` bytes where the cipher asks for `want`.
    KeyLength { len: usize, want: usize },
    /// The container could not be written.
    Enard(EnardError),
}

/// Size of the pieces in which a container is read.
pub const COPY_BUF_SIZE: usize = 8192;

/// Length of the keystream of a cipher.
pub open spec fn keystream_len(kind: SupportedCiphers) -> nat {
    match kind {
        SupportedCiphers::Nothing => u64::MAX as nat,
        _ => CHACHA_STREAM_LEN as nat,
    }
}

/// The first bound that the metadata breaks: the number of entries, then
/// each entry's key and value in turn.
pub open spec fn meta_fault(e: Entries) -> Option<(u64, u64)> {
    if e.len() > META_MAX {
        Some((e.len() as u64, META_MAX as u64))
    } else {
        entries_fault(e)
    }
}

/// Encrypts `input` with the chosen cipher under `key` and a random iv, and
/// appends the container, with the metadata `meta`, to `output`. Returns
/// the output and the number of bytes appended.
///
/// A key of the wrong length for the cipher is refused first, then
/// metadata over the bounds of the format, then an input that is longer
/// than the keystream of the cipher.
pub fn encrypt_file(
    input: &[u8],
    output: Vec<u8>,
    cipher_kind: SupportedCiphers,
    key: &[u8],
    meta: MetaMap,
    rng: &mut StdRng,
) -> (r: Result<(Vec<u8>, u64), EncryptError>)
    requires
        meta.inv(),
    ensures
        ({
            let name = cipher_kind.spec_name_bytes();
            let want = BoxDynCipherFactory.meta_spec(name);
            if key@.len() != want.key_size {
                r matches Err(EncryptError::KeyLength { len, want: w }) && len == key@.len() && w
                    == want.key_size
            } else {
                match meta_fault(meta.entries()) {
                    Some((size, limit)) => r matches Err(EncryptError::Enard(e)) && e@ == (
                    EnardErrorView::BlockTooLarge { size, limit }),
                    None => if input@.len() <= keystream_len(cipher_kind) {
                        r matches Ok((out, n)) && exists|iv: Seq<u8>|
                            {
                                &&& iv.len() == want.iv_size
                                &&& #[trigger] sealed::<BoxDynCipher, BoxDynCipherFactory>(
                                    BoxDynCipherFactory,
                                    key@,
                                    name,
                                    iv,
                                    meta.entries(),
                                    input@,
                                ) == out@.subrange(output@.len() as int, out@.len() as int)
                                &&& out@.subrange(0, output@.len() as int) == output@
                                &&& n == out@.len() - output@.len()
                            }
                    } else {
                        r matches Err(EncryptError::Enard(e)) && e@ == EnardErrorView::IO(
                            IoErrorKind::Other,
                        )
                    },
                }
            }
        }),
{
    // Get the meta for the selected cipher type and generate an IV
    let factory = BoxDynCipher::factory();
    let name = cipher_kind.name_bytes();
    let c_meta = match factory.get_meta(name) {
        Ok(m) => m,
        Err(e) => {
            return Err(EncryptError::Enard(e));
        },
    };
    if key.len() != c_meta.key_size {
        return Err(EncryptError::KeyLength { len: key.len(), want: c_meta.key_size });
    }
    let iv = c_meta.generate_iv(rng);
    let ghost before = output@;
    let ghost entries = meta.entries();
    let mut wr = match EnardWriter::new(output, factory, name, key, iv.as_slice(), meta) {
        Ok(w) => w,
        Err(e) => {
            return Err(EncryptError::Enard(e));
        },
    };
    proof {
        assert(header_fault(name@, iv@, entries) == meta_fault(entries));
        assert(BoxDynCipherFactory.keystream_spec(name@, key@, iv@).len() == keystream_len(
            cipher_kind,
        ));
    }
    match wr.write_complete(input) {
        Ok(n) => {
            let out = wr.into_inner();
            proof {
                let file = sealed::<BoxDynCipher, BoxDynCipherFactory>(
                    BoxDynCipherFactory,
                    key@,
                    name@,
                    iv@,
                    entries,
                    input@,
                );
                assert(out@.subrange(before.len() as int, out@.len() as int) =~= file);
                assert(out@.subrange(0, before.len() as int) =~= before);
            }
            Ok((out, n))
        },
        Err(e) => Err(EncryptError::Enard(e)),
    }
}

/// Opens the container `input` with `key` and returns its decrypted data.
///
/// It fails as opening the container fails; and where the data is longer
/// than the keystream of its cipher, it fails in the cipher.
pub fn decrypt_file(input: Vec<u8>, key: &[u8]) -> (r: Result<Vec<u8>, EnardError>)
    ensures
        match parse_container::<BoxDynCipher, BoxDynCipherFactory>(
            BoxDynCipherFactory,
            input@,
            key@,
        ) {
            Err(e) => r is Err && r->Err_0@ == e,
            Ok(o) => if o.data_size <= BoxDynCipherFactory.keystream_spec(
                o.name,
                key@,
                o.iv,
            ).len() {
                r is Ok && Ok::<Seq<u8>, EnardErrorView>(r->Ok_0@) == unsealed::<
                    BoxDynCipher,
                    BoxDynCipherFactory,
                >(BoxDynCipherFactory, input@, key@)
            } else {
                r is Err && r->Err_0@ == EnardErrorView::IO(IoErrorKind::Other)
            },
        },
{
    let mut rd = match EnardReader::new_boxed(input, key) {
        Ok(rd) => rd,
        Err(e) => {
            return Err(e);
        },
    };
    let ghost opened = rd;
    let ghost o = parse_container::<BoxDynCipher, BoxDynCipherFactory>(
        BoxDynCipherFactory,
        input@,
        key@,
    )->Ok_0;
    let mut out: Vec<u8> = Vec::new();
    let mut buf: Vec<u8> = Vec::new();
    buf.resize(COPY_BUF_SIZE, 0u8);
    loop
        invariant
            rd.inv(),
            rd.same_file(&opened),
            opened.source() == input@,
            parse_container::<BoxDynCipher, BoxDynCipherFactory>(
                BoxDynCipherFactory,
                input@,
                key@,
            ) == Ok::<crate::reader::Opened, EnardErrorView>(o),
            opened.data_start() == HEADER_START + o.header_size,
            opened.data_size() == o.data_size,
            opened.keystream() == BoxDynCipherFactory.keystream_spec(o.name, key@, o.iv),
            buf@.len() == COPY_BUF_SIZE,
            rd.position() <= rd.data_size(),
            rd.position() <= rd.keystream().len(),
            out@ == rd.plaintext().subrange(0, rd.position() as int),
        decreases rd.data_size() - rd.position(),
    {
        let ghost at = rd.position();
        let n = match rd.read(buf.as_mut_slice()) {
            Ok(n) => n,
            Err(e) => {
                return Err(EnardError::IO(e));
            },
        };
        if n == 0 {
            proof {
                rd.lemma_inv();
                assert(rd.position() == rd.data_size());
                assert(rd.plaintext().subrange(0, rd.data_size() as int) =~= rd.plaintext());
            }
            return Ok(out);
        }
        let ghost prev = out@;
        extend_bytes(&mut out, slice_subrange(buf.as_slice(), 0, n));
        proof {
            rd.lemma_inv();
            assert(out@ =~= rd.plaintext().subrange(0, at + n));
        }
    }
}

} // verus!
