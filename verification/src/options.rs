//! What a front end needs to turn its arguments into the library's values:
//! the cipher that was chosen, the key as it was given, a metadata entry.
use vstd::prelude::*;
use crate::bytes::bytes_to_vec;
use crate::chacha::{ChaCha12, ChaCha20, ChaCha8};
use crate::cipher_factory::CipherName;
use crate::nothing_cipher::NothingCipher;
use vstd::slice::{slice_subrange, slice_to_vec};

verus! {

/// The ciphers that can be chosen.
#[derive(Debug, Copy, Clone, PartialEq, Eq, Structural)]
pub enum SupportedCiphers {
    /// No encryption: the cipher that changes nothing.
    Nothing,
    ChaCha8,
    ChaCha12,
    ChaCha20,
}

impl SupportedCiphers {
    /// The name of the cipher, as the registry knows it.
    pub open spec fn spec_name_bytes(&self) -> Seq<u8> {
        match self {
            SupportedCiphers::Nothing => NothingCipher::spec_name(),
            SupportedCiphers::ChaCha8 => ChaCha8::spec_name(),
            SupportedCiphers::ChaCha12 => ChaCha12::spec_name(),
            SupportedCiphers::ChaCha20 => ChaCha20::spec_name(),
        }
    }

    pub fn name_bytes(&self) -> (n: &'static [u8])
        ensures
            n@ == self.spec_name_bytes(),
    {
        match self {
            SupportedCiphers::Nothing => NothingCipher::name(),
            SupportedCiphers::ChaCha8 => ChaCha8::name(),
            SupportedCiphers::ChaCha12 => ChaCha12::name(),
            SupportedCiphers::ChaCha20 => ChaCha20::name(),
        }
    }
}

impl Default for SupportedCiphers {
    fn default() -> (c: Self)
        ensures
            c == SupportedCiphers::ChaCha12,
    {
        SupportedCiphers::ChaCha12
    }
}

/// Why a key could not be decoded.
#[derive(Debug, Copy, Clone, PartialEq, Eq, Structural)]
pub enum KeyError {
    /// A hex string must have an even number of characters.
    OddLength,
    /// A character of a hex string is no hex digit.
    NotHexDigit,
}

/// The value of a hex digit, in either case.
pub open spec fn nibble_spec(b: u8) -> Option<u8> {
    if 48 <= b <= 57 {
        Some((b - 48) as u8)
    } else if 97 <= b <= 102 {
        Some((b - 87) as u8)
    } else if 65 <= b <= 70 {
        Some((b - 55) as u8)
    } else {
        None
    }
}

/// Returns a nibble from a hex character
pub fn nibble(b: u8) -> (r: Result<u8, KeyError>)
    ensures
        match nibble_spec(b) {
            Some(v) => r == Ok::<u8, KeyError>(v) && v < 16,
            None => r == Err::<u8, KeyError>(KeyError::NotHexDigit),
        },
{
    if 48 <= b && b <= 57 {
        Ok(b - 48)
    } else if 97 <= b && b <= 102 {
        Ok(b - 87)
    } else if 65 <= b && b <= 70 {
        Ok(b - 55)
    } else {
        Err(KeyError::NotHexDigit)
    }
}

/// Whether a key is given as a hex string: it starts with `0x`.
pub open spec fn is_hex_key(key: Seq<u8>) -> bool {
    key.len() >= 2 && key[0] == 48 && key[1] == 120
}

/// The byte that two hex digits stand for: the first digit is the low
/// nibble, the second the high one.
pub open spec fn hex_byte(low: u8, high: u8) -> u8 {
    low | (high << 4)
}

/// The first `n` bytes that the digits behind `0x` stand for, if those
/// digits are hex digits.
pub open spec fn hex_decoded(key: Seq<u8>, n: nat) -> Option<Seq<u8>>
    decreases n,
{
    if n == 0 {
        Some(Seq::empty())
    } else {
        match (
            hex_decoded(key, (n - 1) as nat),
            nibble_spec(key[(2 * n) as int]),
            nibble_spec(key[(2 * n + 1) as int]),
        ) {
            (Some(front), Some(low), Some(high)) => Some(front.push(hex_byte(low, high))),
            _ => None,
        }
    }
}

/// The key that an argument stands for: behind `0x` its bytes are given by
/// two hex digits each, else the argument is the key.
pub open spec fn key_spec(key: Seq<u8>) -> Result<Seq<u8>, KeyError> {
    if !is_hex_key(key) {
        Ok(key)
    } else if key.len() % 2 != 0 {
        Err(KeyError::OddLength)
    } else {
        match hex_decoded(key, ((key.len() - 2) / 2) as nat) {
            Some(buf) => Ok(buf),
            None => Err(KeyError::NotHexDigit),
        }
    }
}

/// Decodes a key: if it starts with "0x" it is decoded as a hex string,
/// otherwise its bytes are the key.
pub fn key_to_buf(key: &[u8]) -> (r: Result<Vec<u8>, KeyError>)
    ensures
        match key_spec(key@) {
            Ok(buf) => r is Ok && r->Ok_0@ == buf,
            Err(e) => r == Err::<Vec<u8>, KeyError>(e),
        },
{
    let len = key.len();
    if len >= 2 && key[0] == 48 && key[1] == 120 {
        if len % 2 != 0 {
            return Err(KeyError::OddLength);
        }
        let mut buf: Vec<u8> = Vec::new();
        let mut i: usize = 2;
        let ghost mut n: nat = 0;
        while i < len
            invariant
                len == key@.len(),
                is_hex_key(key@),
                len % 2 == 0,
                2 <= i <= len,
                i == 2 + 2 * n,
                hex_decoded(key@, n) == Some(buf@),
            decreases len - i,
        {
            proof {
                // what the next pair of digits decides
                assert(hex_decoded(key@, n + 1) == match (
                    hex_decoded(key@, n),
                    nibble_spec(key@[(2 * (n + 1)) as int]),
                    nibble_spec(key@[(2 * (n + 1) + 1) as int]),
                ) {
                    (Some(front), Some(low), Some(high)) => Some(front.push(hex_byte(low, high))),
                    _ => None,
                });
            }
            let n0 = match nibble(key[i]) {
                Ok(v) => v,
                Err(e) => {
                    proof {
                        assert(hex_decoded(key@, n + 1) is None);
                        lemma_hex_decoded_fails(key@, n + 1, ((len - 2) / 2) as nat);
                    }
                    return Err(e);
                },
            };
            let n1 = match nibble(key[i + 1]) {
                Ok(v) => v,
                Err(e) => {
                    proof {
                        assert(hex_decoded(key@, n + 1) is None);
                        lemma_hex_decoded_fails(key@, n + 1, ((len - 2) / 2) as nat);
                    }
                    return Err(e);
                },
            };
            buf.push(n0 | (n1 << 4));
            i += 2;
            proof {
                n = n + 1;
            }
        }
        Ok(buf)
    } else {
        Ok(bytes_to_vec(key))
    }
}

/// Once a pair of digits fails, the whole string does.
pub proof fn lemma_hex_decoded_fails(key: Seq<u8>, n: nat, m: nat)
    requires
        n <= m,
        hex_decoded(key, n) is None,
    ensures
        hex_decoded(key, m) is None,
    decreases m,
{
    if n < m {
        lemma_hex_decoded_fails(key, n, (m - 1) as nat);
    }
}

/// A metadata entry given as `<KEY>=<VALUE>`: key and value are what
/// stands before and behind the first `=`. An argument without `=` is none.
pub fn split_meta(s: &[u8]) -> (r: Option<(Vec<u8>, Vec<u8>)>)
    ensures
        match r {
            Some((k, v)) => {
                &&& k@.len() < s@.len()
                &&& s@[k@.len() as int] == 61
                &&& forall|j: int| 0 <= j < k@.len() ==> s@[j] != 61
                &&& k@ == s@.subrange(0, k@.len() as int)
                &&& v@ == s@.subrange((k@.len() + 1) as int, s@.len() as int)
            },
            None => forall|j: int| 0 <= j < s@.len() ==> s@[j] != 61,
        },
{
    let len = s.len();
    let mut i: usize = 0;
    while i < len
        invariant
            len == s@.len(),
            i <= len,
            forall|j: int| 0 <= j < i ==> s@[j] != 61,
        decreases len - i,
    {
        if s[i] == 61 {
            let k = slice_to_vec(slice_subrange(s, 0, i));
            let v = slice_to_vec(slice_subrange(s, i + 1, len));
            return Some((k, v));
        }
        i += 1;
    }
    None
}

} // verus!
