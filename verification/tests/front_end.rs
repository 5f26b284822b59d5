use enard::files::{decrypt_file, encrypt_file, EncryptError};
use enard::options::{key_to_buf, nibble, split_meta, KeyError, SupportedCiphers};
use enard::{EnardError, EnardReader, MetaMap};
use rand::rngs::StdRng;
use rand::SeedableRng;

#[test]
fn names_of_the_supported_ciphers() {
    assert_eq!(SupportedCiphers::Nothing.name_bytes(), b"NothingCipher");
    assert_eq!(SupportedCiphers::ChaCha8.name_bytes(), b"ChaCha8");
    assert_eq!(SupportedCiphers::ChaCha12.name_bytes(), b"ChaCha12");
    assert_eq!(SupportedCiphers::ChaCha20.name_bytes(), b"ChaCha20");
    assert_eq!(SupportedCiphers::default(), SupportedCiphers::ChaCha12);
}

#[test]
fn hex_digits() {
    assert_eq!(nibble(b'0'), Ok(0));
    assert_eq!(nibble(b'9'), Ok(9));
    assert_eq!(nibble(b'a'), Ok(10));
    assert_eq!(nibble(b'f'), Ok(15));
    assert_eq!(nibble(b'A'), Ok(10));
    assert_eq!(nibble(b'F'), Ok(15));
    for b in [b'/', b':', b'@', b'G', b'`', b'g', b' ', 0u8, 0xffu8] {
        assert_eq!(nibble(b), Err(KeyError::NotHexDigit));
    }
    for b in 0..=255u8 {
        let want = (b as char).to_digit(16).map(|v| v as u8);
        assert_eq!(nibble(b).ok(), want);
    }
}

#[test]
fn keys_as_they_are_given() {
    assert_eq!(key_to_buf(b"secret"), Ok(b"secret".to_vec()));
    assert_eq!(key_to_buf(b""), Ok(Vec::new()));
    assert_eq!(key_to_buf(b"0"), Ok(b"0".to_vec()));
    assert_eq!(key_to_buf(b"0X41"), Ok(b"0X41".to_vec()));
    assert_eq!(key_to_buf(b"x0"), Ok(b"x0".to_vec()));
}

#[test]
fn keys_in_hex() {
    assert_eq!(key_to_buf(b"0x"), Ok(Vec::new()));
    // the first digit of a pair is the low nibble
    assert_eq!(key_to_buf(b"0x10"), Ok(vec![0x01]));
    assert_eq!(key_to_buf(b"0x1234aBcD"), Ok(vec![0x21, 0x43, 0xba, 0xdc]));
    assert_eq!(key_to_buf(b"0xff00"), Ok(vec![0xff, 0x00]));
    assert_eq!(key_to_buf(b"0x123"), Err(KeyError::OddLength));
    assert_eq!(key_to_buf(b"0x1"), Err(KeyError::OddLength));
    assert_eq!(key_to_buf(b"0x1g"), Err(KeyError::NotHexDigit));
    assert_eq!(key_to_buf(b"0xg1"), Err(KeyError::NotHexDigit));
    assert_eq!(key_to_buf(b"0x00zz00"), Err(KeyError::NotHexDigit));
    // an odd length is told before a bad digit
    assert_eq!(key_to_buf(b"0xzz0"), Err(KeyError::OddLength));
}

#[test]
fn metadata_arguments() {
    assert_eq!(split_meta(b"key=value"), Some((b"key".to_vec(), b"value".to_vec())));
    assert_eq!(split_meta(b"a=b=c"), Some((b"a".to_vec(), b"b=c".to_vec())));
    assert_eq!(split_meta(b"=v"), Some((Vec::new(), b"v".to_vec())));
    assert_eq!(split_meta(b"k="), Some((b"k".to_vec(), Vec::new())));
    assert_eq!(split_meta(b"="), Some((Vec::new(), Vec::new())));
    assert_eq!(split_meta(b"no equals sign"), None);
    assert_eq!(split_meta(b""), None);
}

#[test]
fn a_file_encrypted_is_decrypted() {
    let key = [0x42u8; 32];
    let mut rng = StdRng::seed_from_u64(99);
    let data: Vec<u8> = (0..20000u32).map(|i| (i * 17 + 3) as u8).collect();
    for kind in [SupportedCiphers::ChaCha8, SupportedCiphers::ChaCha12, SupportedCiphers::ChaCha20]
    {
        let mut meta = MetaMap::new();
        meta.insert(b"k1".to_vec(), b"v1".to_vec());
        let (out, n) = encrypt_file(&data, Vec::new(), kind, &key, meta, &mut rng).unwrap();
        assert_eq!(out.len() as u64, n);
        // name, iv, one entry of 8 bytes: 1 + name + 13 + 1 + 8, padded
        let header = 23 + kind.name_bytes().len();
        let header = header + (8 - (header + 20) % 8) % 8;
        assert_eq!(out.len(), 20 + header + data.len() + 32);
        let rd = EnardReader::new_boxed(out.clone(), &key).unwrap();
        assert_eq!(rd.meta().get(b"k1").unwrap().as_slice(), b"v1");
        assert_eq!(decrypt_file(out, &key).unwrap(), data);
    }
    let (out, n) =
        encrypt_file(&data, vec![5u8; 4], SupportedCiphers::Nothing, &[], MetaMap::new(), &mut rng)
            .unwrap();
    assert_eq!(n, 20 + 20 + 20000 + 32);
    assert_eq!(&out[..4], &[5u8; 4]);
    assert_eq!(&out[44..44 + 20000], data.as_slice());
    assert_eq!(decrypt_file(out[4..].to_vec(), &[]).unwrap(), data);
}

#[test]
fn each_file_gets_an_iv_of_its_own() {
    let key = [0x42u8; 32];
    let mut rng = StdRng::seed_from_u64(1);
    let (a, _) =
        encrypt_file(b"same", Vec::new(), SupportedCiphers::ChaCha12, &key, MetaMap::new(), &mut rng)
            .unwrap();
    let (b, _) =
        encrypt_file(b"same", Vec::new(), SupportedCiphers::ChaCha12, &key, MetaMap::new(), &mut rng)
            .unwrap();
    assert_eq!(a.len(), b.len());
    assert_ne!(a[30..42], b[30..42]);
    assert_ne!(a, b);
    assert_eq!(decrypt_file(a, &key).unwrap(), b"same".to_vec());
    assert_eq!(decrypt_file(b, &key).unwrap(), b"same".to_vec());
}

#[test]
fn a_key_of_the_wrong_length_is_refused_before_writing() {
    let mut rng = StdRng::seed_from_u64(1);
    match encrypt_file(
        b"data",
        Vec::new(),
        SupportedCiphers::ChaCha12,
        &[1u8; 16],
        MetaMap::new(),
        &mut rng,
    ) {
        Err(EncryptError::KeyLength { len, want }) => {
            assert_eq!(len, 16);
            assert_eq!(want, 32);
        }
        other => panic!("unexpected result {:?}", other),
    }
    match encrypt_file(b"data", Vec::new(), SupportedCiphers::Nothing, &[1u8], MetaMap::new(), &mut rng)
    {
        Err(EncryptError::KeyLength { len, want }) => {
            assert_eq!(len, 1);
            assert_eq!(want, 0);
        }
        other => panic!("unexpected result {:?}", other),
    }
    let mut meta = MetaMap::new();
    meta.insert(vec![0u8; 256], Vec::new());
    match encrypt_file(b"data", Vec::new(), SupportedCiphers::ChaCha12, &[1u8; 32], meta, &mut rng)
    {
        Err(EncryptError::Enard(EnardError::BlockTooLarge { size, limit })) => {
            assert_eq!(size, 256);
            assert_eq!(limit, 255);
        }
        other => panic!("unexpected result {:?}", other),
    }
}

#[test]
fn decrypting_fails_as_opening_does() {
    let key = [0x42u8; 32];
    let mut rng = StdRng::seed_from_u64(1);
    let (out, _) =
        encrypt_file(b"data", Vec::new(), SupportedCiphers::ChaCha20, &key, MetaMap::new(), &mut rng)
            .unwrap();
    assert!(matches!(decrypt_file(out.clone(), &[0x43u8; 32]), Err(EnardError::MacError)));
    let mut bad = out.clone();
    bad[0] = b'X';
    assert!(matches!(decrypt_file(bad, &key), Err(EnardError::InvalidMagic { .. })));
    assert!(matches!(decrypt_file(out[..30].to_vec(), &key), Err(EnardError::IO(_))));
}
