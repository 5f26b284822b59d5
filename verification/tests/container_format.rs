use enard::chacha::ChaCha12;
use enard::cipher_factory::{CipherName, GetFactory};
use enard::nothing_cipher::NothingCipher;
use enard::{
    BoxDynCipher, BoxDynCipherFactory, EnardBuilder, EnardError, EnardReader, EnardWriter,
    IoErrorKind, MetaMap,
};
use hmac::{Hmac, Mac};
use sha2::Sha256;

const KEY1: [u8; 32] = [0x42u8; 32];
const NONCE: [u8; 12] = [0x24u8; 12];

type Builder = EnardBuilder<BoxDynCipher, BoxDynCipherFactory>;

fn tag_of(key: &[u8], span: &[u8]) -> Vec<u8> {
    let mut mac = Hmac::<Sha256>::new_from_slice(key).unwrap();
    mac.update(span);
    mac.finalize().into_bytes().to_vec()
}

fn seal(name: &[u8], key: &[u8], iv: &[u8], meta: MetaMap, data: &[u8]) -> Vec<u8> {
    let mut wr =
        EnardWriter::new(Vec::new(), BoxDynCipher::factory(), name, key, iv, meta).unwrap();
    wr.write_complete(data).unwrap();
    wr.into_inner()
}

/// A file of version 1 with the given header and data, tagged under `key`.
fn file_with_header(key: &[u8], header: &[u8], data: &[u8]) -> Vec<u8> {
    let mut f = b"\x03ENARD".to_vec();
    f.extend_from_slice(&1u16.to_le_bytes());
    f.extend_from_slice(&(header.len() as u32).to_le_bytes());
    f.extend_from_slice(&(data.len() as u64).to_le_bytes());
    f.extend_from_slice(header);
    f.extend_from_slice(data);
    let tag = tag_of(key, &f[20..]);
    f.extend_from_slice(&tag);
    f
}

/// Opens a file with the factory of the one cipher that changes nothing,
/// which takes the empty cipher name for its cipher.
fn open_plain(file: Vec<u8>) -> Result<EnardReader<NothingCipher>, EnardError> {
    EnardReader::new(file, NothingCipher::factory(), &[])
}

fn open_plain_err(file: Vec<u8>) -> EnardError {
    match open_plain(file) {
        Ok(_) => panic!("the file was opened"),
        Err(e) => e,
    }
}

fn open_err(file: Vec<u8>, key: &[u8]) -> EnardError {
    match EnardReader::new_boxed(file, key) {
        Ok(_) => panic!("the file was opened"),
        Err(e) => e,
    }
}

#[test]
fn layout_of_a_plain_container() {
    let out = seal(NothingCipher::name(), &[], &[], MetaMap::new(), b"hello");
    let mut want = vec![0x03u8, b'E', b'N', b'A', b'R', b'D'];
    want.extend_from_slice(&[1, 0]); // version
    want.extend_from_slice(&[20, 0, 0, 0]); // header size
    want.extend_from_slice(&[5, 0, 0, 0, 0, 0, 0, 0]); // data size
    want.push(13);
    want.extend_from_slice(b"NothingCipher");
    want.extend_from_slice(&[0, 0]); // empty iv, no metadata
    want.extend_from_slice(&[0, 0, 0, 0]); // padding up to offset 40
    want.extend_from_slice(b"hello");
    let tag = tag_of(&[], &want[20..]);
    assert_eq!(tag.len(), 32);
    want.extend_from_slice(&tag);
    assert_eq!(out, want);
}

#[test]
fn layout_of_a_chacha_container_with_metadata() {
    let mut meta = MetaMap::new();
    meta.insert(b"k1".to_vec(), b"v1".to_vec());
    meta.insert(b"key2".to_vec(), vec![7u8; 300]);
    let out = seal(ChaCha12::name(), &KEY1, &NONCE, meta, &[0u8; 9]);
    assert_eq!(&out[0..6], b"\x03ENARD");
    assert_eq!(&out[6..8], &[1, 0]);
    // name 1+8, iv 1+12, count 1, entries (1+2+2+2) + (1+4+2+300) = 336, padded to 340
    assert_eq!(&out[8..12], &340u32.to_le_bytes());
    assert_eq!(&out[12..20], &9u64.to_le_bytes());
    assert_eq!(out[20], 8);
    assert_eq!(&out[21..29], b"ChaCha12");
    assert_eq!(out[29], 12);
    assert_eq!(&out[30..42], &NONCE);
    assert_eq!(out[42], 2);
    assert_eq!(out[43], 2);
    assert_eq!(&out[44..46], b"k1");
    assert_eq!(&out[46..48], &[2, 0]);
    assert_eq!(&out[48..50], b"v1");
    assert_eq!(out[50], 4);
    assert_eq!(&out[51..55], b"key2");
    assert_eq!(&out[55..57], &[0x2c, 0x01]);
    assert_eq!(&out[57..357], vec![7u8; 300].as_slice());
    assert_eq!(&out[357..360], &[0, 0, 0]);
    assert_eq!((20 + 340) % 8, 0);
    assert_eq!(out.len(), 360 + 9 + 32);
    assert_eq!(&out[369..], tag_of(&KEY1, &out[20..369]).as_slice());
}

#[test]
fn padding_aligns_the_data() {
    for extra in 0..9usize {
        let mut meta = MetaMap::new();
        meta.insert(Vec::new(), vec![1u8; extra]);
        let out = seal(NothingCipher::name(), &[], &[], meta, b"");
        let header_size = u32::from_le_bytes([out[8], out[9], out[10], out[11]]) as usize;
        // name, iv, count, key length, value length, value
        let unpadded = 14 + 1 + 1 + 1 + 2 + extra;
        assert_eq!((20 + header_size) % 8, 0);
        assert!(header_size >= unpadded && header_size < unpadded + 8);
        assert!(out[20 + unpadded..20 + header_size].iter().all(|b| *b == 0));
        assert_eq!(out.len(), 20 + header_size + 32);
    }
}

#[test]
fn wrong_magic_is_told_with_both_values() {
    let mut file = b"XENARD\x01\x00".to_vec();
    file.extend_from_slice(&[0u8; 64]);
    match open_err(file, &KEY1) {
        EnardError::InvalidMagic { exp, found } => {
            assert_eq!(exp.as_slice(), b"\x03ENARD");
            assert_eq!(found.as_slice(), b"XENARD");
        }
        other => panic!("unexpected error {:?}", other),
    }
}

#[test]
fn other_versions_are_refused() {
    for version in [0u16, 2, 256, 0xffff] {
        let mut file = seal(NothingCipher::name(), &[], &[], MetaMap::new(), b"hello");
        file[6..8].copy_from_slice(&version.to_le_bytes());
        match open_err(file, &[]) {
            EnardError::UnsupportedVersion { version: v } => assert_eq!(v, version),
            other => panic!("unexpected error {:?}", other),
        }
    }
}

#[test]
fn a_short_file_ends_early() {
    let file = seal(ChaCha12::name(), &KEY1, &NONCE, MetaMap::new(), b"hello");
    for len in 0..file.len() {
        match open_err(file[..len].to_vec(), &KEY1) {
            EnardError::IO(e) => assert_eq!(e.kind(), IoErrorKind::UnexpectedEof),
            other => panic!("unexpected error {:?} at length {}", other, len),
        }
    }
    assert!(EnardReader::new_boxed(file, &KEY1).is_ok());
}

#[test]
fn bytes_behind_the_tag_are_ignored() {
    let mut file = seal(ChaCha12::name(), &KEY1, &NONCE, MetaMap::new(), b"hello");
    file.extend_from_slice(b"trailer");
    let mut rd = EnardReader::new_boxed(file, &KEY1).unwrap();
    let mut buf = [0u8; 16];
    assert_eq!(rd.read(&mut buf).unwrap(), 5);
    assert_eq!(&buf[..5], b"hello");
    assert_eq!(rd.read(&mut buf).unwrap(), 0);
}

#[test]
fn every_flipped_bit_of_the_authenticated_span_is_detected() {
    let mut meta = MetaMap::new();
    meta.insert(b"k1".to_vec(), b"v1".to_vec());
    let file = seal(ChaCha12::name(), &KEY1, &NONCE, meta, b"some payload bytes");
    let end = file.len() - 32;
    for at in 20..end {
        for bit in 0..8 {
            let mut bad = file.clone();
            bad[at] ^= 1 << bit;
            assert!(matches!(open_err(bad, &KEY1), EnardError::MacError));
        }
    }
    // and so is a changed tag
    for at in end..file.len() {
        let mut bad = file.clone();
        bad[at] ^= 0x80;
        assert!(matches!(open_err(bad, &KEY1), EnardError::MacError));
    }
}

#[test]
fn a_wrong_key_is_a_mac_error() {
    let file = seal(ChaCha12::name(), &KEY1, &NONCE, MetaMap::new(), b"hello");
    let mut wrong = KEY1;
    wrong[31] ^= 1;
    assert!(matches!(open_err(file.clone(), &wrong), EnardError::MacError));
    assert!(matches!(open_err(file.clone(), &[]), EnardError::MacError));
    assert!(matches!(open_err(file, &[0x42u8; 31]), EnardError::MacError));
}

#[test]
fn the_tag_is_checked_before_the_header_is_read() {
    // a header that names no known cipher, under a tag that does not match
    let mut file = file_with_header(&KEY1, b"\x03abc\x00\x00\x00\x00", b"data");
    let last = file.len() - 1;
    file[last] ^= 1;
    assert!(matches!(open_err(file, &KEY1), EnardError::MacError));
    // with the right tag the header is read, and its cipher is not known
    let file = file_with_header(&KEY1, b"\x03abc\x00\x00\x00\x00", b"data");
    match open_err(file, &KEY1) {
        EnardError::UnsupportedEncryption { kind } => assert_eq!(kind.as_slice(), b"abc"),
        other => panic!("unexpected error {:?}", other),
    }
}

#[test]
fn a_key_of_the_wrong_length_for_the_cipher_is_refused() {
    // the tag is under a 31-byte key, which ChaCha12 does not take
    let key = [0x42u8; 31];
    let mut header = vec![8u8];
    header.extend_from_slice(b"ChaCha12");
    header.push(12);
    header.extend_from_slice(&NONCE);
    header.push(0);
    header.push(0);
    let file = file_with_header(&key, &header, b"data");
    assert!(matches!(open_err(file, &key), EnardError::InvalidLength));
    // an iv of the wrong length
    let mut header = vec![8u8];
    header.extend_from_slice(b"ChaCha12");
    header.push(11);
    header.extend_from_slice(&NONCE[..11]);
    header.extend_from_slice(&[0, 0, 0]);
    let file = file_with_header(&KEY1, &header, b"data");
    assert!(matches!(open_err(file, &KEY1), EnardError::InvalidLength));
}

#[test]
fn a_value_longer_than_the_rest_of_the_header_is_too_large() {
    // empty name, empty iv, one entry: key "k", value declared 9 bytes long,
    // where 6 bytes of header are read and 10 bytes are left
    let mut header = vec![0u8, 0, 1, 1, b'k', 9, 0];
    header.extend_from_slice(&[0xAA; 9]);
    assert_eq!(header.len(), 16);
    let file = file_with_header(&[], &header, b"data");
    let rd = open_plain(file).unwrap();
    assert_eq!(rd.meta().get(b"k").unwrap().as_slice(), &[0xAA; 9]);

    // the same value in a header that ends one byte before the value does
    let mut header = vec![0u8, 0, 1, 1, b'k', 9, 0];
    header.extend_from_slice(&[0xAA; 8]);
    let file = file_with_header(&[], &header, &[0xAA; 5]);
    match open_plain_err(file) {
        EnardError::BlockTooLarge { size, limit } => {
            assert_eq!(size, 9);
            assert_eq!(limit, 8);
        }
        other => panic!("unexpected error {:?}", other),
    }

    // a length of 65535 in a header of 7 bytes: nothing is left for it
    let header = vec![0u8, 0, 1, 1, b'k', 0xff, 0xff];
    let file = file_with_header(&[], &header, &[0u8; 100]);
    match open_plain_err(file) {
        EnardError::BlockTooLarge { size, limit } => {
            assert_eq!(size, 65535);
            assert_eq!(limit, 0);
        }
        other => panic!("unexpected error {:?}", other),
    }
}

#[test]
fn a_later_entry_replaces_an_earlier_one_with_its_key() {
    let header = vec![0u8, 0, 2, 1, b'k', 1, 0, b'a', 1, b'k', 1, 0, b'b', 0, 0, 0];
    let file = file_with_header(&[], &header, b"");
    let rd = open_plain(file).unwrap();
    assert_eq!(rd.meta().len(), 1);
    assert_eq!(rd.meta().get(b"k").unwrap().as_slice(), b"b");
}

#[test]
fn the_writer_refuses_blocks_over_their_bounds() {
    let write = |meta: MetaMap| {
        let mut wr = EnardWriter::new(
            vec![1u8, 2, 3],
            BoxDynCipher::factory(),
            ChaCha12::name(),
            &KEY1,
            &NONCE,
            meta,
        )
        .unwrap();
        let r = wr.write_complete(b"data");
        (r, wr.into_inner())
    };
    let too_large = |r: Result<u64, EnardError>| match r {
        Err(EnardError::BlockTooLarge { size, limit }) => (size, limit),
        other => panic!("unexpected result {:?}", other),
    };

    let mut meta = MetaMap::new();
    meta.insert(vec![0u8; 256], Vec::new());
    let (r, sink) = write(meta);
    assert_eq!(too_large(r), (256, 255));
    // nothing was written
    assert_eq!(sink, vec![1u8, 2, 3]);

    let mut meta = MetaMap::new();
    meta.insert(b"fine".to_vec(), vec![0u8; 65535]);
    meta.insert(b"long".to_vec(), vec![0u8; 65536]);
    meta.insert(vec![0u8; 300], Vec::new());
    let (r, sink) = write(meta);
    assert_eq!(too_large(r), (65536, 65535));
    assert_eq!(sink, vec![1u8, 2, 3]);

    let mut meta = MetaMap::new();
    for i in 0..256u32 {
        meta.insert(i.to_le_bytes().to_vec(), Vec::new());
    }
    let (r, sink) = write(meta);
    assert_eq!(too_large(r), (256, 255));
    assert_eq!(sink, vec![1u8, 2, 3]);

    let mut meta = MetaMap::new();
    meta.insert(vec![0u8; 255], vec![0u8; 65535]);
    let (r, sink) = write(meta);
    assert!(r.is_ok());
    assert_eq!(r.unwrap() as usize, sink.len() - 3);
}

#[test]
fn the_header_readers_take_their_blocks() {
    let src = [3u8, b'a', b'b', b'c', 2, 0, b'x', b'y', 9];
    assert_eq!(Builder::read_vec(&src, 1, 3).unwrap(), b"abc".to_vec());
    assert_eq!(Builder::read_vec(&src, 9, 0).unwrap(), Vec::<u8>::new());
    assert_eq!(Builder::read_vec(&src, 8, 2).unwrap_err().kind(), IoErrorKind::UnexpectedEof);
    assert_eq!(Builder::read_vec(&src, 10, 0).unwrap_err().kind(), IoErrorKind::UnexpectedEof);
    assert_eq!(
        Builder::read_vec(&src, 1, usize::MAX).unwrap_err().kind(),
        IoErrorKind::UnexpectedEof
    );

    assert_eq!(Builder::read_u8_block(&src, 0).unwrap(), b"abc".to_vec());
    assert_eq!(Builder::read_u8_block(&src, 5).unwrap(), Vec::<u8>::new());
    assert_eq!(Builder::read_u8_block(&src, 8).unwrap_err().kind(), IoErrorKind::UnexpectedEof);
    assert_eq!(Builder::read_u8_block(&src, 9).unwrap_err().kind(), IoErrorKind::UnexpectedEof);

    assert_eq!(Builder::read_u16_block(&src, 4, 2).unwrap(), b"xy".to_vec());
    assert!(matches!(
        Builder::read_u16_block(&src, 4, 1),
        Err(EnardError::BlockTooLarge { size: 2, limit: 1 })
    ));
    // the length 0x6103 is within the limit, but the source ends
    match Builder::read_u16_block(&src, 0, 65535) {
        Err(EnardError::IO(e)) => assert_eq!(e.kind(), IoErrorKind::UnexpectedEof),
        other => panic!("unexpected result {:?}", other),
    }
    match Builder::read_u16_block(&src, 8, 65535) {
        Err(EnardError::IO(e)) => assert_eq!(e.kind(), IoErrorKind::UnexpectedEof),
        other => panic!("unexpected result {:?}", other),
    }

    // two entries: "k" -> "v", "" -> ""
    let block = [2u8, 1, b'k', 1, 0, b'v', 0, 0, 0];
    let meta = Builder::read_meta_blocks(&block, 0, block.len()).unwrap();
    assert_eq!(meta.len(), 2);
    assert_eq!(meta.get(b"k").unwrap().as_slice(), b"v");
    assert_eq!(meta.get(b"").unwrap().as_slice(), b"");
    // the header ends within the first value
    assert!(matches!(
        Builder::read_meta_blocks(&block, 0, 5),
        Err(EnardError::BlockTooLarge { size: 1, limit: 0 })
    ));
    // three entries announced, two are there
    let block = [3u8, 1, b'k', 1, 0, b'v', 0, 0, 0];
    match Builder::read_meta_blocks(&block, 0, block.len()) {
        Err(EnardError::IO(e)) => assert_eq!(e.kind(), IoErrorKind::UnexpectedEof),
        other => panic!("unexpected result {:?}", other),
    }
}

#[test]
fn the_builder_opens_what_the_reader_opens() {
    let file = seal(ChaCha12::name(), &KEY1, &NONCE, MetaMap::new(), b"hello");
    let mut rd = Builder::new(file, BoxDynCipher::factory(), &KEY1).build().unwrap();
    let mut buf = [0u8; 5];
    assert_eq!(rd.read(&mut buf).unwrap(), 5);
    assert_eq!(&buf, b"hello");
}

#[test]
fn the_registry_refuses_a_file_without_a_cipher_name() {
    // empty name, empty iv, no metadata, under a tag that matches
    let file = file_with_header(&[], &[0u8, 0, 0, 0], b"hello");
    match open_err(file.clone(), &[]) {
        EnardError::UnsupportedEncryption { kind } => assert_eq!(kind, Vec::<u8>::new()),
        other => panic!("unexpected error {:?}", other),
    }
    // the factory of one cipher takes the empty name for its cipher
    let mut rd = open_plain(file).unwrap();
    let mut buf = [0u8; 8];
    assert_eq!(rd.read(&mut buf).unwrap(), 5);
    assert_eq!(&buf[..5], b"hello");
}

#[test]
fn keys_that_the_mac_pads_alike_pass_the_tag() {
    // the MAC fills a short key with zeros: the empty key and the key of
    // one zero byte give the same tag, and the cipher refuses the key
    let file = seal(NothingCipher::name(), &[], &[], MetaMap::new(), b"hello");
    assert!(matches!(open_err(file.clone(), &[0u8]), EnardError::InvalidLength));
    assert!(matches!(open_err(file.clone(), &[1u8]), EnardError::MacError));
    assert!(EnardReader::new_boxed(file, &[]).is_ok());
}
