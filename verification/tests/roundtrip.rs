use enard::chacha::{ChaCha12, ChaCha20, ChaCha8};
use enard::cipher_factory::{CipherName, GetFactory};
use enard::nothing_cipher::NothingCipher;
use enard::{
    BoxDynCipher, EnardError, EnardReader, EnardWriter, IoErrorKind, MetaMap, SeekFrom,
    WriterState,
};

const KB: usize = 1024;
const KEY1: [u8; 32] = [0x42u8; 32];
const NONCE: [u8; 12] = [0x24u8; 12];

fn read_all(rd: &mut EnardReader<BoxDynCipher>) -> Vec<u8> {
    let mut out = Vec::new();
    let mut buf = [0u8; 1000];
    loop {
        let n = rd.read(&mut buf).unwrap();
        if n == 0 {
            break;
        }
        out.extend_from_slice(&buf[..n]);
    }
    out
}

fn compare_bufs(a: &[u8], exp: &[u8]) {
    assert_eq!(a.len(), exp.len());
    for i in 0..a.len() {
        if a[i] != exp[i] {
            assert!(false, "index {} was {}, expected {}", i, a[i], exp[i]);
        }
    }
}

fn encrypt_with(
    name: &[u8],
    key: &[u8],
    iv: &[u8],
    meta: MetaMap,
    data: &[u8],
) -> Result<(Vec<u8>, usize), EnardError> {
    let mut wr = EnardWriter::new(Vec::new(), BoxDynCipher::factory(), name, key, iv, meta)?;
    let n = wr.write_complete(data)?;
    assert_eq!(wr.get_state(), WriterState::Finished);
    Ok((wr.into_inner(), n as usize))
}

fn pattern(len: usize) -> Vec<u8> {
    let mut v = Vec::with_capacity(len);
    let mut x: u32 = 0x1234_5678;
    for _ in 0..len {
        x = x.wrapping_mul(1_664_525).wrapping_add(1_013_904_223);
        v.push((x >> 24) as u8);
    }
    v
}

#[test]
fn test_roundtrip() {
    const TEST_DATA_SIZE: usize = 10000;
    let data = vec![0x42; TEST_DATA_SIZE];
    let (out, n) = encrypt_with(ChaCha12::name(), &KEY1, &NONCE, MetaMap::new(), &data).unwrap();
    assert_eq!(out.len(), n);
    let mut rd = EnardReader::new_boxed(out, &KEY1).unwrap();
    // Check to make sure it came out right
    let dst_buf = read_all(&mut rd);
    compare_bufs(&dst_buf, &data);
}

#[test]
fn roundtrip_in_memory_large_payload() {
    let iv = [77u8; 12];
    let src_buf = pattern(150 * KB);
    let mut en_wr = EnardWriter::new(
        Vec::new(),
        BoxDynCipher::factory(),
        ChaCha12::name(),
        &KEY1,
        &iv,
        MetaMap::new(),
    )
    .unwrap();
    let n = en_wr.write_complete(&src_buf).unwrap();
    let tmp_buf = en_wr.into_inner();
    assert_eq!(tmp_buf.len(), n as usize);
    assert!(tmp_buf.len() <= 200 * KB);

    let mut rd = EnardReader::new(tmp_buf, BoxDynCipher::factory(), &KEY1).unwrap();
    let dst_buf = read_all(&mut rd);
    compare_bufs(&dst_buf, &src_buf);
}

#[test]
fn roundtrip_every_cipher_and_length() {
    let lengths = [0usize, 1, 7, 8, 255, 256, 257, 511, 512, 513, 4096];
    let ciphers: [(&[u8], &[u8], &[u8]); 4] = [
        (NothingCipher::name(), &[], &[]),
        (ChaCha8::name(), &KEY1, &NONCE),
        (ChaCha12::name(), &KEY1, &NONCE),
        (ChaCha20::name(), &KEY1, &NONCE),
    ];
    for (name, key, iv) in ciphers {
        for len in lengths {
            let data = pattern(len);
            let (out, n) = encrypt_with(name, key, iv, MetaMap::new(), &data).unwrap();
            assert_eq!(out.len(), n);
            let mut rd = EnardReader::new_boxed(out, key).unwrap();
            let back = read_all(&mut rd);
            compare_bufs(&back, &data);
        }
    }
}

#[test]
fn ciphertext_differs_from_plaintext() {
    let data = vec![0u8; 300];
    let (out, _) = encrypt_with(ChaCha20::name(), &KEY1, &NONCE, MetaMap::new(), &data).unwrap();
    // the header of a ChaCha20 container is 28 bytes long
    let stored = &out[48..48 + 300];
    assert_ne!(stored, data.as_slice());
    let (plain, _) = encrypt_with(NothingCipher::name(), &[], &[], MetaMap::new(), &data).unwrap();
    // the header of a container of the cipher that changes nothing is 20 bytes long
    assert_eq!(&plain[40..40 + 300], data.as_slice());
}

#[test]
fn chunked_writes_equal_one_write() {
    let data = pattern(1000);
    let (whole, _) = encrypt_with(ChaCha12::name(), &KEY1, &NONCE, MetaMap::new(), &data).unwrap();

    let mut wr = EnardWriter::new(
        Vec::new(),
        BoxDynCipher::factory(),
        ChaCha12::name(),
        &KEY1,
        &NONCE,
        MetaMap::new(),
    )
    .unwrap();
    assert_eq!(wr.get_state(), WriterState::Created);
    let header = wr.write_header().unwrap();
    assert_eq!(header, 48);
    assert_eq!(wr.get_state(), WriterState::HeaderWritten);
    assert_eq!(wr.write(&data[0..1]).unwrap(), 1);
    assert_eq!(wr.get_state(), WriterState::Writing);
    assert_eq!(wr.write(&data[1..300]).unwrap(), 299);
    assert_eq!(wr.write(&[]).unwrap(), 0);
    assert_eq!(wr.write(&data[300..1000]).unwrap(), 700);
    assert_eq!(wr.finish().unwrap(), 32);
    assert_eq!(wr.get_state(), WriterState::Finished);
    assert_eq!(wr.into_inner(), whole);
}

#[test]
fn writer_appends_to_what_the_sink_holds() {
    let data = pattern(100);
    let (alone, n) = encrypt_with(ChaCha8::name(), &KEY1, &NONCE, MetaMap::new(), &data).unwrap();
    let mut wr = EnardWriter::new(
        vec![9u8, 8, 7],
        BoxDynCipher::factory(),
        ChaCha8::name(),
        &KEY1,
        &NONCE,
        MetaMap::new(),
    )
    .unwrap();
    assert_eq!(wr.write_complete(&data).unwrap() as usize, n);
    let out = wr.into_inner();
    assert_eq!(&out[0..3], &[9u8, 8, 7]);
    assert_eq!(&out[3..], alone.as_slice());
}

#[test]
fn seek_then_read_is_a_slice_of_the_whole() {
    let data = pattern(5000);
    let (out, _) = encrypt_with(ChaCha12::name(), &KEY1, &NONCE, MetaMap::new(), &data).unwrap();
    let mut rd = EnardReader::new_boxed(out, &KEY1).unwrap();
    let offsets = [0u64, 1, 63, 64, 65, 255, 256, 1000, 4095, 4999, 5000];
    for p in offsets {
        assert_eq!(rd.seek(SeekFrom::Start(p)).unwrap(), p);
        assert_eq!(rd.stream_position().unwrap(), p);
        let mut buf = [0u8; 333];
        let n = rd.read(&mut buf).unwrap();
        let want = &data[p as usize..];
        let want = &want[..want.len().min(333)];
        assert_eq!(n, want.len());
        assert_eq!(&buf[..n], want);
    }
    // relative to the end and to the current position
    assert_eq!(rd.seek(SeekFrom::End(-10)).unwrap(), 4990);
    let mut buf = [0u8; 4];
    assert_eq!(rd.read(&mut buf).unwrap(), 4);
    assert_eq!(&buf, &data[4990..4994]);
    assert_eq!(rd.seek(SeekFrom::Current(-4994)).unwrap(), 0);
    assert_eq!(rd.seek(SeekFrom::Current(17)).unwrap(), 17);
    assert_eq!(rd.read(&mut buf).unwrap(), 4);
    assert_eq!(&buf, &data[17..21]);
}

#[test]
fn seek_outside_the_data_is_invalid_input() {
    let data = pattern(100);
    let (out, _) = encrypt_with(ChaCha12::name(), &KEY1, &NONCE, MetaMap::new(), &data).unwrap();
    let mut rd = EnardReader::new_boxed(out, &KEY1).unwrap();
    assert_eq!(rd.seek(SeekFrom::Start(40)).unwrap(), 40);
    assert_eq!(rd.seek(SeekFrom::Start(101)).unwrap_err().kind(), IoErrorKind::InvalidInput);
    assert_eq!(rd.seek(SeekFrom::End(1)).unwrap_err().kind(), IoErrorKind::InvalidInput);
    assert_eq!(rd.seek(SeekFrom::End(-101)).unwrap_err().kind(), IoErrorKind::InvalidInput);
    assert_eq!(rd.seek(SeekFrom::Current(-41)).unwrap_err().kind(), IoErrorKind::InvalidInput);
    assert_eq!(rd.seek(SeekFrom::Current(61)).unwrap_err().kind(), IoErrorKind::InvalidInput);
    assert_eq!(
        rd.seek(SeekFrom::Current(i64::MIN)).unwrap_err().kind(),
        IoErrorKind::InvalidInput
    );
    assert_eq!(rd.seek(SeekFrom::Start(u64::MAX)).unwrap_err().kind(), IoErrorKind::InvalidInput);
    // a refused seek leaves the position where it was
    assert_eq!(rd.stream_position().unwrap(), 40);
    assert_eq!(rd.seek(SeekFrom::End(0)).unwrap(), 100);
    assert_eq!(rd.seek(SeekFrom::End(-100)).unwrap(), 0);
}

#[test]
fn read_stops_at_the_end_of_the_data() {
    let data = pattern(10);
    let (out, _) = encrypt_with(ChaCha12::name(), &KEY1, &NONCE, MetaMap::new(), &data).unwrap();
    let mut rd = EnardReader::new_boxed(out, &KEY1).unwrap();
    let mut buf = [0xEEu8; 64];
    assert_eq!(rd.read(&mut buf).unwrap(), 10);
    assert_eq!(&buf[..10], data.as_slice());
    // the rest of the buffer is not touched: the tag is never handed out
    assert!(buf[10..].iter().all(|b| *b == 0xEE));
    assert_eq!(rd.read(&mut buf).unwrap(), 0);
    assert_eq!(rd.read(&mut []).unwrap(), 0);
}

#[test]
fn into_inner_gives_the_file_back() {
    let data = pattern(10);
    let (out, _) = encrypt_with(ChaCha12::name(), &KEY1, &NONCE, MetaMap::new(), &data).unwrap();
    let rd = EnardReader::new_boxed(out.clone(), &KEY1).unwrap();
    assert_eq!(rd.into_inner(), out);
}

#[test]
fn metadata_comes_back() {
    let mut meta = MetaMap::new();
    meta.insert(b"k1".to_vec(), b"v1".to_vec());
    let (out, _) = encrypt_with(ChaCha12::name(), &KEY1, &NONCE, meta, b"payload").unwrap();
    let rd = EnardReader::new_boxed(out, &KEY1).unwrap();
    assert_eq!(rd.meta().len(), 1);
    assert_eq!(rd.meta().get(b"k1").unwrap().as_slice(), b"v1");
    assert!(rd.meta().get(b"k2").is_none());
}

#[test]
fn metadata_at_its_bounds_comes_back() {
    let mut small = MetaMap::new();
    for i in 0..253u32 {
        small.insert(i.to_le_bytes().to_vec(), pattern(i as usize));
    }
    small.insert(vec![1u8; 255], vec![2u8; 65535]);
    small.insert(Vec::new(), Vec::new());
    assert_eq!(small.len(), 255);
    let (out, _) = encrypt_with(ChaCha12::name(), &KEY1, &NONCE, small, b"x").unwrap();
    let rd = EnardReader::new_boxed(out, &KEY1).unwrap();
    assert_eq!(rd.meta().len(), 255);
    for i in 0..253u32 {
        assert_eq!(rd.meta().get(&i.to_le_bytes()).unwrap(), &pattern(i as usize));
    }
    assert_eq!(rd.meta().get(&[1u8; 255]).unwrap(), &vec![2u8; 65535]);
    assert_eq!(rd.meta().get(&[]).unwrap(), &Vec::<u8>::new());
}
