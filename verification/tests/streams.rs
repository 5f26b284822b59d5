use enard::chacha::ChaCha12;
use enard::cipher_factory::KeyIvCipher;
use enard::nothing_cipher::NothingCipher;
use enard::stream::{
    resolve_seek, resolve_seek_unbounded, CipherRead, CipherWriteStream, MemStream, SubSeek,
};
use enard::{DynCipher, DynCipherCore, IoErrorKind, SeekFrom};

const KEY1: [u8; 32] = [0x42u8; 32];
const NONCE: [u8; 12] = [0x24u8; 12];

#[test]
fn seeks_are_resolved_within_their_bounds() {
    assert_eq!(resolve_seek(SeekFrom::Start(0), 5, 10), Some(0));
    assert_eq!(resolve_seek(SeekFrom::Start(10), 5, 10), Some(10));
    assert_eq!(resolve_seek(SeekFrom::Start(11), 5, 10), None);
    assert_eq!(resolve_seek(SeekFrom::End(0), 5, 10), Some(10));
    assert_eq!(resolve_seek(SeekFrom::End(-10), 5, 10), Some(0));
    assert_eq!(resolve_seek(SeekFrom::End(-11), 5, 10), None);
    assert_eq!(resolve_seek(SeekFrom::End(1), 5, 10), None);
    assert_eq!(resolve_seek(SeekFrom::Current(5), 5, 10), Some(10));
    assert_eq!(resolve_seek(SeekFrom::Current(-5), 5, 10), Some(0));
    assert_eq!(resolve_seek(SeekFrom::Current(-6), 5, 10), None);
    assert_eq!(resolve_seek(SeekFrom::Current(6), 5, 10), None);
    assert_eq!(resolve_seek(SeekFrom::Current(i64::MAX), u64::MAX, u64::MAX), None);
    assert_eq!(resolve_seek(SeekFrom::End(i64::MIN), 0, u64::MAX), Some(u64::MAX - (1 << 63)));
    assert_eq!(resolve_seek_unbounded(SeekFrom::Start(11), 5, 10), Some(11));
    assert_eq!(resolve_seek_unbounded(SeekFrom::End(7), 5, 10), Some(17));
    assert_eq!(resolve_seek_unbounded(SeekFrom::Current(-6), 5, 10), None);
    assert_eq!(resolve_seek_unbounded(SeekFrom::Current(1), u64::MAX, 10), None);
}

#[test]
fn a_stream_in_memory_reads_writes_and_seeks() {
    let mut s = MemStream::new(b"0123456789".to_vec());
    assert_eq!(s.stream_position(), 0);
    let mut buf = [0u8; 4];
    assert_eq!(s.read(&mut buf), 4);
    assert_eq!(&buf, b"0123");
    assert_eq!(s.seek(SeekFrom::End(-2)).unwrap(), 8);
    let mut buf = [b'x'; 4];
    assert_eq!(s.read(&mut buf), 2);
    assert_eq!(&buf, b"89xx");
    assert_eq!(s.read(&mut buf), 0);
    assert_eq!(s.seek(SeekFrom::Current(-11)).unwrap_err().kind(), IoErrorKind::InvalidInput);
    assert_eq!(s.stream_position(), 10);

    // writing over the middle
    assert_eq!(s.seek(SeekFrom::Start(3)).unwrap(), 3);
    assert_eq!(s.write(b"abc").unwrap(), 3);
    assert_eq!(s.get_ref().as_slice(), b"012abc6789");
    assert_eq!(s.stream_position(), 6);
    // over the end
    assert_eq!(s.seek(SeekFrom::Start(8)).unwrap(), 8);
    assert_eq!(s.write(b"XYZ").unwrap(), 3);
    assert_eq!(s.get_ref().as_slice(), b"012abc67XYZ");
    // behind the end: the gap is filled with zeros
    assert_eq!(s.seek(SeekFrom::End(2)).unwrap(), 13);
    assert_eq!(s.read(&mut buf), 0);
    assert_eq!(s.write(b"!").unwrap(), 1);
    assert_eq!(s.get_ref().as_slice(), b"012abc67XYZ\0\0!");
    assert_eq!(s.write(b"").unwrap(), 0);
    assert_eq!(s.into_inner(), b"012abc67XYZ\0\0!".to_vec());
}

#[test]
fn a_section_limits_its_stream() {
    let mut inner = MemStream::new(b"0123456789".to_vec());
    inner.seek(SeekFrom::Start(4)).unwrap();
    let mut sub = SubSeek::new(inner, 2, 5).unwrap();
    assert_eq!(sub.stream_position().unwrap(), 2);
    assert_eq!(sub.limit(), 3);
    assert_eq!(sub.seek(SeekFrom::Start(0)).unwrap(), 0);
    assert_eq!(sub.limit(), 5);
    let mut buf = [b'x'; 8];
    assert_eq!(sub.read(&mut buf).unwrap(), 5);
    assert_eq!(&buf, b"23456xxx");
    assert_eq!(sub.seek(SeekFrom::End(-1)).unwrap(), 4);
    assert_eq!(sub.read(&mut buf).unwrap(), 1);
    assert_eq!(buf[0], b'6');
    assert_eq!(sub.seek(SeekFrom::End(0)).unwrap(), 5);
    assert_eq!(sub.limit(), 0);
    assert_eq!(sub.read(&mut buf).unwrap_err().kind(), IoErrorKind::UnexpectedEof);
    assert_eq!(sub.seek(SeekFrom::Start(6)).unwrap_err().kind(), IoErrorKind::InvalidInput);
    assert_eq!(sub.seek(SeekFrom::Current(-6)).unwrap_err().kind(), IoErrorKind::InvalidInput);
    assert_eq!(sub.stream_position().unwrap(), 5);
    assert_eq!(sub.seek(SeekFrom::Current(-5)).unwrap(), 0);
    assert_eq!(sub.read(&mut []).unwrap_err().kind(), IoErrorKind::UnexpectedEof);
    assert_eq!(sub.write(b"ab").unwrap(), 2);
    let inner = sub.into_inner();
    assert_eq!(inner.stream_position(), 4);
    assert_eq!(inner.into_inner(), b"01ab456789".to_vec());
}

#[test]
fn a_cipher_stream_written_is_read_back() {
    let data: Vec<u8> = (0..1000u32).map(|i| (i * 31) as u8).collect();
    let cipher = ChaCha12::new_from_slices(&KEY1, &NONCE).unwrap();
    let mut wr = CipherWriteStream::new(MemStream::new(Vec::new()), cipher);
    assert_eq!(wr.write(&data[..300]).unwrap(), 300);
    assert_eq!(wr.write(&data[300..]).unwrap(), 700);
    assert_eq!(wr.write(&[]).unwrap(), 0);
    assert!(wr.flush().is_ok());
    assert_eq!(wr.stream_position().unwrap(), 1000);
    let (stream, cipher) = wr.into_inner();
    assert_eq!(cipher.current_pos(), 1000);
    let stored = stream.into_inner();
    assert_eq!(stored.len(), 1000);
    assert_ne!(stored, data);

    // the whole is what the cipher makes of the data in one piece
    let mut want = data.clone();
    let mut c = ChaCha12::new_from_slices(&KEY1, &NONCE).unwrap();
    c.try_apply_keystream(&mut want).unwrap();
    assert_eq!(stored, want);

    let mut stream = MemStream::new(stored);
    stream.seek(SeekFrom::Start(17)).unwrap();
    // a new reader starts at the start of stream and keystream
    let mut rd = CipherRead::new(stream, cipher).unwrap();
    assert_eq!(rd.stream_position().unwrap(), 0);
    let mut buf = [0u8; 256];
    assert_eq!(rd.read(&mut buf).unwrap(), 256);
    assert_eq!(&buf[..], &data[..256]);
    assert_eq!(rd.seek(SeekFrom::Start(900)).unwrap(), 900);
    assert_eq!(rd.read(&mut buf).unwrap(), 100);
    assert_eq!(&buf[..100], &data[900..]);
    assert_eq!(rd.read(&mut buf).unwrap(), 0);
    assert_eq!(rd.seek(SeekFrom::End(-1000)).unwrap(), 0);
    assert_eq!(rd.seek(SeekFrom::Current(-1)).unwrap_err().kind(), IoErrorKind::InvalidInput);
    let (stream, cipher) = rd.into_inner();
    assert_eq!(stream.stream_position(), 0);
    assert_eq!(cipher.current_pos(), 0);
}

#[test]
fn a_cipher_stream_seeks_stream_and_keystream() {
    let data = b"0123456789".to_vec();
    let mut wr = CipherWriteStream::new(MemStream::new(vec![0u8; 10]), NothingCipher::new());
    assert_eq!(wr.seek(SeekFrom::Start(4)).unwrap(), 4);
    assert_eq!(wr.write(&data[4..]).unwrap(), 6);
    assert_eq!(wr.seek(SeekFrom::Start(0)).unwrap(), 0);
    assert_eq!(wr.write(&data[..4]).unwrap(), 4);
    let (stream, cipher) = wr.into_inner();
    assert_eq!(cipher.current_pos(), 4);
    assert_eq!(stream.into_inner(), data);
}

#[test]
fn what_is_left_of_a_stream() {
    let mut s = MemStream::new(b"0123456789".to_vec());
    assert_eq!(s.fill_buf(), b"0123456789");
    s.consume(4);
    assert_eq!(s.stream_position(), 4);
    assert_eq!(s.fill_buf(), b"456789");
    s.consume(6);
    assert_eq!(s.fill_buf(), b"");
    s.consume(3);
    assert_eq!(s.stream_position(), 13);
    assert_eq!(s.fill_buf(), b"");

    let mut inner = MemStream::new(b"0123456789".to_vec());
    inner.seek(SeekFrom::Start(2)).unwrap();
    let mut sub = SubSeek::new(inner, 2, 5).unwrap();
    assert_eq!(sub.fill_buf(), b"23456");
    sub.consume(2);
    assert_eq!(sub.fill_buf(), b"45678");
    sub.consume(100);
    // no more than the section has left is taken, and its position stays
    assert_eq!(sub.stream_position().unwrap(), 0);
    assert_eq!(sub.fill_buf(), b"9");
    assert_eq!(sub.into_inner().stream_position(), 9);
}

#[test]
fn a_cipher_that_cannot_follow_a_seek_is_an_error() {
    let cipher = ChaCha12::new_from_slices(&KEY1, &NONCE).unwrap();
    let mut rd = CipherRead::new(MemStream::new(vec![1u8, 2, 3]), cipher).unwrap();
    // behind the end of the keystream of 274877906880 bytes
    let r = rd.seek(SeekFrom::Start(274877906881));
    assert_eq!(r.unwrap_err().kind(), IoErrorKind::Other);
    // the stream has moved, the cipher has not
    assert_eq!(rd.stream_position().unwrap(), 274877906881);
    let (_, cipher) = rd.into_inner();
    assert_eq!(cipher.current_pos(), 0);

    let cipher = ChaCha12::new_from_slices(&KEY1, &NONCE).unwrap();
    let mut wr = CipherWriteStream::new(MemStream::new(Vec::new()), cipher);
    assert_eq!(wr.seek(SeekFrom::Start(274877906880)).unwrap(), 274877906880);
    // the keystream has ended: nothing can be encrypted
    assert_eq!(wr.write(&[1u8]).unwrap_err().kind(), IoErrorKind::Other);
    let (stream, _) = wr.into_inner();
    assert_eq!(stream.into_inner(), Vec::<u8>::new());
}

#[test]
fn a_cipher_stream_that_fails_has_written_the_chunks_before() {
    let data: Vec<u8> = (0..600u32).map(|i| (i * 7 + 1) as u8).collect();
    // 300 bytes of keystream are left: one chunk of 256 bytes fits
    let end = 274877906880u64;
    let mut cipher = ChaCha12::new_from_slices(&KEY1, &NONCE).unwrap();
    cipher.try_seek(end - 300).unwrap();
    let mut wr = CipherWriteStream::new(MemStream::new(Vec::new()), cipher);
    assert_eq!(wr.write(&data).unwrap_err().kind(), IoErrorKind::Other);
    assert_eq!(wr.stream_position().unwrap(), 256);
    let (stream, cipher) = wr.into_inner();
    assert_eq!(cipher.current_pos(), end - 44);
    let mut want = data[..256].to_vec();
    let mut c = ChaCha12::new_from_slices(&KEY1, &NONCE).unwrap();
    c.try_seek(end - 300).unwrap();
    c.try_apply_keystream(&mut want).unwrap();
    assert_eq!(stream.into_inner(), want);

    // with 300 bytes of keystream left, 300 bytes are written
    let mut cipher = ChaCha12::new_from_slices(&KEY1, &NONCE).unwrap();
    cipher.try_seek(end - 300).unwrap();
    let mut wr = CipherWriteStream::new(MemStream::new(Vec::new()), cipher);
    assert_eq!(wr.write(&data[..300]).unwrap(), 300);
    // and nothing more, but for nothing
    assert_eq!(wr.write(&[]).unwrap(), 0);
    assert_eq!(wr.write(&[1u8]).unwrap_err().kind(), IoErrorKind::Other);
    let (stream, cipher) = wr.into_inner();
    assert_eq!(cipher.current_pos(), end);
    assert_eq!(stream.into_inner().len(), 300);
}

#[test]
fn a_stream_that_cannot_grow_fails_after_the_cipher_has_moved() {
    let mut stream = MemStream::new(vec![7u8; 3]);
    stream.seek(SeekFrom::Start(u64::MAX - 10)).unwrap();
    let mut wr = CipherWriteStream::new(stream, NothingCipher::new());
    // nothing is written for an empty buffer, wherever the stream stands
    assert_eq!(wr.write(&[]).unwrap(), 0);
    assert_eq!(wr.write(&[1u8; 20]).unwrap_err().kind(), IoErrorKind::InvalidInput);
    assert_eq!(wr.stream_position().unwrap(), u64::MAX - 10);
    let (stream, cipher) = wr.into_inner();
    assert_eq!(cipher.current_pos(), 20);
    assert_eq!(stream.into_inner(), vec![7u8; 3]);
}
