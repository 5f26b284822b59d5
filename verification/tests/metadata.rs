use enard::MetaMap;

#[test]
fn an_empty_map() {
    let m = MetaMap::new();
    assert_eq!(m.len(), 0);
    assert!(m.is_empty());
    assert!(m.get(b"k").is_none());
    assert!(!m.contains_key(b""));
}

#[test]
fn the_last_write_wins() {
    let mut m = MetaMap::new();
    assert_eq!(m.insert(b"a".to_vec(), b"1".to_vec()), None);
    assert_eq!(m.insert(b"b".to_vec(), b"2".to_vec()), None);
    assert_eq!(m.insert(b"a".to_vec(), b"3".to_vec()), Some(b"1".to_vec()));
    assert_eq!(m.len(), 2);
    assert!(!m.is_empty());
    assert_eq!(m.get(b"a").unwrap().as_slice(), b"3");
    assert_eq!(m.get(b"b").unwrap().as_slice(), b"2");
    assert!(m.contains_key(b"a"));
    assert!(!m.contains_key(b"c"));
    // a known key keeps its place, a new one goes to the end
    assert_eq!(m.key_at(0).as_slice(), b"a");
    assert_eq!(m.value_at(0).as_slice(), b"3");
    assert_eq!(m.key_at(1).as_slice(), b"b");
    assert_eq!(m.value_at(1).as_slice(), b"2");
}

#[test]
fn keys_are_told_apart_by_every_byte() {
    let mut m = MetaMap::new();
    m.insert(Vec::new(), b"empty".to_vec());
    m.insert(vec![0], b"zero".to_vec());
    m.insert(vec![0, 0], b"zeros".to_vec());
    assert_eq!(m.len(), 3);
    assert_eq!(m.get(&[]).unwrap().as_slice(), b"empty");
    assert_eq!(m.get(&[0]).unwrap().as_slice(), b"zero");
    assert_eq!(m.get(&[0, 0]).unwrap().as_slice(), b"zeros");
    assert!(m.get(&[0, 0, 0]).is_none());
}
