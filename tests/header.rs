use simd_http::parts::header::{AlignedHeaderKey, HeaderHasher, HeaderMap};

#[test]
fn test_insert() {
    let mut map = HeaderMap::new();
    let key = AlignedHeaderKey::new(b"key");
    map.insert(&key, b"value1");
    assert_eq!(map.get(&AlignedHeaderKey::new(b"key")), Some(b"value1".as_slice()));
    assert_eq!(map.get(&AlignedHeaderKey::new(b"Key")), Some(b"value1".as_slice()));
    assert_eq!(map.get(&AlignedHeaderKey::new(b"KEy")), Some(b"value1".as_slice()));
    assert_eq!(map.get(&AlignedHeaderKey::new(b"KEY")), Some(b"value1".as_slice()));

    let key = AlignedHeaderKey::new(b"User-Agent");
    map.insert(&key, b"value2");
    assert_eq!(map.get(&AlignedHeaderKey::new(b"user-agent")), Some(b"value2".as_slice()));
    assert_eq!(map.get(&AlignedHeaderKey::new(b"User-AGent")), Some(b"value2".as_slice()));
    assert_eq!(map.get(&AlignedHeaderKey::new(b"USER-AGENT")), Some(b"value2".as_slice()));
}

#[test]
fn lookup_ignores_case_of_user_agent() {
    let mut map = HeaderMap::new();
    let key = AlignedHeaderKey::new(b"User-Agent");
    map.insert(&key, b"curl/7.64.1");
    for name in [b"user-agent", b"USER-AGENT", b"UsEr-AgEnT"] {
        assert_eq!(map.get(&AlignedHeaderKey::new(name)), Some(b"curl/7.64.1".as_slice()));
    }
    assert_eq!(map.get(&AlignedHeaderKey::new(b"user-agent2")), None);
}

#[test]
fn insert_replaces_value_of_same_key() {
    let mut map = HeaderMap::new();
    let a = AlignedHeaderKey::new(b"Accept");
    let b = AlignedHeaderKey::new(b"ACCEPT");
    map.insert(&a, b"*/*");
    map.insert(&b, b"text/html");
    assert_eq!(map.get(&AlignedHeaderKey::new(b"accept")), Some(b"text/html".as_slice()));
    assert_eq!(map.get(&AlignedHeaderKey::new(b"host")), None);
}

#[test]
fn empty_map_finds_nothing() {
    let map = HeaderMap::new();
    assert_eq!(map.get(&AlignedHeaderKey::default()), None);
}

#[test]
fn key_is_lowercased_and_zero_padded() {
    let key = AlignedHeaderKey::new(b"Content-Type");
    let mut expected = [0u8; 32];
    expected[..12].copy_from_slice(b"content-type");
    assert_eq!(key.0 .0, expected);
}

#[test]
fn long_name_is_cut_to_key_width() {
    let name = b"X-A-Very-Long-Header-Name-That-Goes-On-And-On";
    let key = AlignedHeaderKey::new(name);
    let mut expected = [0u8; 32];
    expected.copy_from_slice(&name.to_ascii_lowercase()[..32]);
    assert_eq!(key.0 .0, expected);
    assert!(key == AlignedHeaderKey::new(&name[..32]));
}

#[test]
fn hash_sums_little_endian_words() {
    let mut hasher = HeaderHasher::default();
    hasher.write(&[1u8; 32]);
    assert_eq!(hasher.finish(), 0x0404_0404_0404_0404);
    let mut bytes = [0u8; 32];
    bytes[0] = 1;
    bytes[9] = 2;
    bytes[31] = 0x80;
    let mut hasher = HeaderHasher(5);
    hasher.write(&bytes);
    assert_eq!(hasher.finish(), 1 + 0x200 + 0x8000_0000_0000_0000 + 5);
}

#[test]
fn hash_wraps_around() {
    let mut hasher = HeaderHasher(2);
    hasher.write(&[0xFFu8; 32]);
    // four words of u64::MAX sum to -4, plus 2
    assert_eq!(hasher.finish(), u64::MAX - 1);
}
