use storage::{
    KeyError,
    has_prefix, key_hash, lex_less, Column, Entry, Leaf, MultistoreConfig, OvkWrappedKey, PayloadKind,
    WrappedMemoKey,
};

#[test]
fn key_hash_is_sha256() {
    let h = key_hash(b"abc").0;
    let expected: [u8; 32] = [
        0xba, 0x78, 0x16, 0xbf, 0x8f, 0x01, 0xcf, 0xea, 0x41, 0x41, 0x40, 0xde, 0x5d, 0xae, 0x22, 0x23, 0xb0, 0x03,
        0x61, 0xa3, 0x96, 0x17, 0x7a, 0x9c, 0xb4, 0x10, 0xff, 0x61, 0xf2, 0x00, 0x15, 0xad,
    ];
    assert_eq!(h, expected);
}

#[test]
fn routing_strips_matched_prefix() {
    let cfg = MultistoreConfig::new(vec![b"dex/".to_vec(), b"stake/".to_vec()]).unwrap();
    assert_eq!(cfg.route_key_bytes(b"dex/pool/1"), (b"pool/1".to_vec(), 0));
    assert_eq!(cfg.route_key_bytes(b"stake/"), (vec![], 1));
    assert_eq!(cfg.route_key_bytes(b"ibc/x"), (b"ibc/x".to_vec(), 2));
    assert_eq!(cfg.route_key_bytes(b"dex"), (b"dex".to_vec(), 2));
    assert_eq!(cfg.prefix(1), b"stake/".to_vec());
    assert_eq!(cfg.prefix(2), Vec::<u8>::new());
    assert_eq!(cfg.store_count(), 3);
}

#[test]
fn config_refuses_overlapping_or_empty_prefixes() {
    assert!(MultistoreConfig::new(vec![b"dex/".to_vec(), b"dex/pool/".to_vec()]).is_none());
    assert!(MultistoreConfig::new(vec![b"".to_vec()]).is_none());
    assert!(MultistoreConfig::new(vec![b"a".to_vec(), b"b".to_vec()]).is_some());
}

#[test]
fn column_requires_ascending_keys() {
    let e = |k: &[u8]| Entry { key: k.to_vec(), value: vec![] };
    assert!(Column::new(vec![e(b"a"), e(b"b"), e(b"ba")]).is_some());
    assert!(Column::new(vec![e(b"b"), e(b"a")]).is_none());
    assert!(Column::new(vec![e(b"a"), e(b"a")]).is_none());
    let c = Column::new(vec![e(b"a"), e(b"c")]).unwrap();
    assert_eq!(c.len(), 2);
    assert_eq!(c.get(b"c"), Some(vec![]));
    assert_eq!(c.get(b"b"), None);
}

#[test]
fn byte_order_helpers() {
    assert!(lex_less(b"a", b"ab"));
    assert!(lex_less(b"", b"a"));
    assert!(!lex_less(b"b", b"ab"));
    assert!(!lex_less(b"ab", b"ab"));
    assert!(has_prefix(b"dex/pool", b"dex/"));
    assert!(!has_prefix(b"de", b"dex/"));
    assert!(has_prefix(b"x", b""));
}

#[test]
fn payload_nonces() {
    assert_eq!(PayloadKind::Note.nonce(), [0u8; 12]);
    let mut m = [0u8; 12];
    m[0] = 1;
    assert_eq!(PayloadKind::MemoKey.nonce(), m);
    m[0] = 2;
    assert_eq!(PayloadKind::Swap.nonce(), m);
    m[0] = 3;
    assert_eq!(PayloadKind::Memo.nonce(), m);
}

#[test]
fn wrapped_keys_to_vec() {
    let mut b = [0u8; 48];
    b[0] = 9;
    b[47] = 4;
    assert_eq!(OvkWrappedKey(b).to_vec(), b.to_vec());
    assert_eq!(WrappedMemoKey(b).to_vec(), b.to_vec());
}

#[test]
fn leaf_holds_item() {
    let l = Leaf::new(17u64);
    assert_eq!(*l.item(), 17);
}

#[test]
fn wrapped_keys_try_from_bytes() {
    let mut b = [0u8; 48];
    b[3] = 7;
    b[40] = 200;
    let k = OvkWrappedKey::try_from(b.to_vec()).unwrap();
    assert_eq!(k.0, b);
    assert_eq!(OvkWrappedKey::try_from(k.to_vec()).unwrap().0, b);
    assert_eq!(OvkWrappedKey::try_from(&b[..]).unwrap().0, b);
    assert_eq!(OvkWrappedKey::try_from(vec![0u8; 47]).err(), Some(KeyError::Malformed));
    assert_eq!(OvkWrappedKey::try_from(&[0u8; 49][..]).err(), Some(KeyError::Malformed));
    let m = WrappedMemoKey::try_from(b.to_vec()).unwrap();
    assert_eq!(WrappedMemoKey::try_from(m.to_vec()).unwrap().0, b);
    assert_eq!(WrappedMemoKey::try_from(&b[..]).unwrap().0, b);
    assert_eq!(WrappedMemoKey::try_from(Vec::new()).err(), Some(KeyError::Malformed));
}
