use prost::Message;
use storage::{
    compose_proof, key_hash, Column, Entry, MultistoreConfig, MultistoreState, RangeBound, RootHash, Snapshot, Storage, StorageError,
    SubstoreState,
};

fn entry(k: &[u8], v: &[u8]) -> Entry {
    Entry { key: k.to_vec(), value: v.to_vec() }
}

fn sorted_column(mut entries: Vec<Entry>) -> Column {
    entries.sort_by(|a, b| a.key.cmp(&b.key));
    Column::new(entries).unwrap()
}

/// A sub-store holding `pairs` in its tree and index and `side` in its
/// unauthenticated column, with the root its tree computes.
fn substore(pairs: &[(&str, &str)], side: &[(&str, &str)]) -> SubstoreState {
    let tree = pairs.iter().map(|(k, v)| entry(&key_hash(k.as_bytes()).0, v.as_bytes())).collect();
    let keys = pairs.iter().map(|(k, _)| entry(k.as_bytes(), &key_hash(k.as_bytes()).0)).collect();
    let side = side.iter().map(|(k, v)| entry(k.as_bytes(), v.as_bytes())).collect();
    SubstoreState::with_computed_root(sorted_column(tree), sorted_column(keys), sorted_column(side)).unwrap()
}

/// A state over `subs` (the nested sub-stores in order, then the main
/// store) whose main store records each nested sub-store's root under its
/// prefix, in its tree and its index.
fn state(prefixes: &[&str], mut subs: Vec<SubstoreState>) -> MultistoreState {
    let main = subs.pop().unwrap();
    let mut entries: Vec<Entry> = main.tree.entries;
    let mut keys: Vec<Entry> = main.keys.entries;
    for (i, p) in prefixes.iter().enumerate() {
        entries.push(entry(&key_hash(p.as_bytes()).0, &subs[i].root_hash().0));
        keys.push(entry(p.as_bytes(), &key_hash(p.as_bytes()).0));
    }
    subs.push(
        SubstoreState::with_computed_root(sorted_column(entries), sorted_column(keys), main.nonverifiable).unwrap(),
    );
    MultistoreState { substores: subs }
}

fn config(prefixes: &[&str]) -> MultistoreConfig {
    MultistoreConfig::new(prefixes.iter().map(|p| p.as_bytes().to_vec()).collect()).unwrap()
}

fn pairs_of(v: &[Entry]) -> Vec<(Vec<u8>, Vec<u8>)> {
    v.iter().map(|e| (e.key.clone(), e.value.clone())).collect()
}

fn owned(v: &[(&str, &str)]) -> Vec<(Vec<u8>, Vec<u8>)> {
    v.iter().map(|(k, v)| (k.as_bytes().to_vec(), v.as_bytes().to_vec())).collect()
}

fn decode(p: &[u8]) -> ics23::CommitmentProof {
    ics23::CommitmentProof::decode(p).unwrap()
}

fn member(p: &[u8], root: &[u8], key: &[u8], value: &[u8]) -> bool {
    ics23::verify_membership::<ics23::HostFunctionsManager>(&decode(p), &jmt::ics23_spec(), &root.to_vec(), key, value)
}

fn non_member(p: &[u8], root: &[u8], key: &[u8]) -> bool {
    ics23::verify_non_membership::<ics23::HostFunctionsManager>(&decode(p), &jmt::ics23_spec(), &root.to_vec(), key)
}

/// Sub-stores `dex/` and `stake/`, then the main store.
fn scenario_snapshot() -> Snapshot {
    let mut storage = Storage::new(config(&["dex/", "stake/"]));
    let state = state(
        &["dex/", "stake/"],
        vec![
            substore(&[("pool/1", "A"), ("pool/2", "B")], &[]),
            substore(&[("val/1", "C")], &[]),
            substore(&[("other", "D")], &[]),
        ],
    );
    assert_eq!(storage.commit(state), Ok(0));
    storage.snapshot(0).ok().unwrap()
}

#[test]
fn scenario_prefix_and_two_link_proof() {
    let snap = scenario_snapshot();
    let got = snap.prefix_raw(b"dex/pool/");
    assert_eq!(pairs_of(&got), owned(&[("dex/pool/1", "A"), ("dex/pool/2", "B")]));

    let (value, chain) = snap.get_with_proof(b"stake/val/1").unwrap();
    assert_eq!(value, Some(b"C".to_vec()));
    assert_eq!(chain.len(), 2);
    let stake_root = snap.root_hash_for(b"stake/").0;
    assert_ne!(stake_root, [0u8; 32]);
    // The inner proof proves the key in the sub-store against its root; the
    // outer proof proves that root in the main store against the composite root.
    assert!(member(&chain[0], &stake_root, b"val/1", b"C"));
    assert!(member(&chain[1], &snap.root_hash().0, b"stake/", &stake_root));
    assert!(!member(&chain[0], &stake_root, b"val/1", b"X"));
    assert!(!member(&chain[1], &snap.root_hash().0, b"stake/", &[0u8; 32]));
}

#[test]
fn main_store_chain_has_one_link() {
    let snap = scenario_snapshot();
    let (value, chain) = snap.get_with_proof(b"other").unwrap();
    assert_eq!(value, Some(b"D".to_vec()));
    assert_eq!(chain.len(), 1);
    assert!(member(&chain[0], &snap.root_hash().0, b"other", b"D"));
}

#[test]
fn absent_key_gives_none_with_non_existence_proof() {
    let snap = scenario_snapshot();
    let (value, chain) = snap.get_with_proof(b"dex/pool/9").unwrap();
    assert_eq!(value, None);
    assert_eq!(chain.len(), 2);
    let dex_root = snap.root_hash_for(b"dex/").0;
    assert!(non_member(&chain[0], &dex_root, b"pool/9"));
    assert!(member(&chain[1], &snap.root_hash().0, b"dex/", &dex_root));
}

#[test]
fn get_raw_routes_by_prefix() {
    let snap = scenario_snapshot();
    assert_eq!(snap.get_raw(b"dex/pool/1"), Some(b"A".to_vec()));
    assert_eq!(snap.get_raw(b"stake/val/1"), Some(b"C".to_vec()));
    assert_eq!(snap.get_raw(b"other"), Some(b"D".to_vec()));
    // The residual key alone does not reach a nested store.
    assert_eq!(snap.get_raw(b"pool/1"), None);
    assert_eq!(snap.get_raw(b"dex/other"), None);
}

#[test]
fn snapshot_isolation_across_commits() {
    let mut storage = Storage::new(config(&["dex/"]));
    let v0 = state(&["dex/"], vec![substore(&[("a", "1")], &[]), substore(&[], &[])]);
    let v1 = state(&["dex/"], vec![substore(&[("a", "2")], &[]), substore(&[], &[])]);
    assert_eq!(storage.commit(v0), Ok(0));
    let old = storage.snapshot(0).ok().unwrap();
    let (_, old_chain) = old.get_with_proof(b"dex/a").unwrap();
    assert_eq!(storage.commit(v1), Ok(1));
    assert_eq!(old.get_raw(b"dex/a"), Some(b"1".to_vec()));
    assert_eq!(storage.snapshot(0).ok().unwrap().get_raw(b"dex/a"), Some(b"1".to_vec()));
    let new = storage.snapshot(1).ok().unwrap();
    assert_eq!(new.get_raw(b"dex/a"), Some(b"2".to_vec()));
    assert_eq!(storage.latest_version(), Some(1));
    assert_eq!(storage.latest_snapshot().unwrap().version(), 1);
    assert_eq!(old.version(), 0);
    // The old proof still verifies against the old roots, not the new ones.
    let (_, again) = old.get_with_proof(b"dex/a").unwrap();
    assert_eq!(again, old_chain);
    assert!(member(&old_chain[0], &old.root_hash_for(b"dex/").0, b"a", b"1"));
    assert!(member(&old_chain[1], &old.root_hash().0, b"dex/", &old.root_hash_for(b"dex/").0));
    assert_ne!(old.root_hash().0, new.root_hash().0);
    assert!(!member(&old_chain[0], &new.root_hash_for(b"dex/").0, b"a", b"1"));
    assert!(!member(&old_chain[1], &new.root_hash().0, b"dex/", &old.root_hash_for(b"dex/").0));
}

#[test]
fn unknown_version_and_malformed_state() {
    let mut storage = Storage::new(config(&["dex/"]));
    assert_eq!(storage.latest_version(), None);
    assert!(storage.latest_snapshot().is_none());
    assert_eq!(storage.snapshot(0).err(), Some(StorageError::UnknownVersion));
    let short = MultistoreState { substores: vec![substore(&[], &[])] };
    assert_eq!(storage.commit(short), Err(StorageError::Malformed));
    // The main store must record the nested sub-store's root under its prefix.
    let unrecorded = MultistoreState { substores: vec![substore(&[("a", "1")], &[]), substore(&[], &[])] };
    assert_eq!(storage.commit(unrecorded), Err(StorageError::Malformed));
    let wrong_root = MultistoreState { substores: vec![substore(&[("a", "1")], &[]), substore(&[("dex/", "x")], &[])] };
    assert_eq!(storage.commit(wrong_root), Err(StorageError::Malformed));
    // The main index must hold the nested prefix.
    let mut unindexed = state(&["dex/"], vec![substore(&[("a", "1")], &[]), substore(&[], &[])]);
    unindexed.substores[1].keys = Column::empty();
    assert_eq!(storage.commit(unindexed), Err(StorageError::Malformed));
    // Tree keys are 32-byte key hashes.
    let short_hash = SubstoreState::with_computed_root(Column::empty(), Column::empty(), Column::empty()).unwrap();
    let mut bad_tree = state(&["dex/"], vec![substore(&[], &[]), substore(&[], &[])]);
    bad_tree.substores[0] = short_hash;
    bad_tree.substores[0].tree = Column::new(vec![entry(b"short", b"v")]).unwrap();
    assert_eq!(storage.commit(bad_tree), Err(StorageError::Malformed));
    // A recorded root must be the one the tree computes.
    let mut forged = state(&["dex/"], vec![substore(&[("a", "1")], &[]), substore(&[], &[])]);
    forged.substores[1].root = RootHash([9u8; 32]);
    assert_eq!(storage.commit(forged), Err(StorageError::Malformed));
    assert_eq!(storage.latest_version(), None);
}

#[test]
fn index_without_tree_value_is_refused() {
    let mut st = substore(&[("a", "1")], &[]);
    st.keys = Column::new(vec![entry(b"a", &key_hash(b"a").0), entry(b"b", &key_hash(b"b").0)]).unwrap();
    let mut storage = Storage::new(config(&[]));
    assert_eq!(storage.commit(MultistoreState { substores: vec![st] }), Err(StorageError::Malformed));
    assert!(!SubstoreState {
        tree: Column::empty(),
        keys: Column::new(vec![entry(b"a", &key_hash(b"a").0)]).unwrap(),
        nonverifiable: Column::empty(),
        root: RootHash([0u8; 32]),
    }
    .check_index());
}

#[test]
fn empty_store_root_is_all_zero() {
    let mut storage = Storage::new(config(&["dex/"]));
    let state = state(&["dex/"], vec![substore(&[], &[]), substore(&[("k", "v")], &[])]);
    storage.commit(state).unwrap();
    let snap = storage.snapshot(0).ok().unwrap();
    assert_eq!(snap.root_hash_for(b"dex/").0, [0u8; 32]);
    assert_ne!(snap.root_hash().0, [0u8; 32]);
    assert_eq!(SubstoreState::empty().root_hash().0, [0u8; 32]);
}

#[test]
fn prefix_raw_matches_reference_filter() {
    let keys = ["a", "ab", "abc", "abd", "ac", "b", "ba", ""];
    let pairs: Vec<(&str, &str)> = keys.iter().map(|k| (*k, "v")).collect();
    let mut storage = Storage::new(config(&["zz/"]));
    storage.commit(state(&["zz/"], vec![substore(&[], &[]), substore(&pairs, &[])])).unwrap();
    let snap = storage.snapshot(0).ok().unwrap();
    for p in ["", "a", "ab", "abc", "b", "c", "abz"] {
        // The main store also holds the nested sub-store's (empty) root
        // under its prefix.
        let mut expected: Vec<(Vec<u8>, Vec<u8>)> = keys
            .iter()
            .filter(|k| k.starts_with(p))
            .map(|k| (k.as_bytes().to_vec(), b"v".to_vec()))
            .chain(Some((b"zz/".to_vec(), vec![0u8; 32])).filter(|_| "zz/".starts_with(p)))
            .collect();
        expected.sort();
        assert_eq!(pairs_of(&snap.prefix_raw(p.as_bytes())), expected);
        let ks: Vec<Vec<u8>> = expected.iter().map(|(k, _)| k.clone()).collect();
        assert_eq!(snap.prefix_keys(p.as_bytes()), ks);
    }
}

fn range_snapshot() -> Snapshot {
    let side = [
        ("compactblock/001", "1"),
        ("compactblock/002", "2"),
        ("compactblock/010", "3"),
        ("compactblocks", "x"),
        ("d", "y"),
        ("a", "z"),
    ];
    let mut storage = Storage::new(config(&["dex/"]));
    storage.commit(state(&["dex/"], vec![substore(&[], &[("pk", "q")]), substore(&[], &side)])).unwrap();
    storage.snapshot(0).ok().unwrap()
}

#[test]
fn range_with_prefix_and_open_end_stops_after_prefix() {
    let snap = range_snapshot();
    let got = snap
        .nonverifiable_range_raw(Some(b"compactblock/"), &RangeBound::Included(b"002".to_vec()), &RangeBound::Unbounded)
        .ok()
        .unwrap();
    assert_eq!(pairs_of(&got), owned(&[("compactblock/002", "2"), ("compactblock/010", "3")]));
}

#[test]
fn range_with_prefix_and_exclusive_end() {
    let snap = range_snapshot();
    let got = snap
        .nonverifiable_range_raw(
            Some(b"compactblock/"),
            &RangeBound::Included(b"001".to_vec()),
            &RangeBound::Excluded(b"010".to_vec()),
        )
        .ok()
        .unwrap();
    assert_eq!(pairs_of(&got), owned(&[("compactblock/001", "1"), ("compactblock/002", "2")]));
}

#[test]
fn range_with_empty_exclusive_end_is_empty() {
    let snap = range_snapshot();
    let got = snap
        .nonverifiable_range_raw(Some(b"compactblock/"), &RangeBound::Included(b"002".to_vec()), &RangeBound::Excluded(vec![]))
        .ok()
        .unwrap();
    assert!(got.is_empty());
    let got = snap.nonverifiable_range_raw(None, &RangeBound::Unbounded, &RangeBound::Excluded(vec![])).ok().unwrap();
    assert!(got.is_empty());
    let mut c = snap
        .nonverifiable_range_cursor(Some(b"compactblock/"), &RangeBound::Unbounded, &RangeBound::Excluded(vec![]))
        .ok()
        .unwrap();
    assert!(c.next().is_none());
}

#[test]
fn range_without_prefix_matches_reference() {
    let snap = range_snapshot();
    let all = ["a", "compactblock/001", "compactblock/002", "compactblock/010", "compactblocks", "d"];
    let bounds: [(&str, Option<&str>); 6] =
        [("", None), ("b", None), ("compactblock/002", Some("d")), ("a", Some("a")), ("", Some("compactblocks")), ("", Some(""))];
    for (start, end) in bounds {
        let expected: Vec<Vec<u8>> = all
            .iter()
            .filter(|k| **k >= start && end.map_or(true, |e| **k < e))
            .map(|k| k.as_bytes().to_vec())
            .collect();
        let end_bound = match end {
            Some(e) => RangeBound::Excluded(e.as_bytes().to_vec()),
            None => RangeBound::Unbounded,
        };
        let got = snap.nonverifiable_range_raw(None, &RangeBound::Included(start.as_bytes().to_vec()), &end_bound).ok().unwrap();
        let ks: Vec<Vec<u8>> = got.iter().map(|e| e.key.clone()).collect();
        assert_eq!(ks, expected);
    }
}

#[test]
fn range_refuses_unsupported_bounds() {
    let snap = range_snapshot();
    let r = snap.nonverifiable_range_raw(None, &RangeBound::Excluded(b"a".to_vec()), &RangeBound::Unbounded);
    assert_eq!(r.err(), Some(StorageError::UnsupportedBound));
    let r = snap.nonverifiable_range_raw(None, &RangeBound::Unbounded, &RangeBound::Included(b"a".to_vec()));
    assert_eq!(r.err(), Some(StorageError::UnsupportedBound));
}

#[test]
fn nonverifiable_reads_use_residual_keys() {
    let snap = range_snapshot();
    assert_eq!(snap.nonverifiable_get_raw(b"dex/pk"), Some(b"q".to_vec()));
    assert_eq!(snap.nonverifiable_get_raw(b"d"), Some(b"y".to_vec()));
    assert_eq!(snap.nonverifiable_get_raw(b"dex/zz"), None);
    let got = snap.nonverifiable_prefix_raw(b"compactblock/");
    assert_eq!(got.len(), 3);
    assert_eq!(pairs_of(&snap.nonverifiable_prefix_raw(b"dex/")), owned(&[("pk", "q")]));
}

#[test]
fn prefix_cursor_yields_prefix_raw_one_at_a_time() {
    let snap = scenario_snapshot();
    let mut cursor = snap.prefix_raw_cursor(b"dex/");
    let first = cursor.next().unwrap();
    assert_eq!((first.key, first.value), (b"dex/pool/1".to_vec(), b"A".to_vec()));
    let second = cursor.next().unwrap();
    assert_eq!((second.key, second.value), (b"dex/pool/2".to_vec(), b"B".to_vec()));
    assert!(cursor.next().is_none());
    assert!(cursor.next().is_none());
    let mut keys = snap.prefix_raw_cursor(b"dex/pool/2");
    assert_eq!(keys.next_key(), Some(b"dex/pool/2".to_vec()));
    assert_eq!(keys.next_key(), None);
}

#[test]
fn range_cursor_matches_range_scan() {
    let snap = range_snapshot();
    let bounds = [
        (Some(&b"compactblock/"[..]), RangeBound::Included(b"002".to_vec()), RangeBound::Unbounded),
        (None, RangeBound::Unbounded, RangeBound::Excluded(b"d".to_vec())),
        (None, RangeBound::Included(b"b".to_vec()), RangeBound::Unbounded),
    ];
    for (prefix, start, end) in bounds.iter() {
        let all = snap.nonverifiable_range_raw(*prefix, start, end).ok().unwrap();
        let mut cursor = snap.nonverifiable_range_cursor(*prefix, start, end).ok().unwrap();
        let mut got = Vec::new();
        while let Some(e) = cursor.next() {
            got.push((e.key, e.value));
        }
        assert_eq!(got, pairs_of(&all));
    }
    let r = snap.nonverifiable_range_cursor(None, &RangeBound::Excluded(vec![]), &RangeBound::Unbounded);
    assert_eq!(r.err(), Some(StorageError::UnsupportedBound));
    let mut c = snap.nonverifiable_prefix_cursor(b"compactblock/");
    assert_eq!(c.next().map(|e| e.key), Some(b"compactblock/001".to_vec()));
}

#[test]
fn compose_proof_builds_the_chain() {
    assert_eq!(compose_proof(Some(vec![1]), Some(vec![2]), true), Ok(vec![vec![1], vec![2]]));
    assert_eq!(compose_proof(Some(vec![1]), None, false), Ok(vec![vec![1]]));
    assert_eq!(compose_proof(Some(vec![1]), Some(vec![2]), false), Ok(vec![vec![1]]));
    assert_eq!(compose_proof(None, Some(vec![2]), true), Err(StorageError::ProofUnavailable));
    assert_eq!(compose_proof(Some(vec![1]), None, true), Err(StorageError::ProofUnavailable));
    assert_eq!(compose_proof(None, None, false), Err(StorageError::ProofUnavailable));
}

#[test]
fn computed_root_of_empty_tree_is_zero() {
    let s = SubstoreState::with_computed_root(Column::empty(), Column::empty(), Column::empty()).unwrap();
    assert_eq!(s.root.0, [0u8; 32]);
    let t = substore(&[("a", "1")], &[]);
    assert_ne!(t.root.0, [0u8; 32]);
    assert!(t.validate());
}

#[test]
fn compact_block_range_from_start_key() {
    let side = [("compactblock/001", "v1"), ("compactblock/002", "v2"), ("compactblock/003", "v3"), ("other", "v4")];
    let mut storage = Storage::new(config(&["dex/"]));
    storage.commit(state(&["dex/"], vec![substore(&[], &[]), substore(&[], &side)])).unwrap();
    let snap = storage.snapshot(0).ok().unwrap();
    let got = snap
        .nonverifiable_range_raw(Some(b"compactblock/"), &RangeBound::Included(b"002".to_vec()), &RangeBound::Unbounded)
        .ok()
        .unwrap();
    assert_eq!(pairs_of(&got), owned(&[("compactblock/002", "v2"), ("compactblock/003", "v3")]));
}
