use syner::builder::{backup_target, build_manifest, classify, join_key, record_file, relative_key, ScannedFile};
use syner::digest::{digest, HashStream};
use syner::model::{decode_manifest, ItemOp, ManifestData, ManifestError, ManifestItem, ManifestMap};

fn hex(b: &[u8]) -> String {
    b.iter().map(|x| format!("{:02x}", x)).collect()
}

fn scanned(path: &str, content: &[u8]) -> ScannedFile {
    let mut stream = HashStream::new();
    for chunk in content.chunks(3) {
        stream.feed(chunk);
    }
    ScannedFile { path: path.to_string(), content: stream }
}

#[test]
fn digest_of_empty_input() {
    assert_eq!(hex(&digest(b"")), "a7ffc6f8bf1ed76651c14756a061d662f580ff4de43b49fa82d80a4b80f8434a");
}

#[test]
fn digest_of_abc() {
    assert_eq!(hex(&digest(b"abc")), "3a985da74fe225b2045c172d6bd390bd855f086e3e9d525b46bfe24511431532");
}

#[test]
fn chunked_digest_equals_whole() {
    let data: Vec<u8> = (0..10000u32).map(|i| (i % 251) as u8).collect();
    let mut stream = HashStream::new();
    for chunk in data.chunks(1000) {
        stream.feed(chunk);
    }
    assert_eq!(stream.bytes_read(), 10000);
    let whole = digest(&data);
    assert_eq!(whole.len(), 32);
    assert_eq!(stream.finish(), whole);
}

#[test]
fn relative_key_under_root() {
    assert_eq!(relative_key("/srv/content/a/b.txt", "/srv/content"), Some("a/b.txt".to_string()));
    assert_eq!(relative_key("content/x", "content"), Some("x".to_string()));
    assert_eq!(relative_key("./content/a/b.txt", "./content"), Some("a/b.txt".to_string()));
    assert_eq!(relative_key("rel/x", "/abs"), None);
}

#[test]
fn relative_key_refuses_paths_leaving_root() {
    assert_eq!(relative_key("/x/y", "/c"), None);
    assert_eq!(relative_key("/abs/a/b", "rel"), None);
    assert_eq!(relative_key("/c", "/c"), None);
}

#[test]
fn join_key_joins_with_slash() {
    assert_eq!(join_key(&vec!["a".to_string(), "b".to_string(), "c.txt".to_string()]), "a/b/c.txt");
    assert_eq!(join_key(&vec!["x".to_string()]), "x");
    assert_eq!(join_key(&vec![]), "");
}

#[test]
fn classify_by_marker() {
    assert_eq!(classify("a/b.txt", "del"), ItemOp::Sync);
    assert_eq!(classify("a/b.del", "del"), ItemOp::Remove);
    assert_eq!(classify("a.del/b", "del"), ItemOp::Sync);
}

#[test]
fn synced_file_listed_with_length_and_digest() {
    let files = vec![scanned("/c/a/b.txt", b"hello world"), scanned("/c/top", b"")];
    let map = build_manifest("/c", files, "del").unwrap();
    assert_eq!(map.len(), 2);
    let item = map.get("a/b.txt").unwrap();
    assert_eq!(item.op, ItemOp::Sync);
    assert_eq!(item.len, 11);
    assert_eq!(item.hash, digest(b"hello world"));
    let top = map.get("top").unwrap();
    assert_eq!(top.len, 0);
    assert_eq!(hex(&top.hash), "a7ffc6f8bf1ed76651c14756a061d662f580ff4de43b49fa82d80a4b80f8434a");
}

#[test]
fn marked_file_is_tombstone_and_not_mirrored() {
    let files = vec![scanned("/c/gone.del", b"x"), scanned("/c/kept.txt", b"y")];
    let map = build_manifest("/c", files, "del").unwrap();
    assert_eq!(map.get("gone.del").unwrap().op, ItemOp::Remove);
    assert_eq!(map.get("kept.txt").unwrap().op, ItemOp::Sync);
    assert_eq!(backup_target("/c", "./.c", "/c/gone.del", "del"), Ok(None));
    assert_eq!(backup_target("/c", "./.c", "/c/kept.txt", "del"), Ok(Some("./.c/kept.txt".to_string())));
    assert_eq!(backup_target("/c", "./.c", "/c/d/e.txt", "del"), Ok(Some("./.c/d/e.txt".to_string())));
}

#[test]
fn file_outside_root_fails_scan() {
    let files = vec![scanned("/c/a", b"1"), scanned("/other/b", b"2")];
    assert!(matches!(build_manifest("/c", files, "del"), Err(ManifestError::OutsideRoot)));
    assert_eq!(backup_target("/c", "./.c", "rel", "del"), Err(ManifestError::OutsideRoot));
    assert_eq!(backup_target("/c", "./.c", "/d/x", "del"), Err(ManifestError::OutsideRoot));
}

#[test]
fn record_file_overwrites_same_key() {
    let mut map = ManifestMap::new();
    record_file(&mut map, "/c", scanned("/c/a", b"one"), "del").unwrap();
    record_file(&mut map, "/c", scanned("/c/a", b"three"), "del").unwrap();
    assert_eq!(map.len(), 1);
    assert_eq!(map.get("a").unwrap().len, 5);
    assert!(record_file(&mut map, "/c", scanned("x/a", b"z"), "del").is_err());
    assert_eq!(map.len(), 1);
}

#[test]
fn empty_scan_gives_empty_manifest() {
    let map = build_manifest("/c", Vec::new(), "del").unwrap();
    assert_eq!(map.len(), 0);
    let data = ManifestData::new(map);
    assert_eq!(decode_manifest(&data.blob).unwrap().len(), 0);
}

#[test]
fn blob_round_trip() {
    let mut map = ManifestMap::new();
    map.insert("a/b.txt".to_string(), ManifestItem { op: ItemOp::Sync, len: 11, hash: digest(b"hello world") });
    map.insert("c.del".to_string(), ManifestItem { op: ItemOp::Remove, len: 1, hash: digest(b"x") });
    map.insert("big".to_string(), ManifestItem { op: ItemOp::Sync, len: u64::MAX, hash: vec![7; 32] });
    let data = ManifestData::new(map);
    assert!(!data.blob.is_empty());
    let mut back = decode_manifest(&data.blob).unwrap();
    back.sort_by(|a, b| a.0.cmp(&b.0));
    assert_eq!(back.len(), 3);
    assert_eq!(back[0].0, "a/b.txt");
    assert_eq!((back[0].1.op, back[0].1.len, back[0].1.hash.clone()), (ItemOp::Sync, 11, digest(b"hello world")));
    assert_eq!(back[1].0, "big");
    assert_eq!((back[1].1.op, back[1].1.len, back[1].1.hash.clone()), (ItemOp::Sync, u64::MAX, vec![7; 32]));
    assert_eq!(back[2].0, "c.del");
    assert_eq!((back[2].1.op, back[2].1.len, back[2].1.hash.clone()), (ItemOp::Remove, 1, digest(b"x")));
}

#[test]
fn blob_is_msgpack_map() {
    let mut map = ManifestMap::new();
    map.insert("k".to_string(), ManifestItem { op: ItemOp::Remove, len: 2, hash: vec![9] });
    let data = ManifestData::new(map);
    // fixmap of one entry, fixstr "k", fixarray of three: 1, 2, bin8 [9]
    assert_eq!(data.blob, vec![0x81, 0xa1, b'k', 0x93, 0x01, 0x02, 0xc4, 0x01, 0x09]);
}

#[test]
fn garbage_blob_is_decode_error() {
    assert!(matches!(decode_manifest(&[0xc1]), Err(ManifestError::Decode)));
    assert!(matches!(decode_manifest(b"not a manifest"), Err(ManifestError::Decode)));
}

#[test]
fn unknown_op_is_rejected() {
    let blob = vec![0x81, 0xa1, b'k', 0x93, 0x05, 0x02, 0xc4, 0x01, 0x09];
    assert!(matches!(decode_manifest(&blob), Err(ManifestError::UnknownOp)));
}

#[test]
fn op_bytes() {
    assert_eq!(ItemOp::Sync.to_byte(), 0);
    assert_eq!(ItemOp::Remove.to_byte(), 1);
    assert_eq!(ItemOp::from_byte(1), Some(ItemOp::Remove));
    assert_eq!(ItemOp::from_byte(2), None);
}
