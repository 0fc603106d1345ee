use kaguya::error::KaguyaError;
use kaguya::hash::{
    calculate_content_hash, calculate_dir_checksum, calculate_entry_checksum, sort_digests, text_less, EntryContent,
    FileDigest,
};

fn digest(path: &str, content: &str) -> FileDigest {
    FileDigest { rel_path: path.to_string(), hash: calculate_content_hash(content.as_bytes()) }
}

#[test]
fn content_hash_is_sha256_hex() {
    assert_eq!(
        calculate_content_hash(b"abc"),
        "ba7816bf8f01cfea414140de5dae2223b00361a396177a9cb410ff61f20015ad"
    );
    assert_eq!(
        calculate_content_hash(b""),
        "e3b0c44298fc1c149afbf4c8996fb92427ae41e4649b934ca495991b7852b855"
    );
}

#[test]
fn dir_checksum_ignores_enumeration_order() {
    let a = calculate_dir_checksum(vec![digest("a/x.txt", "1"), digest("b/y.txt", "2")]);
    let b = calculate_dir_checksum(vec![digest("b/y.txt", "2"), digest("a/x.txt", "1")]);
    assert_eq!(a, b);
    assert_eq!(a.len(), 64);
}

#[test]
fn dir_checksum_changes_with_content_or_path() {
    let base = calculate_dir_checksum(vec![digest("a/x.txt", "1"), digest("b/y.txt", "2")]);
    let content = calculate_dir_checksum(vec![digest("a/x.txt", "3"), digest("b/y.txt", "2")]);
    let renamed = calculate_dir_checksum(vec![digest("a/z.txt", "1"), digest("b/y.txt", "2")]);
    assert_ne!(base, content);
    assert_ne!(base, renamed);
}

#[test]
fn dir_checksum_hashes_sorted_concatenation() {
    let x = digest("a/x.txt", "1");
    let y = digest("b/y.txt", "2");
    let text = format!("{}{}{}{}", y.rel_path, y.hash, x.rel_path, x.hash);
    let wrong_order = calculate_content_hash(text.as_bytes());
    let text = format!("{}{}{}{}", x.rel_path, x.hash, y.rel_path, y.hash);
    let expected = calculate_content_hash(text.as_bytes());
    let got = calculate_dir_checksum(vec![y, x]);
    assert_eq!(got, expected);
    assert_ne!(got, wrong_order);
}

#[test]
fn empty_directory_hashes_empty_text() {
    assert_eq!(calculate_dir_checksum(Vec::new()), calculate_content_hash(b""));
}

#[test]
fn digests_sort_by_path_then_hash() {
    let sorted = sort_digests(vec![
        FileDigest { rel_path: "b".to_string(), hash: "1".to_string() },
        FileDigest { rel_path: "a".to_string(), hash: "2".to_string() },
        FileDigest { rel_path: "a".to_string(), hash: "1".to_string() },
        FileDigest { rel_path: "ab".to_string(), hash: "0".to_string() },
    ]);
    let keys: Vec<(String, String)> = sorted.into_iter().map(|d| (d.rel_path, d.hash)).collect();
    assert_eq!(
        keys,
        vec![
            ("a".to_string(), "1".to_string()),
            ("a".to_string(), "2".to_string()),
            ("ab".to_string(), "0".to_string()),
            ("b".to_string(), "1".to_string()),
        ]
    );
}

#[test]
fn text_order_is_by_code_point() {
    assert!(text_less(&"A".to_string(), &"a".to_string()));
    assert!(text_less(&"a".to_string(), &"ab".to_string()));
    assert!(!text_less(&"b".to_string(), &"ab".to_string()));
    assert!(!text_less(&"same".to_string(), &"same".to_string()));
    assert!(text_less(&"z".to_string(), &"é".to_string()));
}

#[test]
fn entry_checksum_by_kind() {
    let file = calculate_entry_checksum(EntryContent::File { bytes: b"abc".to_vec() }).unwrap();
    assert_eq!(file, calculate_content_hash(b"abc"));
    let dir = calculate_entry_checksum(EntryContent::Directory { files: vec![digest("x", "1")] }).unwrap();
    assert_eq!(dir, calculate_dir_checksum(vec![digest("x", "1")]));
    assert_eq!(
        calculate_entry_checksum(EntryContent::Missing { path: "/nope".to_string() }),
        Err(KaguyaError::PathNotFound("/nope".to_string()))
    );
    assert!(matches!(
        calculate_entry_checksum(EntryContent::Other { path: "/dev/null".to_string() }),
        Err(KaguyaError::InvalidInput(_))
    ));
}

#[test]
fn file_checksum_is_64_hex_digits() {
    let h = calculate_entry_checksum(EntryContent::File { bytes: b"1".to_vec() }).unwrap();
    assert_eq!(h, "6b86b273ff34fce19d6b804eff5a3f5747ada4eaa22f1d49c01e52ddb7875b4b");
    assert_eq!(h.len(), 64);
}
