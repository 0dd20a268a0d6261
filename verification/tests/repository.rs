use krata::digest::OciStorageError;
use krata::repository::{repositories_lookup, repositories_store, OciStoreLayout, RepositoryTable};

fn sha256(c: &str) -> String {
    format!("sha256:{}", c.repeat(64))
}

#[test]
fn stored_digest_is_read_back() {
    let d = sha256("a");
    let text = repositories_store(None, "docker.io/library/alpine", "docker.io/library/alpine:latest", &d).unwrap();
    assert!(text.ends_with('\n'));
    assert_eq!(
        repositories_lookup(Some(&text), "docker.io/library/alpine", "docker.io/library/alpine:latest"),
        Some(d.clone())
    );
    assert_eq!(repositories_lookup(Some(&text), "docker.io/library/alpine", "other"), None);
    assert_eq!(repositories_lookup(Some(&text), "other", "docker.io/library/alpine:latest"), None);
}

#[test]
fn storing_keeps_other_images() {
    let a = sha256("a");
    let b = sha256("b");
    let first = repositories_store(None, "base", "one", &a).unwrap();
    let second = repositories_store(Some(&first), "base", "two", &b).unwrap();
    let third = repositories_store(Some(&second), "other", "three", &a).unwrap();
    assert_eq!(repositories_lookup(Some(&third), "base", "one"), Some(a.clone()));
    assert_eq!(repositories_lookup(Some(&third), "base", "two"), Some(b.clone()));
    assert_eq!(repositories_lookup(Some(&third), "other", "three"), Some(a.clone()));
    let replaced = repositories_store(Some(&third), "base", "one", &b).unwrap();
    assert_eq!(repositories_lookup(Some(&replaced), "base", "one"), Some(b));
}

#[test]
fn unreadable_tables_start_over() {
    let a = sha256("c");
    let text = repositories_store(Some("not json"), "base", "one", &a).unwrap();
    assert_eq!(repositories_lookup(Some(&text), "base", "one"), Some(a));
    assert_eq!(repositories_lookup(Some("not json"), "base", "one"), None);
    assert_eq!(repositories_lookup(None, "base", "one"), None);
}

#[test]
fn invalid_digests_are_neither_stored_nor_returned() {
    assert_eq!(repositories_store(None, "b", "n", "sha256:short"), Err(OciStorageError::InvalidDigest));
    let table = r#"{"b": {"n": "sha256:short", "m": "sha256:bbbbbbbbbbbbbbbbbbbbbbbbbbbbbbbbbbbbbbbbbbbbbbbbbbbbbbbbbbbbbbbb"}}"#;
    assert_eq!(repositories_lookup(Some(table), "b", "n"), None);
    assert_eq!(repositories_lookup(Some(table), "b", "m"), Some(sha256("b")));
}

#[test]
fn table_records_and_encodes() {
    let mut t = RepositoryTable::new();
    assert_eq!(t.get("b", "n"), None);
    t.record("b", "n", "x");
    t.record("b", "m", "y");
    assert_eq!(t.get("b", "n"), Some(String::from("x")));
    let text = t.encode().unwrap();
    let back = RepositoryTable::decode(&text).unwrap();
    assert_eq!(back.get("b", "m"), Some(String::from("y")));
    assert!(RepositoryTable::decode("[1, 2]").is_none());
}

#[test]
fn store_layout() {
    let l = OciStoreLayout::new("/var/lib/krata/oci");
    assert_eq!(l.repositories, "/var/lib/krata/oci/repositories.json");
    assert_eq!(l.blobs, "/var/lib/krata/oci/blobs");
}
