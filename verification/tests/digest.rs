use krata::digest::{append_extension, blob_location, check_valid_digest, digest_storage_path, OciStorageError};

const PATTERN: &str = r"^(sha256:[a-f0-9]{64})|(sha512:[a-f0-9]{128})$";

fn sha256() -> String {
    format!("sha256:{}", "ab".repeat(32))
}

fn sha512() -> String {
    format!("sha512:{}", "0f".repeat(64))
}

#[test]
fn digest_check_agrees_with_pattern() {
    let regex = regex::Regex::new(PATTERN).unwrap();
    let cases = vec![
        sha256(),
        sha512(),
        format!("{}trailing", sha256()),
        format!("prefix{}", sha512()),
        format!("prefix{}", sha256()),
        format!("{}x", sha512()),
        format!("sha256:{}", "AB".repeat(32)),
        format!("sha256:{}", "ab".repeat(31)),
        String::from("sha256:"),
        String::new(),
        String::from("md5:abc"),
        format!("sha512:{}", "0f".repeat(63)),
    ];
    for c in cases {
        assert_eq!(check_valid_digest(&c).is_ok(), regex.is_match(&c), "{:?}", c);
    }
}

#[test]
fn invalid_digest_is_refused() {
    assert_eq!(check_valid_digest("sha1:abc"), Err(OciStorageError::InvalidDigest));
    assert_eq!(OciStorageError::InvalidDigest.message(), "invalid digest specified");
    assert_eq!(blob_location("/b", "nope"), Err(OciStorageError::InvalidDigest));
}

#[test]
fn storage_path_splits_at_first_colon() {
    let d = sha256();
    let (dir, full) = digest_storage_path("/store/blobs", &d).unwrap();
    assert_eq!(dir, "/store/blobs/sha256");
    assert_eq!(full, format!("/store/blobs/sha256/{}", "ab".repeat(32)));
    let (dir, full) = digest_storage_path("/b/", "x:y:z").unwrap();
    assert_eq!((dir.as_str(), full.as_str()), ("/b/x", "/b/x/y:z"));
    assert_eq!(digest_storage_path("/b", "nocolon"), Err(OciStorageError::MalformedDigest));
    assert_eq!(OciStorageError::MalformedDigest.message(), "invalid digest");
    let (_, full) = blob_location("/b", &sha512()).unwrap();
    assert_eq!(full, format!("/b/sha512/{}", "0f".repeat(64)));
}

#[test]
fn extension_is_appended_to_file_name() {
    assert_eq!(append_extension("/a/b", ".tmp").unwrap(), "/a/b.tmp");
    assert_eq!(append_extension("blob", ".tmp").unwrap(), "blob.tmp");
    assert_eq!(append_extension("/a/b/", ".tmp").unwrap(), "/a/b.tmp");
    assert_eq!(append_extension("/", ".tmp"), Err(OciStorageError::NoFileName));
    assert_eq!(append_extension("/a/..", ".tmp"), Err(OciStorageError::NoFileName));
    assert_eq!(OciStorageError::NoFileName.message(), "file name isn't available");
    assert_eq!(OciStorageError::EncodeFailed.message(), "failed to encode repository table");
}
