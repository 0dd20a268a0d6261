//! OCI content digests and where blobs named by them are stored on disk.
use vstd::prelude::*;

use crate::text::{
    concat_chars, path_push, path_pushed, str_chars, string_from_chars,
};

verus! {

/// Why an OCI storage operation was refused.
#[derive(Debug, Clone, Copy, PartialEq, Eq, Structural)]
pub enum OciStorageError {
    /// The digest does not have the accepted `sha256:`/`sha512:` shape.
    InvalidDigest,
    /// The digest has no `:` between algorithm and content.
    MalformedDigest,
    /// The path has no final file name to extend.
    NoFileName,
    /// The repository table could not be encoded.
    EncodeFailed,
}

impl OciStorageError {
    /// The message that describes the error.
    pub fn message(&self) -> (s: String)
        ensures
            s@ == self.spec_message(),
    {
        let v: Vec<char> = match self {
            OciStorageError::InvalidDigest => str_chars("invalid digest specified"),
            OciStorageError::MalformedDigest => str_chars("invalid digest"),
            OciStorageError::NoFileName => str_chars("file name isn't available"),
            OciStorageError::EncodeFailed => str_chars("failed to encode repository table"),
        };
        proof {
            reveal_strlit("invalid digest specified");
            reveal_strlit("invalid digest");
            reveal_strlit("file name isn't available");
            reveal_strlit("failed to encode repository table");
        }
        string_from_chars(v.as_slice())
    }

    pub open spec fn spec_message(&self) -> Seq<char> {
        match self {
            OciStorageError::InvalidDigest => "invalid digest specified"@,
            OciStorageError::MalformedDigest => "invalid digest"@,
            OciStorageError::NoFileName => "file name isn't available"@,
            OciStorageError::EncodeFailed => "failed to encode repository table"@,
        }
    }
}

/// A lowercase hexadecimal digit, `[a-f0-9]`.
pub open spec fn is_lower_hex(c: char) -> bool {
    ('0' <= c && c <= '9') || ('a' <= c && c <= 'f')
}

/// The `n` characters of `s` from `start` on are all lowercase hex digits.
pub open spec fn hex_run(s: Seq<char>, start: int, n: int) -> bool {
    forall|i: int| start <= i < start + n ==> is_lower_hex(#[trigger] s[i])
}

pub open spec fn sha256_tag() -> Seq<char> {
    seq!['s', 'h', 'a', '2', '5', '6', ':']
}

pub open spec fn sha512_tag() -> Seq<char> {
    seq!['s', 'h', 'a', '5', '1', '2', ':']
}

/// The text begins with `sha256:` and 64 lowercase hex digits.
pub open spec fn sha256_prefixed(s: Seq<char>) -> bool {
    &&& s.len() >= 71
    &&& s.subrange(0, 7) == sha256_tag()
    &&& hex_run(s, 7, 64)
}

/// The text ends with `sha512:` and 128 lowercase hex digits.
pub open spec fn sha512_suffixed(s: Seq<char>) -> bool {
    &&& s.len() >= 135
    &&& s.subrange(s.len() - 135, s.len() - 128) == sha512_tag()
    &&& hex_run(s, s.len() - 128, 128)
}

/// The digests accepted by the store: those matched anywhere by the pattern
/// `^(sha256:[a-f0-9]{64})|(sha512:[a-f0-9]{128})$`, whose `^` binds only
/// the first alternative and whose `$` binds only the second.
pub open spec fn valid_digest(s: Seq<char>) -> bool {
    sha256_prefixed(s) || sha512_suffixed(s)
}

/// Whether `lit` occurs in `s` at position `start`.
fn occurs_at(s: &[char], start: usize, lit: &[char]) -> (b: bool)
    requires
        start + lit@.len() <= s@.len(),
    ensures
        b == (s@.subrange(start as int, start + lit@.len()) == lit@),
{
    let total = s.len();
    let mut i: usize = 0;
    while i < lit.len()
        invariant
            total == s@.len(),
            i <= lit@.len(),
            start + lit@.len() <= s@.len(),
            forall|j: int| 0 <= j < i ==> s@[start + j] == lit@[j],
        decreases lit@.len() - i,
    {
        if s[start + i] != lit[i] {
            assert(s@.subrange(start as int, start + lit@.len())[i as int] != lit@[i as int]);
            return false;
        }
        i = i + 1;
    }
    assert(s@.subrange(start as int, start + lit@.len()) =~= lit@);
    true
}

/// Whether the `n` characters of `s` from `start` on are lowercase hex.
fn hex_run_at(s: &[char], start: usize, n: usize) -> (b: bool)
    requires
        start + n <= s@.len(),
    ensures
        b == hex_run(s@, start as int, n as int),
{
    let total = s.len();
    let mut i: usize = 0;
    while i < n
        invariant
            total == s@.len(),
            i <= n,
            start + n <= s@.len(),
            forall|j: int| start <= j < start + i ==> is_lower_hex(#[trigger] s@[j]),
        decreases n - i,
    {
        let c = s[start + i];
        if !(('0' <= c && c <= '9') || ('a' <= c && c <= 'f')) {
            assert(!is_lower_hex(s@[start + i]));
            return false;
        }
        i = i + 1;
    }
    true
}

/// Whether the characters form a digest the store accepts.
pub fn digest_chars_valid(s: &[char]) -> (b: bool)
    ensures
        b == valid_digest(s@),
{
    let n = s.len();
    let sha256: [char; 7] = ['s', 'h', 'a', '2', '5', '6', ':'];
    let sha512: [char; 7] = ['s', 'h', 'a', '5', '1', '2', ':'];
    assert(sha256@ == sha256_tag());
    assert(sha512@ == sha512_tag());
    if n >= 71 && occurs_at(s, 0, sha256.as_slice()) && hex_run_at(s, 7, 64) {
        return true;
    }
    n >= 135 && occurs_at(s, n - 135, sha512.as_slice()) && hex_run_at(s, n - 128, 128)
}

/// Accepts a digest of the shape the store allows and refuses any other.
pub fn check_valid_digest(digest: &str) -> (r: Result<(), OciStorageError>)
    ensures
        r is Ok <==> valid_digest(digest@),
        r is Err ==> r == Err::<(), OciStorageError>(OciStorageError::InvalidDigest),
{
    let chars = str_chars(digest);
    if digest_chars_valid(chars.as_slice()) {
        Ok(())
    } else {
        Err(OciStorageError::InvalidDigest)
    }
}

/// `i` is the position of the first `c` in `s`.
pub open spec fn is_first(s: Seq<char>, c: char, i: int) -> bool {
    &&& 0 <= i < s.len()
    &&& s[i] == c
    &&& forall|j: int| 0 <= j < i ==> s[j] != c
}

/// The parts before and after the first `c` in `s`, as `str::split_once`
/// gives them.
pub open spec fn split_once(s: Seq<char>, c: char) -> Option<(Seq<char>, Seq<char>)> {
    if exists|i: int| is_first(s, c, i) {
        let i = choose|i: int| is_first(s, c, i);
        Some((s.subrange(0, i), s.subrange(i + 1, s.len() as int)))
    } else {
        None
    }
}

/// Splits the characters at the first `c`.
pub fn split_once_chars(s: &[char], c: char) -> (r: Option<(Vec<char>, Vec<char>)>)
    ensures
        match (r, split_once(s@, c)) {
            (Some((a, b)), Some((x, y))) => a@ == x && b@ == y,
            (None, None) => true,
            _ => false,
        },
{
    let n = s.len();
    let mut i: usize = 0;
    while i < n
        invariant
            n == s@.len(),
            i <= n,
            forall|j: int| 0 <= j < i ==> s@[j] != c,
        decreases n - i,
    {
        if s[i] == c {
            assert(is_first(s@, c, i as int));
            proof {
                let k = choose|k: int| is_first(s@, c, k);
                assert(k == i) by {
                    if k < i {
                        assert(s@[k] != c);
                    } else if k > i {
                        assert(s@[i as int] != c);
                    }
                }
            }
            let mut a: Vec<char> = Vec::new();
            let mut b: Vec<char> = Vec::new();
            let mut j: usize = 0;
            while j < i
                invariant
                    j <= i < n,
                    n == s@.len(),
                    a@ == s@.subrange(0, j as int),
                decreases i - j,
            {
                a.push(s[j]);
                j = j + 1;
                assert(a@ == s@.subrange(0, j as int));
            }
            j = i + 1;
            while j < n
                invariant
                    i < j <= n,
                    n == s@.len(),
                    b@ == s@.subrange(i + 1, j as int),
                decreases n - j,
            {
                b.push(s[j]);
                j = j + 1;
                assert(b@ == s@.subrange(i + 1, j as int));
            }
            return Some((a, b));
        }
        i = i + 1;
    }
    assert(!exists|k: int| is_first(s@, c, k));
    None
}

/// The directory of the algorithm and the file path that hold the blob
/// named by `digest` under `base`, as `digest_storage_path` computes them.
pub open spec fn digest_paths(base: Seq<char>, digest: Seq<char>) -> Option<(Seq<char>, Seq<char>)> {
    match split_once(digest, ':') {
        Some((algorithm, content)) => {
            let dir = path_pushed(base, algorithm);
            Some((dir, path_pushed(dir, content)))
        },
        None => None,
    }
}

/// The directory `base/algorithm` and the blob path `base/algorithm/content`
/// for a digest `algorithm:content`; the directory is the one to create
/// before a blob is written there.
pub fn digest_storage_path(base: &str, digest: &str) -> (r: Result<(String, String), OciStorageError>)
    ensures
        match (r, digest_paths(base@, digest@)) {
            (Ok((dir, full)), Some((d, f))) => dir@ == d && full@ == f,
            (Err(e), None) => e == OciStorageError::MalformedDigest,
            _ => false,
        },
{
    let base_chars = str_chars(base);
    let digest_chars = str_chars(digest);
    match split_once_chars(digest_chars.as_slice(), ':') {
        Some((algorithm, content)) => {
            let dir = path_push(base_chars.as_slice(), algorithm.as_slice());
            let full = path_push(dir.as_slice(), content.as_slice());
            Ok((string_from_chars(dir.as_slice()), string_from_chars(full.as_slice())))
        },
        None => Err(OciStorageError::MalformedDigest),
    }
}

/// What `Path::file_name` returns for the path `p`, as text.
pub uninterp spec fn std_path_file_name(p: Seq<char>) -> Option<Seq<char>>;

/// What `PathBuf::set_file_name` makes of the path `p` with the name `name`.
pub uninterp spec fn std_path_with_file_name(p: Seq<char>, name: Seq<char>) -> Seq<char>;

/// `std::path::Path::file_name`: the final component of the path when it is
/// a normal file or directory name; `None` when the path ends in `..` or is
/// empty or the root.
#[verifier::external_body]
fn path_file_name(p: &str) -> (r: Option<String>)
    ensures
        match (r, std_path_file_name(p@)) {
            (Some(n), Some(m)) => n@ == m,
            (None, None) => true,
            _ => false,
        },
{
    std::path::Path::new(p).file_name().map(|n| n.to_string_lossy().to_string())
}

/// `std::path::PathBuf::set_file_name`: the path with its final file name
/// replaced by `name`, or with `name` pushed when it has none.
#[verifier::external_body]
fn path_set_file_name(p: &str, name: &str) -> (r: String)
    ensures
        r@ == std_path_with_file_name(p@, name@),
{
    let mut buf = std::path::PathBuf::from(p);
    buf.set_file_name(name);
    buf.to_string_lossy().to_string()
}

/// The path whose final file name has `ext` appended, or `None` when the
/// path has no file name.
pub open spec fn with_extension_appended(path: Seq<char>, ext: Seq<char>) -> Option<Seq<char>> {
    match std_path_file_name(path) {
        Some(name) => Some(std_path_with_file_name(path, name + ext)),
        None => None,
    }
}

/// Appends `ext` to the final file name of `path`, so that `a/b` with
/// `.tmp` becomes `a/b.tmp`.
pub fn append_extension(path: &str, ext: &str) -> (r: Result<String, OciStorageError>)
    ensures
        match (r, with_extension_appended(path@, ext@)) {
            (Ok(p), Some(q)) => p@ == q,
            (Err(e), None) => e == OciStorageError::NoFileName,
            _ => false,
        },
{
    match path_file_name(path) {
        Some(name) => {
            let name_chars = str_chars(name.as_str());
            let ext_chars = str_chars(ext);
            let joined = concat_chars(name_chars.as_slice(), ext_chars.as_slice());
            let new_name = string_from_chars(joined.as_slice());
            Ok(path_set_file_name(path, new_name.as_str()))
        },
        None => Err(OciStorageError::NoFileName),
    }
}

proof fn lemma_first_exists(s: Seq<char>, c: char, j: int)
    requires
        0 <= j < s.len(),
        s[j] == c,
    ensures
        exists|i: int| is_first(s, c, i),
    decreases j,
{
    if exists|k: int| 0 <= k < j && s[k] == c {
        let k = choose|k: int| 0 <= k < j && s[k] == c;
        lemma_first_exists(s, c, k);
    } else {
        assert(is_first(s, c, j));
    }
}

/// Every valid digest names a storage location: it holds a `:` between its
/// algorithm and its content.
pub proof fn law_valid_digest_has_location(base: Seq<char>, digest: Seq<char>)
    requires
        valid_digest(digest),
    ensures
        digest_paths(base, digest) is Some,
{
    if sha256_prefixed(digest) {
        assert(digest.subrange(0, 7)[6] == ':');
        lemma_first_exists(digest, ':', 6);
    } else {
        let at = digest.len() - 135;
        assert(digest.subrange(at, digest.len() - 128)[6] == ':');
        lemma_first_exists(digest, ':', at + 6);
    }
}

/// Where the blob named by `digest` lives under the blob directory `blobs`:
/// the directory to create and the file path. Refuses digests that are not
/// valid before anything else.
pub fn blob_location(blobs: &str, digest: &str) -> (r: Result<(String, String), OciStorageError>)
    ensures
        !valid_digest(digest@) ==> r == Err::<(String, String), OciStorageError>(
            OciStorageError::InvalidDigest,
        ),
        valid_digest(digest@) ==> r is Ok,
        valid_digest(digest@) ==> match (r, digest_paths(blobs@, digest@)) {
            (Ok((dir, full)), Some((d, f))) => dir@ == d && full@ == f,
            (Err(e), None) => e == OciStorageError::MalformedDigest,
            _ => false,
        },
{
    match check_valid_digest(digest) {
        Err(e) => Err(e),
        Ok(()) => {
            proof {
                law_valid_digest_has_location(blobs@, digest@);
            }
            digest_storage_path(blobs, digest)
        },
    }
}

/// Every lowercase hex digit counts: `sha256:` followed by 64 characters,
/// each a decimal digit or a letter from `a` to `f`, is a valid digest,
/// whatever follows it.
pub proof fn law_sha256_digest_accepts_every_hex_digit(hex: Seq<char>, rest: Seq<char>)
    requires
        hex.len() == 64,
        forall|i: int| 0 <= i < 64 ==> ('0' <= #[trigger] hex[i] <= '9') || ('a' <= hex[i] <= 'f'),
    ensures
        valid_digest(seq!['s', 'h', 'a', '2', '5', '6', ':'] + hex + rest),
{
    let d = seq!['s', 'h', 'a', '2', '5', '6', ':'] + hex + rest;
    assert(d.subrange(0, 7) =~= sha256_tag());
    assert forall|i: int| 7 <= i < 7 + 64 implies is_lower_hex(#[trigger] d[i]) by {
        assert(d[i] == hex[i - 7]);
    }
}

/// Any other character among the 64 makes `sha256:` and those 64
/// characters an invalid digest.
pub proof fn law_sha256_digest_refuses_other_characters(hex: Seq<char>, i: int)
    requires
        hex.len() == 64,
        0 <= i < 64,
        !(('0' <= hex[i] <= '9') || ('a' <= hex[i] <= 'f')),
    ensures
        !valid_digest(seq!['s', 'h', 'a', '2', '5', '6', ':'] + hex),
{
    let d = seq!['s', 'h', 'a', '2', '5', '6', ':'] + hex;
    assert(d[7 + i] == hex[i]);
    assert(!is_lower_hex(d[7 + i]));
}

/// Every lowercase hex digit counts at the end as well: whatever comes
/// before, `sha512:` and 128 characters each a decimal digit or a letter
/// from `a` to `f` make a valid digest.
pub proof fn law_sha512_digest_accepts_every_hex_digit(before: Seq<char>, hex: Seq<char>)
    requires
        hex.len() == 128,
        forall|i: int| 0 <= i < 128 ==> ('0' <= #[trigger] hex[i] <= '9') || ('a' <= hex[i] <= 'f'),
    ensures
        valid_digest(before + seq!['s', 'h', 'a', '5', '1', '2', ':'] + hex),
{
    let d = before + seq!['s', 'h', 'a', '5', '1', '2', ':'] + hex;
    let b = before.len();
    assert(d.subrange(d.len() - 135, d.len() - 128) =~= sha512_tag()) by {
        assert forall|j: int| 0 <= j < 7 implies d.subrange(d.len() - 135, d.len() - 128)[j]
            == sha512_tag()[j] by {
            assert(d[b + j] == seq!['s', 'h', 'a', '5', '1', '2', ':'][j]);
        }
    }
    assert forall|i: int| d.len() - 128 <= i < d.len() - 128 + 128 implies is_lower_hex(
        #[trigger] d[i],
    ) by {
        assert(d[i] == hex[i - b - 7]);
    }
}

} // verus!
