//! The repository table of the OCI store: for each repository base name, the
//! digest recorded under each normalized image name, kept as a JSON file.
use vstd::prelude::*;

use crate::digest::{check_valid_digest, valid_digest, OciStorageError};
use crate::text::{path_push, path_pushed, str_chars, string_from_chars};

verus! {

/// The view of a table as nested maps: base name, then image name, then
/// digest.
pub type TableView = Map<Seq<char>, Map<Seq<char>, Seq<char>>>;

/// No two entries of the list have the same name.
pub open spec fn names_unique(s: Seq<(String, String)>) -> bool {
    forall|i: int, j: int| 0 <= i < j < s.len() ==> s[i].0@ != s[j].0@
}

/// Some entry of the list is named `k`.
pub open spec fn has_name(s: Seq<(String, String)>, k: Seq<char>) -> bool {
    exists|i: int| 0 <= i < s.len() && (#[trigger] s[i]).0@ == k
}

/// The entries of a name-to-digest list as a map.
pub open spec fn names_view(s: Seq<(String, String)>) -> Map<Seq<char>, Seq<char>> {
    Map::new(
        |k: Seq<char>| has_name(s, k),
        |k: Seq<char>| s[choose|i: int| 0 <= i < s.len() && (#[trigger] s[i]).0@ == k].1@,
    )
}

/// No two groups of the table have the same base name, and no group names
/// an image twice.
pub open spec fn groups_unique(s: Seq<(String, Vec<(String, String)>)>) -> bool {
    &&& forall|i: int, j: int| 0 <= i < j < s.len() ==> s[i].0@ != s[j].0@
    &&& forall|i: int| 0 <= i < s.len() ==> names_unique((#[trigger] s[i]).1@)
}

/// Some group of the table has base name `b`.
pub open spec fn has_group(s: Seq<(String, Vec<(String, String)>)>, b: Seq<char>) -> bool {
    exists|i: int| 0 <= i < s.len() && (#[trigger] s[i]).0@ == b
}

/// The groups of the table as nested maps.
pub open spec fn groups_view(s: Seq<(String, Vec<(String, String)>)>) -> TableView {
    Map::new(
        |b: Seq<char>| has_group(s, b),
        |b: Seq<char>|
            names_view(s[choose|i: int| 0 <= i < s.len() && (#[trigger] s[i]).0@ == b].1@),
    )
}

proof fn lemma_names_view_at(s: Seq<(String, String)>, i: int)
    requires
        names_unique(s),
        0 <= i < s.len(),
    ensures
        names_view(s).contains_key(s[i].0@),
        names_view(s)[s[i].0@] == s[i].1@,
{
    let k = s[i].0@;
    assert(has_name(s, k));
    let j = choose|j: int| 0 <= j < s.len() && (#[trigger] s[j]).0@ == k;
    if j < i {
        assert(s[j].0@ != s[i].0@);
    } else if j > i {
        assert(s[i].0@ != s[j].0@);
    }
}

proof fn lemma_groups_view_at(s: Seq<(String, Vec<(String, String)>)>, i: int)
    requires
        groups_unique(s),
        0 <= i < s.len(),
    ensures
        groups_view(s).contains_key(s[i].0@),
        groups_view(s)[s[i].0@] == names_view(s[i].1@),
{
    let b = s[i].0@;
    assert(has_group(s, b));
    let j = choose|j: int| 0 <= j < s.len() && (#[trigger] s[j]).0@ == b;
    if j < i {
        assert(s[j].0@ != s[i].0@);
    } else if j > i {
        assert(s[i].0@ != s[j].0@);
    }
}

/// What `serde_json::from_str` yields for the text when it is read as a map
/// of base names to maps of image names to digests.
pub uninterp spec fn json_repository_table(text: Seq<char>) -> Option<TableView>;

/// `serde_json::from_str::<HashMap<String, HashMap<String, String>>>`: the
/// table written as a JSON object of objects of strings; the entries of a
/// hash map have distinct keys.
#[verifier::external_body]
fn decode_table(text: &str) -> (r: Option<Vec<(String, Vec<(String, String)>)>>)
    ensures
        match (r, json_repository_table(text@)) {
            (Some(t), Some(m)) => groups_unique(t@) && groups_view(t@) == m,
            (None, None) => true,
            _ => false,
        },
{
    serde_json::from_str::<std::collections::HashMap<String, std::collections::HashMap<String, String>>>(
        text,
    ).ok().map(|t| t.into_iter().map(|(k, v)| (k, v.into_iter().collect())).collect())
}

/// `serde_json::to_string_pretty` of the table as a hash map of hash maps.
/// It always succeeds: the crate fails only for a `Serialize` impl that
/// fails or a map key that is not a string, and here every key and value is
/// a string written into memory. The order of the keys in the text follows
/// the hash maps and is left open. The text is a JSON object of objects of
/// strings, which
/// `serde_json::from_str` reads back to the same table, also when one
/// newline follows it (the reader accepts trailing whitespace).
#[verifier::external_body]
fn encode_table(groups: &Vec<(String, Vec<(String, String)>)>) -> (r: Option<String>)
    requires
        groups_unique(groups@),
    ensures
        r is Some,
        r matches Some(s) ==> json_repository_table(s@) == Some(groups_view(groups@))
            && json_repository_table(s@.push('\n')) == Some(groups_view(groups@)),
{
    let map: std::collections::HashMap<String, std::collections::HashMap<String, String>> =
        groups.iter().map(|(k, v)| (k.clone(), v.iter().cloned().collect())).collect();
    serde_json::to_string_pretty(&map).ok()
}

/// The repository table: for each base name, the digest of each image.
pub struct RepositoryTable {
    groups: Vec<(String, Vec<(String, String)>)>,
}

impl View for RepositoryTable {
    type V = TableView;

    closed spec fn view(&self) -> TableView {
        groups_view(self.groups@)
    }
}

fn find_name(s: &Vec<(String, String)>, k: &String) -> (r: Option<usize>)
    ensures
        r matches Some(i) ==> i < s@.len() && s@[i as int].0@ == k@,
        r is None ==> !has_name(s@, k@),
{
    let mut i: usize = 0;
    while i < s.len()
        invariant
            i <= s@.len(),
            forall|j: int| 0 <= j < i ==> s@[j].0@ != k@,
        decreases s@.len() - i,
    {
        if s[i].0 == *k {
            return Some(i);
        }
        i = i + 1;
    }
    None
}

fn find_group(s: &Vec<(String, Vec<(String, String)>)>, b: &String) -> (r: Option<usize>)
    ensures
        r matches Some(i) ==> i < s@.len() && s@[i as int].0@ == b@,
        r is None ==> !has_group(s@, b@),
{
    let mut i: usize = 0;
    while i < s.len()
        invariant
            i <= s@.len(),
            forall|j: int| 0 <= j < i ==> s@[j].0@ != b@,
        decreases s@.len() - i,
    {
        if s[i].0 == *b {
            return Some(i);
        }
        i = i + 1;
    }
    None
}

fn owned(s: &str) -> (r: String)
    ensures
        r@ == s@,
{
    string_from_chars(str_chars(s).as_slice())
}

/// `v` with the name `k` set to `d`.
pub(crate) fn names_insert(v: Vec<(String, String)>, k: String, d: String) -> (r: Vec<(String, String)>)
    requires
        names_unique(v@),
    ensures
        names_unique(r@),
        names_view(r@) == names_view(v@).insert(k@, d@),
{
    let mut v = v;
    let ghost before = v@;
    match find_name(&v, &k) {
        Some(i) => {
            let ghost kv = k@;
            let ghost dv = d@;
            v.set(i, (k, d));
            proof {
                assert(v@ == before.update(i as int, v@[i as int]));
                assert forall|a: int, b: int| 0 <= a < b < v@.len() implies v@[a].0@ != v@[b].0@ by {
                    if a == i {
                        assert(before[a].0@ == kv);
                    } else if b == i {
                        assert(before[b].0@ == kv);
                    }
                }
                lemma_names_view_at(v@, i as int);
                let m = names_view(v@);
                let t = names_view(before).insert(kv, dv);
                assert forall|x: Seq<char>| m.contains_key(x) <==> t.contains_key(x) by {
                    if m.contains_key(x) && x != kv {
                        let a = choose|a: int| 0 <= a < v@.len() && (#[trigger] v@[a]).0@ == x;
                        assert(before[a] == v@[a]);
                    }
                    if t.contains_key(x) && x != kv {
                        let a = choose|a: int| 0 <= a < before.len() && (#[trigger] before[a]).0@ == x;
                        assert(before[a] == v@[a]);
                    }
                }
                assert forall|x: Seq<char>| #[trigger] m.contains_key(x) implies m[x] == t[x] by {
                    if x != kv {
                        let a = choose|a: int| 0 <= a < v@.len() && (#[trigger] v@[a]).0@ == x;
                        assert(before[a] == v@[a]);
                        lemma_names_view_at(v@, a);
                        lemma_names_view_at(before, a);
                    }
                }
                assert(m =~= t);
            }
            v
        },
        None => {
            let ghost kv = k@;
            let ghost dv = d@;
            v.push((k, d));
            proof {
                assert(v@ == before.push(v@[before.len() as int]));
                assert forall|a: int, b: int| 0 <= a < b < v@.len() implies v@[a].0@ != v@[b].0@ by {
                    if b == before.len() {
                        assert(before[a] == v@[a]);
                    } else {
                        assert(before[a] == v@[a] && before[b] == v@[b]);
                    }
                }
                lemma_names_view_at(v@, before.len() as int);
                let m = names_view(v@);
                let t = names_view(before).insert(kv, dv);
                assert forall|x: Seq<char>| m.contains_key(x) <==> t.contains_key(x) by {
                    if m.contains_key(x) && x != kv {
                        let a = choose|a: int| 0 <= a < v@.len() && (#[trigger] v@[a]).0@ == x;
                        assert(before[a] == v@[a]);
                    }
                    if t.contains_key(x) && x != kv {
                        let a = choose|a: int| 0 <= a < before.len() && (#[trigger] before[a]).0@ == x;
                        assert(before[a] == v@[a]);
                    }
                }
                assert forall|x: Seq<char>| #[trigger] m.contains_key(x) implies m[x] == t[x] by {
                    if x != kv {
                        let a = choose|a: int| 0 <= a < v@.len() && (#[trigger] v@[a]).0@ == x;
                        assert(before[a] == v@[a]);
                        lemma_names_view_at(v@, a);
                        lemma_names_view_at(before, a);
                    }
                }
                assert(m =~= t);
            }
            v
        },
    }
}

/// The names of a group, or no names when the table has no such group.
pub open spec fn group_or_empty(t: TableView, b: Seq<char>) -> Map<Seq<char>, Seq<char>> {
    if t.contains_key(b) {
        t[b]
    } else {
        Map::empty()
    }
}

/// The table with image `k` of group `b` recorded as `d`, the group being
/// created when it is missing.
pub open spec fn table_record(t: TableView, b: Seq<char>, k: Seq<char>, d: Seq<char>) -> TableView {
    t.insert(b, group_or_empty(t, b).insert(k, d))
}

/// The digest recorded for image `k` of group `b`, if any.
pub open spec fn table_lookup(t: TableView, b: Seq<char>, k: Seq<char>) -> Option<Seq<char>> {
    if t.contains_key(b) && t[b].contains_key(k) {
        Some(t[b][k])
    } else {
        None
    }
}

impl RepositoryTable {
    #[verifier::type_invariant]
    closed spec fn unique(self) -> bool {
        groups_unique(self.groups@)
    }

    /// An empty table.
    pub fn new() -> (t: RepositoryTable)
        ensures
            t@ == TableView::empty(),
    {
        let t = RepositoryTable { groups: Vec::new() };
        assert(t@ =~= TableView::empty());
        t
    }

    /// Reads a table from its JSON text; `None` when the text is not such a
    /// table.
    pub fn decode(text: &str) -> (r: Option<RepositoryTable>)
        ensures
            match (r, json_repository_table(text@)) {
                (Some(t), Some(m)) => t@ == m,
                (None, None) => true,
                _ => false,
            },
    {
        match decode_table(text) {
            Some(groups) => Some(RepositoryTable { groups }),
            None => None,
        }
    }

    /// The table as pretty-printed JSON, which reads back to the table.
    pub fn encode(&self) -> (r: Option<String>)
        ensures
            r is Some,
            r matches Some(s) ==> json_repository_table(s@) == Some(self@)
                && json_repository_table(s@.push('\n')) == Some(self@),
    {
        proof {
            use_type_invariant(self);
        }
        encode_table(&self.groups)
    }

    /// The digest recorded for image `name` of group `base`.
    pub fn get(&self, base: &str, name: &str) -> (r: Option<String>)
        ensures
            match (r, table_lookup(self@, base@, name@)) {
                (Some(d), Some(e)) => d@ == e,
                (None, None) => true,
                _ => false,
            },
    {
        proof {
            use_type_invariant(self);
        }
        let b = owned(base);
        let k = owned(name);
        match find_group(&self.groups, &b) {
            None => None,
            Some(i) => {
                proof {
                    lemma_groups_view_at(self.groups@, i as int);
                }
                let names = &self.groups[i].1;
                match find_name(names, &k) {
                    None => None,
                    Some(j) => {
                        proof {
                            lemma_names_view_at(names@, j as int);
                        }
                        Some(string_from_chars(str_chars(names[j].1.as_str()).as_slice()))
                    },
                }
            },
        }
    }

    /// Records `digest` for image `name` of group `base`, creating the group
    /// when it is missing.
    pub fn record(&mut self, base: &str, name: &str, digest: &str)
        ensures
            final(self)@ == table_record(old(self)@, base@, name@, digest@),
    {
        proof {
            use_type_invariant(&*self);
        }
        let b = owned(base);
        let k = owned(name);
        let d = owned(digest);
        let mut groups: Vec<(String, Vec<(String, String)>)> = Vec::new();
        std::mem::swap(&mut groups, &mut self.groups);
        let ghost before = groups@;
        let new_groups = insert_group(groups, b, k, d);
        proof {
            assert(groups_view(new_groups@) == table_record(groups_view(before), base@, name@, digest@));
        }
        self.groups = new_groups;
    }
}

#[verifier::spinoff_prover]
fn insert_group(groups: Vec<(String, Vec<(String, String)>)>, b: String, k: String, d: String) -> (r: Vec<(String, Vec<(String, String)>)>)
    requires
        groups_unique(groups@),
    ensures
        groups_unique(r@),
        groups_view(r@) == table_record(groups_view(groups@), b@, k@, d@),
{
    let mut groups = groups;
    let ghost before = groups@;
    let ghost bv = b@;
    let ghost kv = k@;
    let ghost dv = d@;
    let (names, at): (Vec<(String, String)>, Option<usize>) = match find_group(&groups, &b) {
        Some(i) => {
            proof {
                lemma_groups_view_at(before, i as int);
            }
            let (_, old_names) = groups.remove(i);
            (old_names, Some(i))
        },
        None => (Vec::new(), None),
    };
    let ghost rest = groups@;
    proof {
        assert(names_unique(names@)) by {
            if at is Some {
                let i = at->0 as int;
                assert(names@ == before[i].1@);
            }
        }
        assert(names_view(names@) == group_or_empty(groups_view(before), bv)) by {
            if at is None {
                assert(names_view(names@) =~= Map::<Seq<char>, Seq<char>>::empty());
            }
        }
        // `rest` holds every group but the one named `b`, each unchanged.
        if at is Some {
            let i = at->0 as int;
            assert(rest == before.remove(i));
        } else {
            assert(rest == before);
        }
        assert forall|a: int| 0 <= a < rest.len() implies (#[trigger] rest[a]).0@ != bv && exists|c: int|
            0 <= c < before.len() && before[c] == rest[a] by {
            if at is Some {
                let i = at->0 as int;
                if a < i {
                    assert(rest[a] == before[a]);
                } else {
                    assert(rest[a] == before[a + 1]);
                }
            } else {
                assert(rest[a] == before[a]);
            }
        }
    }
    let new_names = names_insert(names, k, d);
    let ghost nn = new_names@;
    groups.push((b, new_names));
    let ghost after = groups@;
    proof {
        assert(after == rest.push(after[rest.len() as int]));
        assert forall|a: int, c: int| 0 <= a < c < after.len() implies after[a].0@ != after[c].0@ by {
            if c == rest.len() {
                assert(after[a] == rest[a]);
            } else {
                assert(after[a] == rest[a] && after[c] == rest[c]);
                let x = choose|x: int| 0 <= x < before.len() && before[x] == rest[a];
                let y = choose|y: int| 0 <= y < before.len() && before[y] == rest[c];
                if at is Some {
                    let i = at->0 as int;
                    assert(x < y) by {
                        if x >= y {
                            if a < i {
                                assert(rest[a] == before[a]);
                            } else {
                                assert(rest[a] == before[a + 1]);
                            }
                            if c < i {
                                assert(rest[c] == before[c]);
                            } else {
                                assert(rest[c] == before[c + 1]);
                            }
                            if x > y {
                                assert(before[y].0@ != before[x].0@);
                            }
                        }
                    }
                    assert(before[x].0@ != before[y].0@);
                } else {
                    assert(rest[a] == before[a] && rest[c] == before[c]);
                }
            }
        }
        assert forall|a: int| 0 <= a < after.len() implies names_unique((#[trigger] after[a]).1@) by {
            if a < rest.len() {
                assert(after[a] == rest[a]);
                let x = choose|x: int| 0 <= x < before.len() && before[x] == rest[a];
                assert(names_unique(before[x].1@));
            }
        }
        lemma_groups_view_at(after, rest.len() as int);
        let m = groups_view(after);
        let t = table_record(groups_view(before), bv, kv, dv);
        assert forall|x: Seq<char>| m.contains_key(x) <==> t.contains_key(x) by {
            if m.contains_key(x) && x != bv {
                let a = choose|a: int| 0 <= a < after.len() && (#[trigger] after[a]).0@ == x;
                assert(after[a] == rest[a]);
                let c = choose|c: int| 0 <= c < before.len() && before[c] == rest[a];
                assert(before[c].0@ == x);
            }
            if t.contains_key(x) && x != bv {
                let c = choose|c: int| 0 <= c < before.len() && (#[trigger] before[c]).0@ == x;
                if at is Some {
                    let i = at->0 as int;
                    if c < i {
                        assert(rest[c] == before[c]);
                        assert(after[c] == rest[c]);
                    } else {
                        assert(c != i);
                        assert(rest[c - 1] == before[c]);
                        assert(after[c - 1] == rest[c - 1]);
                    }
                } else {
                    assert(after[c] == before[c]);
                }
            }
        }
        assert forall|x: Seq<char>| #[trigger] m.contains_key(x) implies m[x] == t[x] by {
            if x != bv {
                let a = choose|a: int| 0 <= a < after.len() && (#[trigger] after[a]).0@ == x;
                assert(after[a] == rest[a]);
                let c = choose|c: int| 0 <= c < before.len() && before[c] == rest[a];
                lemma_groups_view_at(after, a);
                lemma_groups_view_at(before, c);
            }
        }
        assert(m =~= t);
    }
    groups
}

/// The table kept in the store: the one the text holds (`{}` when there is
/// no text), or an empty table when the text cannot be read as one.
pub open spec fn stored_table(content: Option<Seq<char>>) -> TableView {
    let text = match content {
        Some(c) => c,
        None => "{}"@,
    };
    match json_repository_table(text) {
        Some(t) => t,
        None => TableView::empty(),
    }
}

/// The digest recorded for an image in the store's table text, when the
/// text holds a table, the image is recorded, and its digest is valid.
pub open spec fn lookup_digest(content: Option<Seq<char>>, base: Seq<char>, name: Seq<char>) -> Option<Seq<char>> {
    match content {
        None => None,
        Some(c) => match json_repository_table(c) {
            None => None,
            Some(t) => match table_lookup(t, base, name) {
                Some(d) => if valid_digest(d) {
                    Some(d)
                } else {
                    None
                },
                None => None,
            },
        },
    }
}

pub open spec fn opt_text(s: Option<&str>) -> Option<Seq<char>> {
    match s {
        Some(t) => Some(t@),
        None => None,
    }
}

/// Looks up the digest of image `name` of repository `base` in the table
/// text, as the store reads it (`None` when there is no text).
pub fn repositories_lookup(content: Option<&str>, base: &str, name: &str) -> (r: Option<String>)
    ensures
        match (r, lookup_digest(opt_text(content), base@, name@)) {
            (Some(d), Some(e)) => d@ == e,
            (None, None) => true,
            _ => false,
        },
{
    let text = content?;
    let table = RepositoryTable::decode(text)?;
    let digest = table.get(base, name)?;
    if check_valid_digest(digest.as_str()).is_ok() {
        Some(digest)
    } else {
        None
    }
}

/// The text to write back after recording `digest` for image `name` of
/// repository `base` in the table the store holds (`content`, absent when
/// the file could not be read): the pretty JSON of the updated table and a
/// newline. Refuses an invalid digest before anything else.
pub fn repositories_store(content: Option<&str>, base: &str, name: &str, digest: &str) -> (r: Result<String, OciStorageError>)
    ensures
        !valid_digest(digest@) ==> r == Err::<String, OciStorageError>(
            OciStorageError::InvalidDigest,
        ),
        valid_digest(digest@) ==> r is Ok,
        valid_digest(digest@) ==> match r {
            Ok(s) => s@.len() > 0 && s@.last() == '\n' && json_repository_table(s@) == Some(
                table_record(stored_table(opt_text(content)), base@, name@, digest@),
            ) && json_repository_table(s@.drop_last()) == Some(
                table_record(stored_table(opt_text(content)), base@, name@, digest@),
            ),
            Err(e) => e == OciStorageError::EncodeFailed,
        },
{
    if check_valid_digest(digest).is_err() {
        return Err(OciStorageError::InvalidDigest);
    }
    let mut table = match content {
        Some(text) => match RepositoryTable::decode(text) {
            Some(t) => t,
            None => RepositoryTable::new(),
        },
        None => {
            let empty = RepositoryTable::decode("{}");
            match empty {
                Some(t) => t,
                None => RepositoryTable::new(),
            }
        },
    };
    assert(table@ == stored_table(opt_text(content)));
    table.record(base, name, digest);
    match table.encode() {
        None => Err(OciStorageError::EncodeFailed),
        Some(encoded) => {
            let mut chars = str_chars(encoded.as_str());
            chars.push('\n');
            assert(chars@.drop_last() == encoded@);
            Ok(string_from_chars(chars.as_slice()))
        },
    }
}

/// What is recorded can be read back: after a valid digest is stored for an
/// image, looking the image up in the written text gives that digest.
pub proof fn law_lookup_reads_back_store(content: Option<Seq<char>>, base: Seq<char>, name: Seq<char>, digest: Seq<char>, written: Seq<char>)
    requires
        valid_digest(digest),
        json_repository_table(written) == Some(
            table_record(stored_table(content), base, name, digest),
        ),
    ensures
        lookup_digest(Some(written), base, name) == Some(digest),
{
    let t = table_record(stored_table(content), base, name, digest);
    assert(t.contains_key(base));
    assert(t[base].contains_key(name));
}

/// Storing a digest for one image leaves every other image of the stored
/// table as it was.
pub proof fn law_store_keeps_other_images(t: TableView, base: Seq<char>, name: Seq<char>, digest: Seq<char>, b2: Seq<char>, n2: Seq<char>)
    requires
        b2 != base || n2 != name,
    ensures
        table_lookup(table_record(t, base, name, digest), b2, n2) == table_lookup(t, b2, n2),
{
}

/// The files of an OCI store rooted at `path`.
#[derive(Debug, Clone)]
pub struct OciStoreLayout {
    /// `<path>/repositories.json`: the repository table.
    pub repositories: String,
    /// `<path>/blobs`: the blob directory, created when missing.
    pub blobs: String,
}

impl OciStoreLayout {
    /// The files of the store rooted at `path`.
    pub fn new(path: &str) -> (l: OciStoreLayout)
        ensures
            l.repositories@ == path_pushed(path@, "repositories.json"@),
            l.blobs@ == path_pushed(path@, "blobs"@),
    {
        let p = str_chars(path);
        let r = path_push(p.as_slice(), str_chars("repositories.json").as_slice());
        let b = path_push(p.as_slice(), str_chars("blobs").as_slice());
        OciStoreLayout {
            repositories: string_from_chars(r.as_slice()),
            blobs: string_from_chars(b.as_slice()),
        }
    }
}

} // verus!
