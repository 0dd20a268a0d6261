//! Where the zone controller keeps its store.
use vstd::prelude::*;

use crate::text::{path_push, path_pushed, str_chars, string_from_chars};

verus! {

/// Whether `Path::new(a) == Path::new(b)`: equal when their components are.
pub uninterp spec fn std_path_eq(a: Seq<char>, b: Seq<char>) -> bool;

/// `std::path::Path`'s `==`: the two paths have the same components, so
/// that `/root/` equals `/root`.
#[verifier::external_body]
fn path_eq(a: &str, b: &str) -> (r: bool)
    ensures
        r == std_path_eq(a@, b@),
{
    std::path::Path::new(a) == std::path::Path::new(b)
}

/// The store under the home directory `home`: `/var/lib/hypha` for root's
/// home `/root`, else `.hypha` in the home directory.
pub open spec fn store_under_home(home: Seq<char>) -> Seq<char> {
    if std_path_eq(home, "/root"@) {
        path_pushed(home, "/var/lib/hypha"@)
    } else {
        path_pushed(home, ".hypha"@)
    }
}

/// The default store, under the user's home directory when it is known.
pub fn default_store_path(home: Option<&str>) -> (r: Option<String>)
    ensures
        match home {
            None => r is None,
            Some(h) => r matches Some(p) && p@ == store_under_home(h@),
        },
{
    let home = home?;
    let h = str_chars(home);
    let p = if path_eq(home, "/root") {
        path_push(h.as_slice(), str_chars("/var/lib/hypha").as_slice())
    } else {
        path_push(h.as_slice(), str_chars(".hypha").as_slice())
    };
    Some(string_from_chars(p.as_slice()))
}

/// Why the controller has no store.
#[derive(Debug, Clone, Copy, PartialEq, Eq, Structural)]
pub enum ControllerError {
    /// `auto` was asked for and the home directory is unknown.
    NoDefaultStore,
}

impl ControllerError {
    /// The message that describes the error.
    pub fn message(&self) -> (s: String)
        ensures
            s@ == "unable to determine default store path"@,
    {
        string_from_chars(str_chars("unable to determine default store path").as_slice())
    }
}

/// The store the controller uses: the default one for `auto`, else the one
/// given.
pub fn resolve_store_path(store: &str, home: Option<&str>) -> (r: Result<String, ControllerError>)
    ensures
        store@ == "auto"@ ==> match home {
            None => r == Err::<String, ControllerError>(ControllerError::NoDefaultStore),
            Some(h) => r matches Ok(p) && p@ == store_under_home(h@),
        },
        store@ != "auto"@ ==> (r matches Ok(p) && p@ == store@),
{
    let s = str_chars(store);
    let auto = str_chars("auto");
    let mut same = s.len() == auto.len();
    let mut i: usize = 0;
    while same && i < s.len()
        invariant
            i <= s@.len(),
            same ==> s@.len() == auto@.len(),
            same ==> forall|j: int| 0 <= j < i ==> s@[j] == auto@[j],
            !same ==> s@ != auto@,
        decreases s@.len() - i,
    {
        if s[i] != auto[i] {
            same = false;
        }
        i = i + 1;
    }
    if same {
        assert(s@ =~= auto@);
        match default_store_path(home) {
            Some(p) => Ok(p),
            None => Err(ControllerError::NoDefaultStore),
        }
    } else {
        Ok(string_from_chars(s.as_slice()))
    }
}

} // verus!
