use krata::controller::{default_store_path, resolve_store_path, ControllerError};

#[test]
fn default_store() {
    assert_eq!(default_store_path(Some("/home/ann")), Some(String::from("/home/ann/.hypha")));
    assert_eq!(default_store_path(Some("/root")), Some(String::from("/var/lib/hypha")));
    assert_eq!(default_store_path(Some("/root/")), Some(String::from("/var/lib/hypha")));
    assert_eq!(default_store_path(None), None);
}

#[test]
fn resolved_store() {
    assert_eq!(resolve_store_path("/data", None), Ok(String::from("/data")));
    assert_eq!(resolve_store_path("auto", Some("/home/b")), Ok(String::from("/home/b/.hypha")));
    assert_eq!(resolve_store_path("auto", None), Err(ControllerError::NoDefaultStore));
    assert_eq!(ControllerError::NoDefaultStore.message(), "unable to determine default store path");
}
