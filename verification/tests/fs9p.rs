use krata::text::IntParseError;
use krata::fs9p::{
    backend_closing, backend_domain_path, backend_init_entries, backend_instance_path,
    backend_root_path, domain_listing_path, entry_key, event_channel_key, frontend_connected,
    needs_backend, parse_ring_entry, rescan_plan,
    read_request_buffer, ring_count, ring_layout, ring_ref_key, stale_backends, Fs9pError, RingCount,
};

#[test]
fn backend_store_paths() {
    assert_eq!(backend_root_path(), "/local/domain/0/backend/9pfs");
    assert_eq!(backend_domain_path(12), "/local/domain/0/backend/9pfs/12");
    assert_eq!(backend_instance_path("012", "0"), "/local/domain/0/backend/9pfs/012/0");
    assert_eq!(entry_key("/x", "frontend"), "/x/frontend");
    assert_eq!(ring_ref_key("/f", 2), "/f/ring-ref2");
    assert_eq!(event_channel_key("/f", 3), "/f/event-channel-3");
}

#[test]
fn backend_init_entry_list() {
    let e = backend_init_entries("/b");
    let pairs: Vec<(&str, &str)> = e.iter().map(|(k, v)| (k.as_str(), v.as_str())).collect();
    assert_eq!(
        pairs,
        vec![("/b/versions", "1"), ("/b/max-rings", "4"), ("/b/max-ring-page-order", "2"), ("/b/state", "2")]
    );
}

#[test]
fn state_changes() {
    assert_eq!(frontend_connected(Some("3")), Ok(true));
    assert_eq!(frontend_connected(Some("4")), Ok(false));
    assert_eq!(frontend_connected(None), Ok(false));
    assert_eq!(frontend_connected(Some("x")), Err(IntParseError::InvalidDigit));
    assert_eq!(backend_closing(Some("5")), Ok(true));
    assert_eq!(backend_closing(Some("+5")), Ok(true));
    assert_eq!(backend_closing(None), Ok(false));
    assert_eq!(backend_closing(Some("")), Err(IntParseError::Empty));
}

#[test]
fn ring_configuration() {
    assert_eq!(ring_count(None), RingCount::Wait);
    assert_eq!(ring_count(Some("two")), RingCount::Wait);
    assert_eq!(ring_count(Some("5")), RingCount::TooMany);
    assert_eq!(ring_count(Some("4")), RingCount::Rings(4));
    assert_eq!(parse_ring_entry(0, Some("17"), Some("9")), Ok((17, 9)));
    assert_eq!(parse_ring_entry(1, None, Some("9")), Err(Fs9pError::RingRefMissing(1)));
    assert_eq!(parse_ring_entry(1, Some("x"), Some("9")), Err(Fs9pError::RingRefInvalid(1)));
    assert_eq!(parse_ring_entry(2, Some("1"), None), Err(Fs9pError::EventChannelMissing(2)));
    assert_eq!(parse_ring_entry(2, Some("1"), Some("4294967296")), Err(Fs9pError::EventChannelInvalid(2)));
    assert_eq!(Fs9pError::MaxRingsExceeded.message(), "max-rings exceeded");
    assert_eq!(Fs9pError::RingRefMissing(1).message(), "ring-ref 1 missing");
    assert_eq!(Fs9pError::RingRefInvalid(2).message(), "ring-ref 2 invalid");
    assert_eq!(Fs9pError::EventChannelMissing(3).message(), "event-channel 3 missing");
    assert_eq!(Fs9pError::EventChannelInvalid(10).message(), "event-channel 10 invalid");
}

#[test]
fn ring_layouts() {
    let refs = [11, 12, 13, 14];
    assert_eq!(ring_layout(0, &refs), (2048, vec![]));
    assert_eq!(ring_layout(1, &refs), (4096, vec![11]));
    assert_eq!(ring_layout(2, &refs), (8192, vec![11, 12]));
    assert_eq!(ring_layout(3, &refs), (16384, vec![11, 12, 13, 14]));
}

#[test]
fn ring_reads() {
    let max = 2048usize;
    let data: Vec<u8> = (0..(max - 128)).map(|i| (i % 251) as u8).collect();
    // Nothing pending.
    assert_eq!(read_request_buffer(&data, 5, 5, max), None);
    // More pending than the ring holds.
    assert_eq!(read_request_buffer(&data, 0, 3000, max), None);
    // Producer ahead of consumer: bytes cons..size.
    let (bytes, next) = read_request_buffer(&data, 2, 10, max).unwrap();
    assert_eq!(bytes, data[2..8].to_vec());
    assert_eq!(next, 10);
    // The taken range runs from the consumer index to the pending size.
    let (bytes, next) = read_request_buffer(&data, 1000, 2100, max).unwrap();
    assert_eq!(bytes, data[1000..1100].to_vec());
    assert_eq!(next, 2100 & 2047);
    // A producer index behind the consumer index leaves more than the ring holds.
    assert_eq!(read_request_buffer(&data, 100, 50, max), None);
}

#[test]
fn stale_backends_are_those_no_longer_seen() {
    assert_eq!(stale_backends(&vec![1, 2, 3, 4], &vec![2, 4, 4, 9]), vec![1, 3]);
    assert_eq!(stale_backends(&vec![], &vec![1]), Vec::<u32>::new());
}

fn listing(entries: &[(&str, &[&str])]) -> Vec<(String, Vec<String>)> {
    entries
        .iter()
        .map(|(d, ids)| (d.to_string(), ids.iter().map(|i| i.to_string()).collect()))
        .collect()
}

#[test]
fn rescan_finds_devices_and_retires_the_rest() {
    let known = vec![3, 7, 9];
    let plan = rescan_plan(&known, &listing(&[("7", &["0", "1"]), ("12", &["0"]), ("4", &[])]));
    assert_eq!(
        plan.devices,
        vec![
            (7, 0, String::from("/local/domain/0/backend/9pfs/7/0")),
            (7, 1, String::from("/local/domain/0/backend/9pfs/7/1")),
            (12, 0, String::from("/local/domain/0/backend/9pfs/12/0")),
        ]
    );
    assert_eq!(plan.retire, Ok(vec![3, 9]));
    assert!(needs_backend(&known, 12));
    assert!(!needs_backend(&known, 7));
}

#[test]
fn rescan_stops_at_a_bad_name() {
    let plan = rescan_plan(&vec![1], &listing(&[("5", &["0", "x", "2"]), ("6", &["0"])]));
    assert_eq!(plan.devices, vec![(5, 0, String::from("/local/domain/0/backend/9pfs/5/0"))]);
    assert_eq!(plan.retire, Err(Fs9pError::NameInvalid(IntParseError::InvalidDigit)));
    assert_eq!(
        Fs9pError::NameInvalid(IntParseError::InvalidDigit).message(),
        "x".parse::<u32>().unwrap_err().to_string()
    );
    let plan = rescan_plan(&vec![], &listing(&[("2", &["0"]), ("", &["0"])]));
    assert_eq!(plan.devices.len(), 1);
    assert_eq!(plan.retire, Err(Fs9pError::NameInvalid(IntParseError::Empty)));
    // The directory keeps the names as listed; the domain is read as a number.
    let plan = rescan_plan(&vec![], &listing(&[("+05", &["01"])]));
    assert_eq!(plan.devices, vec![(5, 1, String::from("/local/domain/0/backend/9pfs/+05/01"))]);
    assert_eq!(plan.retire, Ok(vec![]));
}

#[test]
fn listing_path_of_a_domain() {
    assert_eq!(domain_listing_path("+05"), Ok(String::from("/local/domain/0/backend/9pfs/5")));
    assert_eq!(
        domain_listing_path("99999999999"),
        Err(Fs9pError::NameInvalid(IntParseError::PosOverflow))
    );
}
