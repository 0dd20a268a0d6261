use krata::autonet::{
    wait_finished, AutoNetworkWatcher, NetworkMetadata, WaitEvent, Zone, ZoneNetworkStatus,
    ZoneStatus,
};

const A: &str = "6a3e4f6c-2a7e-4b8a-9d4f-1c2b3a4d5e6f";
const B: &str = "0f1e2d3c-4b5a-6978-8796-a5b4c3d2e1f0";

fn uuid(s: &str) -> u128 {
    uuid::Uuid::parse_str(s).unwrap().as_u128()
}

fn zone(id: &str, domid: u32, zone_ipv4: &str) -> Zone {
    Zone {
        id: id.to_string(),
        status: Some(ZoneStatus {
            domid,
            network_status: Some(ZoneNetworkStatus {
                zone_ipv4: zone_ipv4.to_string(),
                zone_ipv6: "fdd4:1476:6c7e::2/48".to_string(),
                zone_mac: "02:00:00:00:00:02".to_string(),
                gateway_ipv4: "10.75.0.1/16".to_string(),
                gateway_ipv6: "fdd4:1476:6c7e::1/48".to_string(),
                gateway_mac: "02-00-00-00-00-01".to_string(),
            }),
        }),
    }
}

fn sorted(mut v: Vec<NetworkMetadata>) -> Vec<NetworkMetadata> {
    v.sort_by_key(|m| m.uuid);
    v
}

#[test]
fn interface_name() {
    let w = AutoNetworkWatcher::new();
    let nets = w.read(&vec![zone(A, 7, "10.75.0.2/16")]);
    assert_eq!(nets[0].interface(), "vif7.20");
}

#[test]
fn read_parses_addresses() {
    let w = AutoNetworkWatcher::new();
    let nets = w.read(&vec![zone(A, 3, "10.75.0.2/16")]);
    assert_eq!(nets.len(), 1);
    let m = nets[0];
    assert_eq!(m.domid, 3);
    assert_eq!(m.uuid, uuid(A));
    assert_eq!(m.zone.ipv4.address, u32::from_be_bytes([10, 75, 0, 2]));
    assert_eq!(m.zone.ipv4.prefix_len, 16);
    assert_eq!(m.zone.ipv6.prefix_len, 48);
    assert_eq!(m.zone.ipv6.address, u128::from_be_bytes([0xfd, 0xd4, 0x14, 0x76, 0x6c, 0x7e, 0, 0, 0, 0, 0, 0, 0, 0, 0, 2]));
    assert_eq!(m.zone.mac, 0x0200_0000_0002);
    assert_eq!(m.gateway.mac, 0x0200_0000_0001);
    assert_eq!(m.gateway.ipv4.address, u32::from_be_bytes([10, 75, 0, 1]));
}

#[test]
fn read_skips_unusable_zones() {
    let w = AutoNetworkWatcher::new();
    let mut no_status = zone(B, 4, "10.75.0.3/16");
    no_status.status = None;
    let mut no_network = zone(B, 4, "10.75.0.3/16");
    no_network.status.as_mut().unwrap().network_status = None;
    let listing = vec![
        zone("not-a-uuid", 1, "10.75.0.2/16"),
        zone(A, u32::MAX, "10.75.0.2/16"),
        zone(B, 4, "10.75.0.300/16"),
        no_status,
        no_network,
    ];
    assert!(w.read(&listing).is_empty());
}

#[test]
fn read_takes_last_entry_of_a_zone() {
    let w = AutoNetworkWatcher::new();
    let nets = w.read(&vec![zone(A, 1, "10.75.0.2/16"), zone(B, 2, "10.75.0.3/16"), zone(A, 5, "10.75.0.9/16")]);
    let nets = sorted(nets);
    assert_eq!(nets.len(), 2);
    let a = nets.iter().find(|m| m.uuid == uuid(A)).unwrap();
    assert_eq!(a.domid, 5);
    // A later unusable entry hides an earlier usable one.
    let nets = w.read(&vec![zone(A, 1, "10.75.0.2/16"), zone(A, 2, "bad")]);
    assert!(nets.is_empty());
}

#[test]
fn changes_report_appearing_and_disappearing_zones() {
    let mut w = AutoNetworkWatcher::new();
    let first = vec![zone(A, 1, "10.75.0.2/16")];
    let cs = w.read_changes(Some(&first));
    assert_eq!(cs.added.len(), 1);
    assert!(cs.removed.is_empty());
    // The same listing again reports nothing.
    let cs = w.read_changes(Some(&first));
    assert!(cs.added.is_empty() && cs.removed.is_empty());
    // A new zone appears, the old one goes.
    let second = vec![zone(B, 2, "10.75.0.3/16")];
    let cs = w.read_changes(Some(&second));
    assert_eq!(cs.added.len(), 1);
    assert_eq!(cs.added[0].uuid, uuid(B));
    assert_eq!(cs.removed.len(), 1);
    assert_eq!(cs.removed[0].uuid, uuid(A));
    // A failed listing changes nothing.
    let cs = w.read_changes(None);
    assert!(cs.added.is_empty() && cs.removed.is_empty());
    let cs = w.read_changes(Some(&vec![]));
    assert_eq!(cs.removed.len(), 1);
}

#[test]
fn known_zone_keeps_first_network() {
    let mut w = AutoNetworkWatcher::new();
    w.read_changes(Some(&vec![zone(A, 1, "10.75.0.2/16")]));
    let cs = w.read_changes(Some(&vec![zone(A, 9, "10.75.0.7/16")]));
    assert!(cs.added.is_empty() && cs.removed.is_empty());
    let cs = w.read_changes(Some(&vec![]));
    assert_eq!(cs.removed[0].domid, 1);
}

#[test]
fn marked_zone_reappears() {
    let mut w = AutoNetworkWatcher::new();
    let listing = vec![zone(A, 1, "10.75.0.2/16"), zone(B, 2, "10.75.0.3/16")];
    w.read_changes(Some(&listing));
    assert!(w.mark_unknown(uuid(A)));
    assert!(!w.mark_unknown(uuid(A)));
    let cs = w.read_changes(Some(&listing));
    assert_eq!(cs.added.len(), 1);
    assert_eq!(cs.added[0].uuid, uuid(A));
    assert!(cs.removed.is_empty());
}

#[test]
fn waiting_ends_on_change_or_timeout() {
    assert!(wait_finished(WaitEvent::ZoneChanged));
    assert!(wait_finished(WaitEvent::TimedOut));
    assert!(!wait_finished(WaitEvent::ReceiveFailed));
}
