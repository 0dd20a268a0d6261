use krata::daemon::{
    detect_zone_path, listen_plan, parse_subnets, resolve_host_uuid, ControlDialAddress, DaemonError, DaemonPaths,
    ListenEndpoint, TlsSetup,
};
use std::cell::RefCell;

#[test]
fn zone_file_from_store_first() {
    let asked = RefCell::new(Vec::new());
    let r = detect_zone_path("/var/lib/krata", "kernel", |p: &String| {
        asked.borrow_mut().push(p.clone());
        true
    });
    assert_eq!(r.unwrap(), "/var/lib/krata/zone/kernel");
    assert_eq!(asked.borrow().len(), 1);
}

#[test]
fn zone_file_from_system_second() {
    let r = detect_zone_path("/var/lib/krata", "initrd", |p: &String| p.starts_with("/usr/share"));
    assert_eq!(r.unwrap(), "/usr/share/krata/zone/initrd");
}

#[test]
fn zone_file_missing() {
    let r = detect_zone_path("/s", "addons.squashfs", |_p: &String| false);
    let e = r.unwrap_err();
    assert_eq!(e, DaemonError::MissingZoneFile(String::from("addons.squashfs")));
    assert_eq!(e.message(), "unable to find required zone file: addons.squashfs");
}

#[test]
fn daemon_store_paths() {
    let p = DaemonPaths::new("/var/lib/krata");
    assert_eq!(p.config, "/var/lib/krata/config.toml");
    assert_eq!(p.image_cache, "/var/lib/krata/cache/image");
    assert_eq!(p.host_uuid, "/var/lib/krata/host.uuid");
    assert_eq!(p.database, "/var/lib/krata/krata.db");
    assert_eq!(p.tls_certificate, "/var/lib/krata/tls/daemon.pem");
    assert_eq!(p.tls_key, "/var/lib/krata/tls/daemon.key");
    let q = DaemonPaths::new("/s/");
    assert_eq!(q.config, "/s/config.toml");
    assert_eq!(q.database, "/s//krata.db");
}

#[test]
fn host_uuid_is_kept_or_created() {
    let (u, written) = resolve_host_uuid(Some("  550e8400-e29b-41d4-a716-446655440000\n"), 5);
    assert_eq!(u, 0x550e8400_e29b_41d4_a716_446655440000);
    assert!(written.is_none());
    let (u, written) = resolve_host_uuid(Some("garbage"), 0x0123456789abcdef0123456789abcdef);
    assert_eq!(u, 0x0123456789abcdef0123456789abcdef);
    let text = written.unwrap();
    assert_eq!(text, "01234567-89ab-cdef-0123-456789abcdef\n");
    // What was written is read back on the next start.
    let (again, none) = resolve_host_uuid(Some(&text), 9);
    assert_eq!(again, u);
    assert!(none.is_none());
    let (u, written) = resolve_host_uuid(None, 1);
    assert_eq!(u, 1);
    assert_eq!(written.unwrap(), "00000000-0000-0000-0000-000000000001\n");
}

#[test]
fn listen_plans() {
    let p = listen_plan("/s", &ControlDialAddress::UnixSocket { path: String::from("/var/lib/control.socket") });
    assert_eq!(p.tls, TlsSetup::Plain);
    assert_eq!(p.endpoint, ListenEndpoint::UnixSocket { path: String::from("/var/lib/control.socket") });
    let p = listen_plan("/s", &ControlDialAddress::Tcp { host: String::from("0.0.0.0"), port: 4350 });
    assert_eq!(p.tls, TlsSetup::Plain);
    assert_eq!(p.endpoint, ListenEndpoint::Socket { address: String::from("0.0.0.0:4350") });
    let p = listen_plan("/s", &ControlDialAddress::Tls { host: String::from("h"), port: 443, insecure: false });
    assert_eq!(
        p.tls,
        TlsSetup::Identity { certificate: String::from("/s/tls/daemon.pem"), key: String::from("/s/tls/daemon.key") }
    );
    assert_eq!(p.endpoint, ListenEndpoint::Socket { address: String::from("h:443") });
    let p = listen_plan("/s", &ControlDialAddress::Tls { host: String::from("h"), port: 1, insecure: true });
    assert_eq!(p.tls, TlsSetup::Insecure);
}

#[test]
fn configured_subnets() {
    let (v4, v6) = parse_subnets("10.75.0.0/16", "fdd4:1476:6c7e::/48").unwrap();
    assert_eq!(v4.address, u32::from_be_bytes([10, 75, 0, 0]));
    assert_eq!(v4.prefix_len, 16);
    assert_eq!(v6.address, 0xfdd4_1476_6c7e_0000_0000_0000_0000_0000);
    assert_eq!(v6.prefix_len, 48);
    let (v4, v6) = parse_subnets("192.168.1.0/255.255.255.0", "::1").unwrap();
    assert_eq!(v4.prefix_len, 24);
    assert_eq!(v6.prefix_len, 128);
    let e = parse_subnets("10.75.0.0/33", "::/0").unwrap_err();
    assert_eq!(e, DaemonError::InvalidSubnet(String::from("invalid prefix")));
    assert_eq!(e.message(), "invalid prefix");
    let e = parse_subnets("10.75.0.0/16", "nope/48").unwrap_err();
    assert_eq!(e.message(), "invalid address: nope");
    let e = parse_subnets("bad", "also bad").unwrap_err();
    assert_eq!(e.message(), "invalid address: bad");
}
