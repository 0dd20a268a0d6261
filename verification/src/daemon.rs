//! Decisions the daemon makes when it starts and when it begins to listen:
//! where its files are, which zone asset file to use, which host identity
//! to keep, and how to serve the control service.
use vstd::prelude::*;

use crate::autonet::{parse_uuid, uuid_parse, Ipv4Net, Ipv6Net};

use crate::text::{
    concat_str, decimal, path_push, path_pushed, str_chars, string_from_chars, trim_chars,
    trimmed, u64_to_string,
};

verus! {

/// Why the daemon could not start.
#[derive(Debug, Clone, PartialEq, Eq)]
pub enum DaemonError {
    /// No zone asset file of this name exists.
    MissingZoneFile(String),
    /// A configured subnet does not parse; the text says why.
    InvalidSubnet(String),
}

impl DaemonError {
    pub open spec fn spec_message(&self) -> Seq<char> {
        match self {
            DaemonError::MissingZoneFile(name) => "unable to find required zone file: "@ + name@,
            DaemonError::InvalidSubnet(why) => why@,
        }
    }

    /// The message that describes the error.
    pub fn message(&self) -> (s: String)
        ensures
            s@ == self.spec_message(),
    {
        match self {
            DaemonError::MissingZoneFile(name) => concat_str(
                "unable to find required zone file: ",
                name.as_str(),
            ),
            DaemonError::InvalidSubnet(why) => string_from_chars(str_chars(why.as_str()).as_slice()),
        }
    }
}

/// The zone asset file of the store: `<store>/zone/<name>`.
pub open spec fn store_zone_file(store: Seq<char>, name: Seq<char>) -> Seq<char> {
    store + "/zone/"@ + name
}

/// The zone asset file installed with the system: `/usr/share/krata/zone/<name>`.
pub open spec fn system_zone_file(name: Seq<char>) -> Seq<char> {
    "/usr/share/krata/zone/"@ + name
}

/// Finds the zone asset file `name`: the one in the store when it is a
/// file, else the system one when it is a file, else an error naming it.
/// `is_file` tells whether a path names a regular file.
pub fn detect_zone_path<F: Fn(&String) -> bool>(store: &str, name: &str, is_file: F) -> (r: Result<String, DaemonError>)
    requires
        forall|p: &String| #[trigger] is_file.requires((p,)),
    ensures
        match r {
            Ok(p) => {
                ||| p@ == store_zone_file(store@, name@) && is_file.ensures((&p,), true)
                ||| p@ == system_zone_file(name@) && is_file.ensures((&p,), true) && exists|s: String|
                    s@ == store_zone_file(store@, name@) && #[trigger] is_file.ensures((&s,), false)
            },
            Err(e) => {
                &&& e matches DaemonError::MissingZoneFile(n) && n@ == name@
                &&& exists|s: String|
                    s@ == store_zone_file(store@, name@) && #[trigger] is_file.ensures((&s,), false)
                &&& exists|s: String|
                    s@ == system_zone_file(name@) && #[trigger] is_file.ensures((&s,), false)
            },
        },
{
    let a = concat_str(store, "/zone/");
    let path = concat_str(a.as_str(), name);
    if is_file(&path) {
        return Ok(path);
    }
    let system = concat_str("/usr/share/krata/zone/", name);
    if is_file(&system) {
        return Ok(system);
    }
    Err(DaemonError::MissingZoneFile(string_from_chars(str_chars(name).as_slice())))
}

/// The files and directories of a daemon store.
#[derive(Debug, Clone)]
pub struct DaemonPaths {
    /// `<store>/config.toml`
    pub config: String,
    /// `<store>/cache/image`, created when missing.
    pub image_cache: String,
    /// `<store>/host.uuid`
    pub host_uuid: String,
    /// `<store>/krata.db`
    pub database: String,
    /// `<store>/tls/daemon.pem`
    pub tls_certificate: String,
    /// `<store>/tls/daemon.key`
    pub tls_key: String,
}

impl DaemonPaths {
    /// The paths of the store `store`. The first three are joined as paths
    /// are (no second `/` after a store that ends in one); the others are
    /// written as text after the store.
    pub fn new(store: &str) -> (p: DaemonPaths)
        ensures
            p.config@ == path_pushed(store@, "config.toml"@),
            p.image_cache@ == path_pushed(path_pushed(store@, "cache"@), "image"@),
            p.host_uuid@ == path_pushed(store@, "host.uuid"@),
            p.database@ == store@ + "/krata.db"@,
            p.tls_certificate@ == store@ + "/tls/daemon.pem"@,
            p.tls_key@ == store@ + "/tls/daemon.key"@,
    {
        let s = str_chars(store);
        let config = path_push(s.as_slice(), str_chars("config.toml").as_slice());
        let cache = path_push(s.as_slice(), str_chars("cache").as_slice());
        let image = path_push(cache.as_slice(), str_chars("image").as_slice());
        let host = path_push(s.as_slice(), str_chars("host.uuid").as_slice());
        DaemonPaths {
            config: string_from_chars(config.as_slice()),
            image_cache: string_from_chars(image.as_slice()),
            host_uuid: string_from_chars(host.as_slice()),
            database: concat_str(store, "/krata.db"),
            tls_certificate: concat_str(store, "/tls/daemon.pem"),
            tls_key: concat_str(store, "/tls/daemon.key"),
        }
    }
}

/// The lowercase hexadecimal digit of `d`, which is below 16.
pub open spec fn hex_lower(d: nat) -> char {
    if d < 10 {
        (48 + d) as char
    } else {
        (87 + d) as char
    }
}

/// The `i`-th hex digit of `u`, most significant first.
pub open spec fn uuid_nibble(u: u128, i: int) -> nat {
    ((u >> ((124 - 4 * i) as u128)) & 0xf) as nat
}

/// The position among the 32 hex digits of the character at `j` of the
/// hyphenated text.
pub open spec fn uuid_digit_index(j: int) -> int {
    if j < 8 {
        j
    } else if j < 13 {
        j - 1
    } else if j < 18 {
        j - 2
    } else if j < 23 {
        j - 3
    } else {
        j - 4
    }
}

/// The hyphenated lowercase text of a UUID: groups of 8, 4, 4, 4 and 12 hex
/// digits joined by `-`.
pub open spec fn uuid_text(u: u128) -> Seq<char> {
    Seq::new(
        36,
        |j: int|
            if j == 8 || j == 13 || j == 18 || j == 23 {
                '-'
            } else {
                hex_lower(uuid_nibble(u, uuid_digit_index(j)))
            },
    )
}

/// `uuid::Uuid`'s `to_string`: the hyphenated lowercase text of the UUID,
/// which `Uuid::from_str` reads back to the same UUID.
#[verifier::external_body]
fn uuid_to_string(u: u128) -> (s: String)
    ensures
        s@ == uuid_text(u),
        uuid_parse(s@) == Some(u),
{
    uuid::Uuid::from_u128(u).to_string()
}

/// The host identity kept in the store file, if its text (around which
/// whitespace is ignored) is a UUID.
pub open spec fn stored_host_uuid(content: Option<Seq<char>>) -> Option<u128> {
    match content {
        Some(c) => uuid_parse(trimmed(c)),
        None => None,
    }
}

pub open spec fn opt_text(s: Option<&str>) -> Option<Seq<char>> {
    match s {
        Some(t) => Some(t@),
        None => None,
    }
}

/// The host identity to use, and the text to write to the store file when
/// it changes: the stored identity when the file holds one; else the fresh
/// identity `generated`, written as its hyphenated text and a newline.
pub fn resolve_host_uuid(content: Option<&str>, generated: u128) -> (r: (u128, Option<String>))
    ensures
        match stored_host_uuid(opt_text(content)) {
            Some(u) => r.0 == u && r.1 is None,
            None => r.0 == generated && (r.1 matches Some(t) && t@ == uuid_text(generated).push(
                '\n',
            )),
        },
        r.1 matches Some(t) ==> stored_host_uuid(Some(t@)) == Some(r.0),
{
    if let Some(text) = content {
        let chars = str_chars(text);
        let t = trim_chars(chars.as_slice());
        let trimmed_text = string_from_chars(t.as_slice());
        if let Some(u) = parse_uuid(trimmed_text.as_str()) {
            return (u, None);
        }
    }
    let s = uuid_to_string(generated);
    let mut v = str_chars(s.as_str());
    v.push('\n');
    proof {
        lemma_trim_uuid_line(generated);
    }
    (generated, Some(string_from_chars(v.as_slice())))
}

proof fn lemma_hex_not_whitespace(d: nat)
    requires
        d < 16,
    ensures
        !crate::text::is_whitespace(hex_lower(d)),
{
}

proof fn lemma_trim_uuid_line(u: u128)
    ensures
        trimmed(uuid_text(u).push('\n')) == uuid_text(u),
{
    let t = uuid_text(u);
    let s = t.push('\n');
    assert(uuid_nibble(u, 0) < 16) by (bit_vector);
    lemma_hex_not_whitespace(uuid_nibble(u, 0));
    assert(s[0] == t[0]);
    assert(crate::text::trim_start(s) == s);
    assert(s.last() == '\n');
    assert(s.drop_last() == t);
    assert(uuid_nibble(u, 31) < 16) by (bit_vector);
    lemma_hex_not_whitespace(uuid_nibble(u, 31));
    assert(t.last() == t[35]);
    assert(crate::text::trim_end(t) == t);
    assert(crate::text::trim_end(s) == t);
}

/// Where the control service is offered.
#[derive(Debug, Clone, PartialEq, Eq)]
pub enum ControlDialAddress {
    UnixSocket { path: String },
    Tcp { host: String, port: u16 },
    Tls { host: String, port: u16, insecure: bool },
}

/// How the control service secures its connections.
#[derive(Debug, Clone, PartialEq, Eq)]
pub enum TlsSetup {
    /// No TLS.
    Plain,
    /// TLS without a server identity.
    Insecure,
    /// TLS with the identity in these PEM files.
    Identity { certificate: String, key: String },
}

/// What the control service listens on.
#[derive(Debug, Clone, PartialEq, Eq)]
pub enum ListenEndpoint {
    /// A Unix socket at this path; a stale file there is removed first.
    UnixSocket { path: String },
    /// A TCP socket at `host:port`.
    Socket { address: String },
}

/// How the daemon serves the control service.
#[derive(Debug, Clone, PartialEq, Eq)]
pub struct ListenPlan {
    pub tls: TlsSetup,
    pub endpoint: ListenEndpoint,
}

/// The socket address text `host:port`.
pub open spec fn host_port(host: Seq<char>, port: u16) -> Seq<char> {
    host + ":"@ + decimal(port as nat)
}

fn socket_address(host: &str, port: u16) -> (s: String)
    ensures
        s@ == host_port(host@, port),
{
    let a = concat_str(host, ":");
    let p = u64_to_string(port as u64);
    concat_str(a.as_str(), p.as_str())
}

/// How to serve the control service for the store `store` at `addr`: TLS
/// with the store's identity unless insecure for a TLS address, none
/// otherwise; a Unix socket at its path, or a TCP socket at `host:port`.
pub fn listen_plan(store: &str, addr: &ControlDialAddress) -> (p: ListenPlan)
    ensures
        match addr {
            ControlDialAddress::UnixSocket { path } => p.tls == TlsSetup::Plain && (p.endpoint matches ListenEndpoint::UnixSocket { path: q } && q@ == path@),
            ControlDialAddress::Tcp { host, port } => p.tls == TlsSetup::Plain && (p.endpoint matches ListenEndpoint::Socket { address } && address@ == host_port(host@, *port)),
            ControlDialAddress::Tls { host, port, insecure } => {
                &&& if *insecure {
                    p.tls == TlsSetup::Insecure
                } else {
                    p.tls matches TlsSetup::Identity { certificate, key }
                        && certificate@ == store@ + "/tls/daemon.pem"@
                        && key@ == store@ + "/tls/daemon.key"@
                }
                &&& p.endpoint matches ListenEndpoint::Socket { address } && address@ == host_port(host@, *port)
            },
        },
{
    match addr {
        ControlDialAddress::UnixSocket { path } => ListenPlan {
            tls: TlsSetup::Plain,
            endpoint: ListenEndpoint::UnixSocket {
                path: string_from_chars(str_chars(path.as_str()).as_slice()),
            },
        },
        ControlDialAddress::Tcp { host, port } => ListenPlan {
            tls: TlsSetup::Plain,
            endpoint: ListenEndpoint::Socket { address: socket_address(host.as_str(), *port) },
        },
        ControlDialAddress::Tls { host, port, insecure } => {
            let tls = if *insecure {
                TlsSetup::Insecure
            } else {
                TlsSetup::Identity {
                    certificate: concat_str(store, "/tls/daemon.pem"),
                    key: concat_str(store, "/tls/daemon.key"),
                }
            };
            ListenPlan {
                tls,
                endpoint: ListenEndpoint::Socket { address: socket_address(host.as_str(), *port) },
            }
        },
    }
}

/// What `ipnetwork::Ipv4Network::from_str` yields: address and prefix
/// length, or the text of its error.
pub uninterp spec fn ipnetwork_ipv4(text: Seq<char>) -> Result<(u32, u8), Seq<char>>;

/// What `ipnetwork::Ipv6Network::from_str` yields: address and prefix
/// length, or the text of its error.
pub uninterp spec fn ipnetwork_ipv6(text: Seq<char>) -> Result<(u128, u8), Seq<char>>;

/// `ipnetwork::Ipv4Network::from_str`: an IPv4 address with an optional
/// `/prefix` (a length or a netmask), the prefix 32 when none is given; the
/// parser admits only prefixes up to 32. On failure, the text of its error.
#[verifier::external_body]
fn parse_ipv4_network(text: &str) -> (r: Result<Ipv4Net, String>)
    ensures
        match (r, ipnetwork_ipv4(text@)) {
            (Ok(n), Ok((a, p))) => n.address == a && n.prefix_len == p,
            (Err(e), Err(t)) => e@ == t,
            _ => false,
        },
        r matches Ok(n) ==> n.prefix_len <= 32,
{
    match <ipnetwork::Ipv4Network as std::str::FromStr>::from_str(text) {
        Ok(n) => Ok(Ipv4Net { address: u32::from(n.ip()), prefix_len: n.prefix() }),
        Err(e) => Err(e.to_string()),
    }
}

/// `ipnetwork::Ipv6Network::from_str`: an IPv6 address with an optional
/// `/prefix` length, 128 when none is given; the parser admits only
/// prefixes up to 128. On failure, the text of its error.
#[verifier::external_body]
fn parse_ipv6_network(text: &str) -> (r: Result<Ipv6Net, String>)
    ensures
        match (r, ipnetwork_ipv6(text@)) {
            (Ok(n), Ok((a, p))) => n.address == a && n.prefix_len == p,
            (Err(e), Err(t)) => e@ == t,
            _ => false,
        },
        r matches Ok(n) ==> n.prefix_len <= 128,
{
    match <ipnetwork::Ipv6Network as std::str::FromStr>::from_str(text) {
        Ok(n) => Ok(Ipv6Net { address: u128::from(n.ip()), prefix_len: n.prefix() }),
        Err(e) => Err(e.to_string()),
    }
}

/// The configured subnets that zone addresses are assigned from, or why
/// the daemon cannot start with them: the IPv4 subnet is checked first, and
/// the error carries the parser's text.
pub fn parse_subnets(ipv4: &str, ipv6: &str) -> (r: Result<(Ipv4Net, Ipv6Net), DaemonError>)
    ensures
        match (ipnetwork_ipv4(ipv4@), ipnetwork_ipv6(ipv6@)) {
            (Ok((a, p)), Ok((b, q))) => r == Ok::<(Ipv4Net, Ipv6Net), DaemonError>(
                (Ipv4Net { address: a, prefix_len: p }, Ipv6Net { address: b, prefix_len: q }),
            ),
            (Err(t), _) => r matches Err(DaemonError::InvalidSubnet(w)) && w@ == t,
            (Ok(_), Err(t)) => r matches Err(DaemonError::InvalidSubnet(w)) && w@ == t,
        },
        r matches Ok((v4, v6)) ==> v4.prefix_len <= 32 && v6.prefix_len <= 128,
{
    let v4 = match parse_ipv4_network(ipv4) {
        Ok(n) => n,
        Err(why) => {
            return Err(DaemonError::InvalidSubnet(why));
        },
    };
    let v6 = match parse_ipv6_network(ipv6) {
        Ok(n) => n,
        Err(why) => {
            return Err(DaemonError::InvalidSubnet(why));
        },
    };
    Ok((v4, v6))
}

} // verus!
