//! The decisions of the Xen 9pfs backend: the store entries it writes, how it
//! reads the frontend's ring configuration, how it takes a request out of
//! the shared ring buffer, and which backends a rescan retires.
use vstd::prelude::*;

use crate::text::{
    concat_chars, concat_str, decimal, decimal_chars, parse_error, parse_u32, parse_u32_checked,
    parse_u64, parse_unsigned, str_chars, string_from_chars, IntParseError,
};

verus! {

/// The store directory under which domains announce their 9pfs devices.
pub open spec fn backend_root() -> Seq<char> {
    "/local/domain/0/backend/9pfs"@
}

/// The store directory under which domains announce their 9pfs devices.
pub fn backend_root_path() -> (s: String)
    ensures
        s@ == backend_root(),
{
    let v = str_chars("/local/domain/0/backend/9pfs");
    string_from_chars(v.as_slice())
}

/// The store directory of the devices of domain `domid`, as the rescan
/// lists it: the root, `/` and the domain number in decimal.
pub fn backend_domain_path(domid: u32) -> (s: String)
    ensures
        s@ == backend_root() + "/"@ + decimal(domid as nat),
{
    let root = str_chars("/local/domain/0/backend/9pfs/");
    let digits = decimal_chars(domid as u64);
    let v = concat_chars(root.as_slice(), digits.as_slice());
    proof {
        reveal_strlit("/local/domain/0/backend/9pfs/");
        reveal_strlit("/local/domain/0/backend/9pfs");
        reveal_strlit("/");
        assert("/local/domain/0/backend/9pfs/"@ == backend_root() + "/"@);
    }
    string_from_chars(v.as_slice())
}

/// The store directory of device `id` of a domain, built from the names as
/// they were listed.
pub fn backend_instance_path(domid_text: &str, id_text: &str) -> (s: String)
    ensures
        s@ == backend_root() + "/"@ + domid_text@ + "/"@ + id_text@,
{
    let a = concat_str("/local/domain/0/backend/9pfs/", domid_text);
    let b = concat_str(a.as_str(), "/");
    let c = concat_str(b.as_str(), id_text);
    proof {
        reveal_strlit("/local/domain/0/backend/9pfs/");
        reveal_strlit("/local/domain/0/backend/9pfs");
        reveal_strlit("/");
        assert("/local/domain/0/backend/9pfs/"@ == backend_root() + "/"@);
    }
    c
}

/// The store key of the entry `entry` under the directory `dir`.
pub fn entry_key(dir: &str, entry: &str) -> (s: String)
    ensures
        s@ == dir@ + "/"@ + entry@,
{
    let a = concat_str(dir, "/");
    concat_str(a.as_str(), entry)
}

/// The entries a backend writes when it starts: the protocol versions, the
/// ring limits, and the state "initialised".
pub open spec fn init_entries(backend: Seq<char>) -> Seq<(Seq<char>, Seq<char>)> {
    seq![
        (backend + "/versions"@, "1"@),
        (backend + "/max-rings"@, "4"@),
        (backend + "/max-ring-page-order"@, "2"@),
        (backend + "/state"@, "2"@),
    ]
}

/// The store entries, keys and values, that a backend writes when it
/// starts, in the order it writes them.
pub fn backend_init_entries(backend: &str) -> (r: Vec<(String, String)>)
    ensures
        r@.len() == 4,
        forall|i: int|
            0 <= i < 4 ==> (#[trigger] r@[i]).0@ == init_entries(backend@)[i].0 && r@[i].1@
                == init_entries(backend@)[i].1,
{
    let mut r: Vec<(String, String)> = Vec::new();
    r.push((concat_str(backend, "/versions"), string_from_chars(str_chars("1").as_slice())));
    r.push((concat_str(backend, "/max-rings"), string_from_chars(str_chars("4").as_slice())));
    r.push(
        (
            concat_str(backend, "/max-ring-page-order"),
            string_from_chars(str_chars("2").as_slice()),
        ),
    );
    r.push((concat_str(backend, "/state"), string_from_chars(str_chars("2").as_slice())));
    r
}

/// The state text read from the store, with a missing entry read as `0`.
pub open spec fn state_text(state: Option<Seq<char>>) -> Seq<char> {
    match state {
        Some(s) => s,
        None => "0"@,
    }
}

/// Whether the state entry holds the number `expected`; when the entry is
/// present but not a number, the error `str::parse::<u32>` reports.
pub open spec fn state_is(state: Option<Seq<char>>, expected: nat) -> Result<bool, IntParseError> {
    match parse_unsigned(state_text(state), u32::MAX as nat) {
        Some(v) => Ok(v == expected),
        None => Err(parse_error(state_text(state), u32::MAX as nat)),
    }
}

pub open spec fn opt_view(s: Option<&str>) -> Option<Seq<char>> {
    match s {
        Some(t) => Some(t@),
        None => None,
    }
}

fn state_equals(state: Option<&str>, expected: u32) -> (r: Result<bool, IntParseError>)
    ensures
        r == state_is(opt_view(state), expected as nat),
{
    let parsed = match state {
        Some(s) => parse_u32_checked(s),
        None => {
            let z = parse_u32_checked("0");
            proof {
                reveal_strlit("0");
            }
            z
        },
    };
    match parsed {
        Ok(v) => Ok(v == expected),
        Err(e) => Err(e),
    }
}

/// Whether the frontend has connected (state 3) after a change of its state
/// entry; the parse error when the entry is not a number.
pub fn frontend_connected(state: Option<&str>) -> (r: Result<bool, IntParseError>)
    ensures
        r == state_is(opt_view(state), 3),
{
    state_equals(state, 3)
}

/// Whether the backend has been asked to close (state 5) after a change of
/// its own state entry; the parse error when the entry is not a number.
pub fn backend_closing(state: Option<&str>) -> (r: Result<bool, IntParseError>)
    ensures
        r == state_is(opt_view(state), 5),
{
    state_equals(state, 5)
}

/// Why a 9p backend stopped serving its frontend.
#[derive(Debug, Clone, Copy, PartialEq, Eq, Structural)]
pub enum Fs9pError {
    /// The frontend's state entry is not a number, for this reason.
    StateInvalid(IntParseError),
    /// A domain or device listed under the backend root is not a number.
    NameInvalid(IntParseError),
    MaxRingsExceeded,
    RingRefMissing(u32),
    RingRefInvalid(u32),
    EventChannelMissing(u32),
    EventChannelInvalid(u32),
}

impl Fs9pError {
    pub open spec fn spec_message(&self) -> Seq<char> {
        match self {
            Fs9pError::StateInvalid(e) => e.spec_message(),
            Fs9pError::NameInvalid(e) => e.spec_message(),
            Fs9pError::MaxRingsExceeded => "max-rings exceeded"@,
            Fs9pError::RingRefMissing(i) => "ring-ref "@ + decimal(*i as nat) + " missing"@,
            Fs9pError::RingRefInvalid(i) => "ring-ref "@ + decimal(*i as nat) + " invalid"@,
            Fs9pError::EventChannelMissing(i) => "event-channel "@ + decimal(*i as nat)
                + " missing"@,
            Fs9pError::EventChannelInvalid(i) => "event-channel "@ + decimal(*i as nat)
                + " invalid"@,
        }
    }

    /// The message that describes the error.
    pub fn message(&self) -> (s: String)
        ensures
            s@ == self.spec_message(),
    {
        match self {
            Fs9pError::StateInvalid(e) => e.message(),
            Fs9pError::NameInvalid(e) => e.message(),
            Fs9pError::MaxRingsExceeded => string_from_chars(
                str_chars("max-rings exceeded").as_slice(),
            ),
            Fs9pError::RingRefMissing(i) => numbered("ring-ref ", *i, " missing"),
            Fs9pError::RingRefInvalid(i) => numbered("ring-ref ", *i, " invalid"),
            Fs9pError::EventChannelMissing(i) => numbered("event-channel ", *i, " missing"),
            Fs9pError::EventChannelInvalid(i) => numbered("event-channel ", *i, " invalid"),
        }
    }
}

fn numbered(before: &str, i: u32, after: &str) -> (s: String)
    ensures
        s@ == before@ + decimal(i as nat) + after@,
{
    let b = str_chars(before);
    let d = decimal_chars(i as u64);
    let a = str_chars(after);
    let v = concat_chars(b.as_slice(), d.as_slice());
    let w = concat_chars(v.as_slice(), a.as_slice());
    string_from_chars(w.as_slice())
}

/// What the backend does with the frontend's `num-rings` entry.
#[derive(Debug, Clone, Copy, PartialEq, Eq, Structural)]
pub enum RingCount {
    /// The entry is missing or not a number: wait for the next change.
    Wait,
    /// More rings than the backend offers.
    TooMany,
    /// The number of rings to read.
    Rings(u32),
}

/// The most rings the backend offers.
pub const MAX_RINGS: u32 = 4;

/// Interprets the frontend's `num-rings` entry.
pub fn ring_count(num_rings: Option<&str>) -> (r: RingCount)
    ensures
        r == match num_rings {
            None => RingCount::Wait,
            Some(t) => match parse_unsigned(t@, u32::MAX as nat) {
                None => RingCount::Wait,
                Some(n) => if n > 4 {
                    RingCount::TooMany
                } else {
                    RingCount::Rings(n as u32)
                },
            },
        },
{
    match num_rings {
        None => RingCount::Wait,
        Some(t) => match parse_u32(t) {
            None => RingCount::Wait,
            Some(n) => if n > MAX_RINGS {
                RingCount::TooMany
            } else {
                RingCount::Rings(n)
            },
        },
    }
}

/// The store key of the grant reference of ring `i`.
pub fn ring_ref_key(frontend: &str, i: u32) -> (s: String)
    ensures
        s@ == frontend@ + "/ring-ref"@ + decimal(i as nat),
{
    let f = str_chars(frontend);
    let t = numbered("/ring-ref", i, "");
    let tv = str_chars(t.as_str());
    let v = concat_chars(f.as_slice(), tv.as_slice());
    proof {
        reveal_strlit("");
        assert("/ring-ref"@ + decimal(i as nat) + ""@ == "/ring-ref"@ + decimal(i as nat));
    }
    string_from_chars(v.as_slice())
}

/// The store key of the event channel of ring `i`.
pub fn event_channel_key(frontend: &str, i: u32) -> (s: String)
    ensures
        s@ == frontend@ + "/event-channel-"@ + decimal(i as nat),
{
    let f = str_chars(frontend);
    let t = numbered("/event-channel-", i, "");
    let tv = str_chars(t.as_str());
    let v = concat_chars(f.as_slice(), tv.as_slice());
    proof {
        reveal_strlit("");
        assert("/event-channel-"@ + decimal(i as nat) + ""@ == "/event-channel-"@ + decimal(
            i as nat,
        ));
    }
    string_from_chars(v.as_slice())
}

/// The grant reference and event channel of ring `i`, from the entries the
/// frontend wrote for it.
pub open spec fn ring_entry(i: u32, ring_ref: Option<Seq<char>>, evtchn: Option<Seq<char>>) -> Result<(nat, nat), Fs9pError> {
    match ring_ref {
        None => Err(Fs9pError::RingRefMissing(i)),
        Some(r) => match parse_unsigned(r, u64::MAX as nat) {
            None => Err(Fs9pError::RingRefInvalid(i)),
            Some(rv) => match evtchn {
                None => Err(Fs9pError::EventChannelMissing(i)),
                Some(e) => match parse_unsigned(e, u32::MAX as nat) {
                    None => Err(Fs9pError::EventChannelInvalid(i)),
                    Some(ev) => Ok((rv, ev)),
                },
            },
        },
    }
}

/// Reads the grant reference and event channel of ring `i`.
pub fn parse_ring_entry(i: u32, ring_ref: Option<&str>, evtchn: Option<&str>) -> (r: Result<(u64, u32), Fs9pError>)
    ensures
        match (r, ring_entry(i, opt_view(ring_ref), opt_view(evtchn))) {
            (Ok((a, b)), Ok((x, y))) => a as nat == x && b as nat == y,
            (Err(e), Err(f)) => e == f,
            _ => false,
        },
{
    let Some(ring_ref) = ring_ref else {
        return Err(Fs9pError::RingRefMissing(i));
    };
    let Some(ring_ref) = parse_u64(ring_ref) else {
        return Err(Fs9pError::RingRefInvalid(i));
    };
    let Some(evtchn) = evtchn else {
        return Err(Fs9pError::EventChannelMissing(i));
    };
    let Some(evtchn) = parse_u32(evtchn) else {
        return Err(Fs9pError::EventChannelInvalid(i));
    };
    Ok((ring_ref, evtchn))
}

/// The bytes of the shared ring for a page order: 2048 for order 0, doubling
/// with each order.
pub open spec fn ring_capacity(order: nat) -> nat
    decreases order,
{
    if order == 0 {
        2048
    } else {
        2 * ring_capacity((order - 1) as nat)
    }
}

/// The size of one direction of the data ring, and the grant references of
/// its pages (one per 4096 bytes), for the page order the frontend chose.
/// The interface holds four references, so orders above 3 are out of range.
pub fn ring_layout(ring_order: u32, refs: &[u32; 4]) -> (r: (usize, Vec<u32>))
    requires
        ring_order <= 3,
    ensures
        r.0 as nat == ring_capacity(ring_order as nat),
        r.1@ == refs@.subrange(0, (ring_capacity(ring_order as nat) / 4096) as int),
{
    let mut size: usize = 2048;
    let mut k: u32 = 0;
    while k < ring_order
        invariant
            k <= ring_order <= 3,
            size as nat == ring_capacity(k as nat),
            size <= 16384,
        decreases ring_order - k,
    {
        assert(ring_capacity((k + 1) as nat) == 2 * ring_capacity(k as nat));
        assert(k < 3);
        assert(ring_capacity(k as nat) <= 8192) by {
            reveal_with_fuel(ring_capacity, 4);
        }
        size = size * 2;
        k = k + 1;
    }
    let pages = size / 4096;
    let mut out: Vec<u32> = Vec::new();
    let mut i: usize = 0;
    while i < pages
        invariant
            pages == size / 4096,
            size <= 16384,
            i <= pages <= 4,
            out@ == refs@.subrange(0, i as int),
        decreases pages - i,
    {
        out.push(refs[i]);
        i = i + 1;
        assert(out@ == refs@.subrange(0, i as int));
    }
    (size, out)
}

/// Whether taking a request out of the ring stays inside the data area and
/// free of arithmetic faults. `len` is the length of the data area, which is
/// `max_size - 128`.
pub open spec fn ring_read_in_range(len: nat, cons: u32, prod: u32, max_size: usize) -> bool {
    let size = prod.wrapping_sub(cons);
    (size != 0 && size <= max_size) ==> {
        &&& (max_size as u32) >= 1
        &&& if cons < prod {
            cons <= size && size <= len
        } else {
            &&& cons <= max_size
            &&& if size > max_size - cons {
                cons <= max_size - cons && max_size - cons <= len && size - (max_size - cons) <= len
            } else {
                size <= len
            }
        }
    }
}

/// The request bytes taken from the data area and the new consumer index,
/// or `None` when the ring holds nothing to take (no bytes, or more than the
/// ring holds).
pub open spec fn ring_read(data: Seq<u8>, cons: u32, prod: u32, max_size: usize) -> Option<(Seq<u8>, u32)> {
    let size = prod.wrapping_sub(cons);
    if size == 0 || size > max_size {
        None
    } else {
        let bytes = if cons < prod {
            data.subrange(cons as int, size as int)
        } else if size > max_size - cons {
            data.subrange(cons as int, max_size - cons) + data.subrange(
                0,
                size - (max_size - cons),
            )
        } else {
            data.subrange(0, size as int)
        };
        Some((bytes, cons.wrapping_add(size) & (((max_size as u32) - 1) as u32)))
    }
}

fn copy_range(data: &[u8], from: usize, to: usize, out: &mut Vec<u8>)
    requires
        from <= to <= data@.len(),
    ensures
        final(out)@ == old(out)@ + data@.subrange(from as int, to as int),
{
    let mut i: usize = from;
    while i < to
        invariant
            from <= i <= to <= data@.len(),
            out@ == old(out)@ + data@.subrange(from as int, i as int),
        decreases to - i,
    {
        out.push(data[i]);
        i = i + 1;
        assert(data@.subrange(from as int, i as int) == data@.subrange(from as int, i - 1).push(
            data@[i - 1],
        ));
    }
}

/// Takes the pending request out of the ring's data area: `cons` and `prod`
/// are the consumer and producer indexes of the ring and `max_size` the size
/// of one direction; the data area starts 128 bytes in.
pub fn read_request_buffer(data: &[u8], cons: u32, prod: u32, max_size: usize) -> (r: Option<(Vec<u8>, u32)>)
    requires
        data@.len() + 128 == max_size,
        ring_read_in_range(data@.len(), cons, prod, max_size),
    ensures
        match (r, ring_read(data@, cons, prod, max_size)) {
            (Some((bytes, next)), Some((b, n))) => bytes@ == b && next == n,
            (None, None) => true,
            _ => false,
        },
{
    let size = prod.wrapping_sub(cons);
    if size == 0 || size as usize > max_size {
        return None;
    }
    let mut out: Vec<u8> = Vec::new();
    if cons < prod {
        copy_range(data, cons as usize, size as usize, &mut out);
    } else if size as usize > max_size - cons as usize {
        let w: usize = max_size - cons as usize;
        copy_range(data, cons as usize, w, &mut out);
        assert(w < size);
        let rest: u32 = size.wrapping_sub(w as u32);
        assert(rest == size - w);
        copy_range(data, 0, rest as usize, &mut out);
    } else {
        copy_range(data, 0, size as usize, &mut out);
    }
    let mask: u32 = (max_size as u32) - 1;
    Some((out, cons.wrapping_add(size) & mask))
}

/// The backends whose domain no longer announces a device: those of `known`
/// that are not in `seen`, in the order of `known`.
pub fn stale_backends(known: &Vec<u32>, seen: &Vec<u32>) -> (r: Vec<u32>)
    ensures
        r@ == known@.filter(|d: u32| !seen@.contains(d)),
{
    let ghost keep = |d: u32| !seen@.contains(d);
    let mut r: Vec<u32> = Vec::new();
    let mut i: usize = 0;
    while i < known.len()
        invariant
            i <= known@.len(),
            keep == (|d: u32| !seen@.contains(d)),
            r@ == known@.subrange(0, i as int).filter(keep),
        decreases known@.len() - i,
    {
        let d = known[i];
        let mut present = false;
        let mut j: usize = 0;
        while j < seen.len()
            invariant
                j <= seen@.len(),
                present == seen@.subrange(0, j as int).contains(d),
            decreases seen@.len() - j,
        {
            if seen[j] == d {
                present = true;
            }
            proof {
                let a = seen@.subrange(0, j as int);
                let b = seen@.subrange(0, j + 1);
                assert(b == a.push(seen@[j as int]));
                if seen@[j as int] == d {
                    assert(b[j as int] == d);
                }
                if a.contains(d) {
                    let k = choose|k: int| 0 <= k < a.len() && a[k] == d;
                    assert(b[k] == d);
                }
                if b.contains(d) && !a.contains(d) {
                    let k = choose|k: int| 0 <= k < b.len() && b[k] == d;
                    if k < a.len() {
                        assert(a[k] == d);
                    }
                }
            }
            j = j + 1;
        }
        assert(seen@.subrange(0, seen@.len() as int) == seen@);
        proof {
            let s = known@.subrange(0, i as int);
            assert(known@.subrange(0, i + 1) == s.push(d));
            reveal(Seq::filter);
            assert(s.push(d).drop_last() == s);
        }
        if !present {
            r.push(d);
        }
        i = i + 1;
    }
    assert(known@.subrange(0, known@.len() as int) == known@);
    r
}

/// What `str::parse::<u32>` makes of the text.
pub open spec fn u32_of(t: Seq<char>) -> Result<u32, IntParseError> {
    match parse_unsigned(t, u32::MAX as nat) {
        Some(v) => Ok(v as u32),
        None => Err(parse_error(t, u32::MAX as nat)),
    }
}

/// The store directory of a device, built from the names as listed.
pub open spec fn instance_path(domid_text: Seq<char>, id_text: Seq<char>) -> Seq<char> {
    backend_root() + "/"@ + domid_text + "/"@ + id_text
}

/// The texts of a sequence of strings.
pub open spec fn texts(v: Seq<String>) -> Seq<Seq<char>> {
    v.map_values(|s: String| s@)
}

/// The devices a domain lists, read in order up to the first id that is not
/// a number, and that id's parse error.
pub open spec fn device_ids(domid: u32, domid_text: Seq<char>, ids: Seq<Seq<char>>) -> (Seq<(u32, u32, Seq<char>)>, Option<IntParseError>)
    decreases ids.len(),
{
    if ids.len() == 0 {
        (Seq::empty(), None)
    } else {
        let (prev, f) = device_ids(domid, domid_text, ids.drop_last());
        if f is Some {
            (prev, f)
        } else {
            match u32_of(ids.last()) {
                Err(e) => (prev, Some(e)),
                Ok(id) => (prev.push((domid, id, instance_path(domid_text, ids.last()))), None),
            }
        }
    }
}

/// What a rescan finds in the listing of domains (each with the ids of its
/// devices): the devices in order, up to the first domain or id that is not
/// a number, and that name's parse error.
pub open spec fn rescan_devices(listing: Seq<(Seq<char>, Seq<Seq<char>>)>) -> (Seq<(u32, u32, Seq<char>)>, Option<IntParseError>)
    decreases listing.len(),
{
    if listing.len() == 0 {
        (Seq::empty(), None)
    } else {
        let (prev, f) = rescan_devices(listing.drop_last());
        if f is Some {
            (prev, f)
        } else {
            let (domid_text, ids) = listing.last();
            match u32_of(domid_text) {
                Err(e) => (prev, Some(e)),
                Ok(d) => {
                    let (ds, g) = device_ids(d, domid_text, ids);
                    (prev + ds, g)
                },
            }
        }
    }
}

/// The listing with its names as texts.
pub open spec fn listing_view(listing: Seq<(String, Vec<String>)>) -> Seq<(Seq<char>, Seq<Seq<char>>)> {
    listing.map_values(|e: (String, Vec<String>)| (e.0@, texts(e.1@)))
}

/// Devices with their directories as texts.
pub open spec fn devices_view(v: Seq<(u32, u32, String)>) -> Seq<(u32, u32, Seq<char>)> {
    v.map_values(|x: (u32, u32, String)| (x.0, x.1, x.2@))
}

/// The domains of the devices, one per device.
pub open spec fn device_domains(ds: Seq<(u32, u32, Seq<char>)>) -> Seq<u32> {
    ds.map_values(|x: (u32, u32, Seq<char>)| x.0)
}

/// What a rescan of the 9pfs backend root does.
#[derive(Debug)]
pub struct RescanPlan {
    /// The devices to make sure a backend runs for, in listing order: the
    /// domain, the device id, and the store directory of the device.
    pub devices: Vec<(u32, u32, String)>,
    /// Afterwards: the known domains whose backends are to be dropped, as
    /// no device of theirs was listed; or the error that ends the rescan.
    pub retire: Result<Vec<u32>, Fs9pError>,
}

/// The directory to list the devices of a listed domain in, built from the
/// domain's number; the error when the name is not a number.
pub fn domain_listing_path(domid_text: &str) -> (r: Result<String, Fs9pError>)
    ensures
        match u32_of(domid_text@) {
            Ok(d) => r matches Ok(p) && p@ == backend_root() + "/"@ + decimal(d as nat),
            Err(e) => r == Err::<String, Fs9pError>(Fs9pError::NameInvalid(e)),
        },
{
    match parse_u32_checked(domid_text) {
        Ok(d) => Ok(backend_domain_path(d)),
        Err(e) => Err(Fs9pError::NameInvalid(e)),
    }
}

/// Whether a backend is still to be made for a device of domain `domid`,
/// given the domains that have one.
pub fn needs_backend(known: &Vec<u32>, domid: u32) -> (b: bool)
    ensures
        b == !known@.contains(domid),
{
    let mut i: usize = 0;
    while i < known.len()
        invariant
            i <= known@.len(),
            forall|j: int| 0 <= j < i ==> known@[j] != domid,
        decreases known@.len() - i,
    {
        if known[i] == domid {
            assert(known@[i as int] == domid);
            return false;
        }
        i = i + 1;
    }
    true
}

fn add_devices(domid: u32, domid_text: &str, ids: &Vec<String>, devices: &mut Vec<(u32, u32, String)>, seen: &mut Vec<u32>) -> (f: Option<IntParseError>)
    requires
        old(seen)@ == device_domains(devices_view(old(devices)@)),
    ensures
        devices_view(final(devices)@) == devices_view(old(devices)@) + device_ids(
            domid,
            domid_text@,
            texts(ids@),
        ).0,
        final(seen)@ == device_domains(devices_view(final(devices)@)),
        f == device_ids(domid, domid_text@, texts(ids@)).1,
{
    let ghost start = devices_view(devices@);
    let mut failure: Option<IntParseError> = None;
    let mut j: usize = 0;
    while j < ids.len()
        invariant
            j <= ids@.len(),
            devices_view(devices@) == start + device_ids(
                domid,
                domid_text@,
                texts(ids@).subrange(0, j as int),
            ).0,
            failure == device_ids(domid, domid_text@, texts(ids@).subrange(0, j as int)).1,
            seen@ == device_domains(devices_view(devices@)),
        decreases ids@.len() - j,
    {
        let ghost before = texts(ids@).subrange(0, j as int);
        let ghost after = texts(ids@).subrange(0, j + 1);
        assert(after.drop_last() == before);
        assert(after.last() == ids@[j as int]@);
        let ghost dv0 = devices_view(devices@);
        if failure.is_none() {
            match parse_u32_checked(ids[j].as_str()) {
                Err(e) => {
                    failure = Some(e);
                },
                Ok(id) => {
                    let path = backend_instance_path(domid_text, ids[j].as_str());
                    devices.push((domid, id, path));
                    seen.push(domid);
                    assert(devices_view(devices@) == dv0.push((domid, id, path@)));
                    assert(seen@ == device_domains(devices_view(devices@)));
                },
            }
        }
        j = j + 1;
    }
    assert(texts(ids@).subrange(0, ids@.len() as int) == texts(ids@));
    failure
}

/// The rescan of the 9pfs backend root: `listing` holds each listed domain
/// name with the names of its devices, and `known` the domains that have a
/// backend. Names are read in order; the first that is not a number ends
/// the rescan with its parse error, after the devices listed before it.
pub fn rescan_plan(known: &Vec<u32>, listing: &Vec<(String, Vec<String>)>) -> (p: RescanPlan)
    ensures
        devices_view(p.devices@) == rescan_devices(listing_view(listing@)).0,
        match rescan_devices(listing_view(listing@)).1 {
            Some(e) => p.retire == Err::<Vec<u32>, Fs9pError>(Fs9pError::NameInvalid(e)),
            None => p.retire matches Ok(g) && g@ == known@.filter(
                |d: u32| !device_domains(rescan_devices(listing_view(listing@)).0).contains(d),
            ),
        },
{
    let mut devices: Vec<(u32, u32, String)> = Vec::new();
    let mut seen: Vec<u32> = Vec::new();
    let mut failure: Option<IntParseError> = None;
    let mut i: usize = 0;
    assert(devices_view(devices@) == Seq::<(u32, u32, Seq<char>)>::empty());
    while i < listing.len()
        invariant
            i <= listing@.len(),
            devices_view(devices@) == rescan_devices(
                listing_view(listing@).subrange(0, i as int),
            ).0,
            failure == rescan_devices(listing_view(listing@).subrange(0, i as int)).1,
            seen@ == device_domains(devices_view(devices@)),
        decreases listing@.len() - i,
    {
        let ghost before = listing_view(listing@).subrange(0, i as int);
        let ghost after = listing_view(listing@).subrange(0, i + 1);
        assert(after.drop_last() == before);
        assert(after.last() == (listing@[i as int].0@, texts(listing@[i as int].1@)));
        if failure.is_none() {
            let domid_text = listing[i].0.as_str();
            match parse_u32_checked(domid_text) {
                Err(e) => {
                    failure = Some(e);
                },
                Ok(d) => {
                    failure = add_devices(d, domid_text, &listing[i].1, &mut devices, &mut seen);
                },
            }
        }
        i = i + 1;
    }
    assert(listing_view(listing@).subrange(0, listing@.len() as int) == listing_view(listing@));
    let retire = match failure {
        Some(e) => Err(Fs9pError::NameInvalid(e)),
        None => Ok(stale_backends(known, &seen)),
    };
    RescanPlan { devices, retire }
}

} // verus!
