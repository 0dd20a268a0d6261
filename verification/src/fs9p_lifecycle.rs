//! The life of one 9p backend as a state machine: it waits for its frontend
//! to connect, reads the frontend's ring configuration one entry at a time,
//! serves the rings, and stops when its own state asks it to close or when
//! a watch ends. Each step takes what the store reported and tells the
//! caller what to do next.
use vstd::prelude::*;

use crate::fs9p::{
    backend_closing, event_channel_key, frontend_connected, ring_count, ring_ref_key, state_is,
    Fs9pError, RingCount, MAX_RINGS,
};
use crate::text::{
    concat_str, decimal, digits_value, parse_u32, parse_u64, parse_unsigned, unsigned_digits,
    IntParseError,
};

verus! {

/// Where a 9p backend is in its life.
#[derive(Debug, Clone)]
pub enum BackendPhase {
    /// Waiting for the frontend's state entry to change.
    AwaitFrontend,
    /// The frontend's state entry was asked for.
    FrontendState,
    /// The frontend's `num-rings` entry was asked for.
    NumRings,
    /// The grant reference of the next ring was asked for; `rings` holds the
    /// rings read so far, of `count`.
    RingRef { count: u32, rings: Vec<(u64, u32)> },
    /// The event channel of the next ring was asked for; its grant reference
    /// is `ring_ref`.
    EventChannel { count: u32, rings: Vec<(u64, u32)>, ring_ref: u64 },
    /// The rings are served; waiting for the backend's own state to change.
    Serving,
    /// The backend's own state entry was asked for.
    SelfState,
    /// Stopped, with the error that stopped it if any.
    Stopped(Option<Fs9pError>),
}

/// A phase, with the rings read so far as a sequence.
pub ghost enum PhaseView {
    AwaitFrontend,
    FrontendState,
    NumRings,
    RingRef { count: u32, rings: Seq<(u64, u32)> },
    EventChannel { count: u32, rings: Seq<(u64, u32)>, ring_ref: u64 },
    Serving,
    SelfState,
    Stopped(Option<Fs9pError>),
}

impl View for BackendPhase {
    type V = PhaseView;

    open spec fn view(&self) -> PhaseView {
        match self {
            BackendPhase::AwaitFrontend => PhaseView::AwaitFrontend,
            BackendPhase::FrontendState => PhaseView::FrontendState,
            BackendPhase::NumRings => PhaseView::NumRings,
            BackendPhase::RingRef { count, rings } => PhaseView::RingRef {
                count: *count,
                rings: rings@,
            },
            BackendPhase::EventChannel { count, rings, ring_ref } => PhaseView::EventChannel {
                count: *count,
                rings: rings@,
                ring_ref: *ring_ref,
            },
            BackendPhase::Serving => PhaseView::Serving,
            BackendPhase::SelfState => PhaseView::SelfState,
            BackendPhase::Stopped(e) => PhaseView::Stopped(*e),
        }
    }
}

/// What the store reported to the backend.
#[derive(Debug, Clone)]
pub enum BackendEvent {
    /// The watched state entry changed.
    WatchFired,
    /// The watch ended.
    WatchClosed,
    /// The entry that was asked for, if it exists.
    Value(Option<String>),
}

pub ghost enum EventView {
    WatchFired,
    WatchClosed,
    Value(Option<Seq<char>>),
}

impl View for BackendEvent {
    type V = EventView;

    open spec fn view(&self) -> EventView {
        match self {
            BackendEvent::WatchFired => EventView::WatchFired,
            BackendEvent::WatchClosed => EventView::WatchClosed,
            BackendEvent::Value(None) => EventView::Value(None),
            BackendEvent::Value(Some(s)) => EventView::Value(Some(s@)),
        }
    }
}

/// What the backend asks of its caller.
#[derive(Debug, Clone, PartialEq, Eq)]
pub enum BackendAction {
    /// Wait for the watched entry to change.
    Wait,
    /// Read this entry and report it.
    Read(String),
    /// Serve these rings (grant reference and event channel each), watch
    /// the backend's own state entry and set it to `4` (connected).
    StartRings(Vec<(u64, u32)>),
    /// Stop serving and set the backend's state entry, this key, to `6`
    /// (closed).
    Close(String),
}

pub ghost enum ActionView {
    Wait,
    Read(Seq<char>),
    StartRings(Seq<(u64, u32)>),
    Close(Seq<char>),
}

impl View for BackendAction {
    type V = ActionView;

    open spec fn view(&self) -> ActionView {
        match self {
            BackendAction::Wait => ActionView::Wait,
            BackendAction::Read(k) => ActionView::Read(k@),
            BackendAction::StartRings(r) => ActionView::StartRings(r@),
            BackendAction::Close(k) => ActionView::Close(k@),
        }
    }
}

/// What a phase waits for: nothing to do but wait, an entry to read, or
/// the close.
pub open spec fn pending(frontend: Seq<char>, backend: Seq<char>, p: PhaseView) -> ActionView {
    match p {
        PhaseView::AwaitFrontend => ActionView::Wait,
        PhaseView::FrontendState => ActionView::Read(frontend + "/state"@),
        PhaseView::NumRings => ActionView::Read(frontend + "/num-rings"@),
        PhaseView::RingRef { rings, .. } => ActionView::Read(
            frontend + "/ring-ref"@ + decimal(rings.len()),
        ),
        PhaseView::EventChannel { rings, .. } => ActionView::Read(
            frontend + "/event-channel-"@ + decimal(rings.len()),
        ),
        PhaseView::Serving => ActionView::Wait,
        PhaseView::SelfState => ActionView::Read(backend + "/state"@),
        PhaseView::Stopped(_) => ActionView::Close(backend + "/state"@),
    }
}

/// The phase after the event. An event that the phase does not wait for
/// leaves it as it is.
pub open spec fn next_phase(p: PhaseView, e: EventView) -> PhaseView {
    match p {
        PhaseView::AwaitFrontend => match e {
            EventView::WatchFired => PhaseView::FrontendState,
            EventView::WatchClosed => PhaseView::Stopped(None),
            EventView::Value(_) => p,
        },
        PhaseView::FrontendState => match e {
            EventView::Value(v) => match state_is(v, 3) {
                Err(why) => PhaseView::Stopped(Some(Fs9pError::StateInvalid(why))),
                Ok(connected) => if connected {
                    PhaseView::NumRings
                } else {
                    PhaseView::AwaitFrontend
                },
            },
            _ => p,
        },
        PhaseView::NumRings => match e {
            EventView::Value(v) => match v {
                None => PhaseView::AwaitFrontend,
                Some(t) => match parse_unsigned(t, u32::MAX as nat) {
                    None => PhaseView::AwaitFrontend,
                    Some(n) => if n > MAX_RINGS {
                        PhaseView::Stopped(Some(Fs9pError::MaxRingsExceeded))
                    } else if n == 0 {
                        PhaseView::Serving
                    } else {
                        PhaseView::RingRef { count: n as u32, rings: Seq::empty() }
                    },
                },
            },
            _ => p,
        },
        PhaseView::RingRef { count, rings } => match e {
            EventView::Value(v) => match v {
                None => PhaseView::Stopped(Some(Fs9pError::RingRefMissing(rings.len() as u32))),
                Some(t) => match parse_unsigned(t, u64::MAX as nat) {
                    None => PhaseView::Stopped(
                        Some(Fs9pError::RingRefInvalid(rings.len() as u32)),
                    ),
                    Some(r) => PhaseView::EventChannel { count, rings, ring_ref: r as u64 },
                },
            },
            _ => p,
        },
        PhaseView::EventChannel { count, rings, ring_ref } => match e {
            EventView::Value(v) => match v {
                None => PhaseView::Stopped(
                    Some(Fs9pError::EventChannelMissing(rings.len() as u32)),
                ),
                Some(t) => match parse_unsigned(t, u32::MAX as nat) {
                    None => PhaseView::Stopped(
                        Some(Fs9pError::EventChannelInvalid(rings.len() as u32)),
                    ),
                    Some(c) => if rings.len() + 1 == count {
                        PhaseView::Serving
                    } else {
                        PhaseView::RingRef { count, rings: rings.push((ring_ref, c as u32)) }
                    },
                },
            },
            _ => p,
        },
        PhaseView::Serving => match e {
            EventView::WatchFired => PhaseView::SelfState,
            EventView::WatchClosed => PhaseView::Stopped(None),
            EventView::Value(_) => p,
        },
        PhaseView::SelfState => match e {
            EventView::Value(v) => if state_is(v, 5) == Ok::<bool, IntParseError>(true) {
                PhaseView::Stopped(None)
            } else {
                PhaseView::Serving
            },
            _ => p,
        },
        PhaseView::Stopped(_) => p,
    }
}

/// The rings that the event completes: all of them once the last event
/// channel is read, none when the frontend asks for no ring.
pub open spec fn completed_rings(p: PhaseView, e: EventView) -> Seq<(u64, u32)> {
    match (p, e) {
        (PhaseView::EventChannel { rings, ring_ref, .. }, EventView::Value(Some(t))) => rings.push(
            (ring_ref, parse_unsigned(t, u32::MAX as nat).unwrap() as u32),
        ),
        _ => Seq::empty(),
    }
}

/// What the backend asks for after the event: the rings to start when the
/// event completes the configuration, else what the next phase waits for.
pub open spec fn next_action(frontend: Seq<char>, backend: Seq<char>, p: PhaseView, e: EventView) -> ActionView {
    let q = next_phase(p, e);
    if q is Serving && (p is NumRings || p is EventChannel) {
        ActionView::StartRings(completed_rings(p, e))
    } else {
        pending(frontend, backend, q)
    }
}

/// A phase that reads rings has read fewer than it was told, and was told
/// at most `MAX_RINGS`.
pub open spec fn phase_ok(p: PhaseView) -> bool {
    match p {
        PhaseView::RingRef { count, rings } => rings.len() < count <= MAX_RINGS,
        PhaseView::EventChannel { count, rings, .. } => rings.len() < count <= MAX_RINGS,
        _ => true,
    }
}

fn as_text(v: &Option<String>) -> (r: Option<&str>)
    ensures
        match (r, v) {
            (Some(a), Some(b)) => a@ == b@,
            (None, None) => true,
            _ => false,
        },
{
    match v {
        Some(s) => Some(s.as_str()),
        None => None,
    }
}

fn pending_action(frontend: &str, backend: &str, p: &BackendPhase) -> (a: BackendAction)
    requires
        phase_ok(p@),
    ensures
        a@ == pending(frontend@, backend@, p@),
{
    match p {
        BackendPhase::AwaitFrontend => BackendAction::Wait,
        BackendPhase::FrontendState => BackendAction::Read(concat_str(frontend, "/state")),
        BackendPhase::NumRings => BackendAction::Read(concat_str(frontend, "/num-rings")),
        BackendPhase::RingRef { rings, .. } => BackendAction::Read(
            ring_ref_key(frontend, rings.len() as u32),
        ),
        BackendPhase::EventChannel { rings, .. } => BackendAction::Read(
            event_channel_key(frontend, rings.len() as u32),
        ),
        BackendPhase::Serving => BackendAction::Wait,
        BackendPhase::SelfState => BackendAction::Read(concat_str(backend, "/state")),
        BackendPhase::Stopped(_) => BackendAction::Close(concat_str(backend, "/state")),
    }
}

fn advance(frontend: &str, backend: &str, p: BackendPhase, e: BackendEvent) -> (r: (BackendPhase, BackendAction))
    requires
        phase_ok(p@),
    ensures
        r.0@ == next_phase(p@, e@),
        r.1@ == next_action(frontend@, backend@, p@, e@),
        phase_ok(r.0@),
{
    let ghost p0 = p@;
    let ghost e0 = e@;
    let q = match p {
        BackendPhase::AwaitFrontend => match e {
            BackendEvent::WatchFired => BackendPhase::FrontendState,
            BackendEvent::WatchClosed => BackendPhase::Stopped(None),
            BackendEvent::Value(_) => BackendPhase::AwaitFrontend,
        },
        BackendPhase::FrontendState => match e {
            BackendEvent::Value(v) => match frontend_connected(as_text(&v)) {
                Err(why) => BackendPhase::Stopped(Some(Fs9pError::StateInvalid(why))),
                Ok(connected) => if connected {
                    BackendPhase::NumRings
                } else {
                    BackendPhase::AwaitFrontend
                },
            },
            _ => BackendPhase::FrontendState,
        },
        BackendPhase::NumRings => match e {
            BackendEvent::Value(v) => match ring_count(as_text(&v)) {
                RingCount::Wait => BackendPhase::AwaitFrontend,
                RingCount::TooMany => BackendPhase::Stopped(Some(Fs9pError::MaxRingsExceeded)),
                RingCount::Rings(n) => if n == 0 {
                    let none: Vec<(u64, u32)> = Vec::new();
                    assert(completed_rings(p0, e0) == none@);
                    return (BackendPhase::Serving, BackendAction::StartRings(none));
                } else {
                    BackendPhase::RingRef { count: n, rings: Vec::new() }
                },
            },
            _ => BackendPhase::NumRings,
        },
        BackendPhase::RingRef { count, rings } => match e {
            BackendEvent::Value(v) => {
                let i = rings.len() as u32;
                match v {
                    None => BackendPhase::Stopped(Some(Fs9pError::RingRefMissing(i))),
                    Some(t) => match parse_u64(t.as_str()) {
                        None => BackendPhase::Stopped(Some(Fs9pError::RingRefInvalid(i))),
                        Some(r) => BackendPhase::EventChannel { count, rings, ring_ref: r },
                    },
                }
            },
            _ => BackendPhase::RingRef { count, rings },
        },
        BackendPhase::EventChannel { count, rings, ring_ref } => match e {
            BackendEvent::Value(v) => {
                let i = rings.len() as u32;
                match v {
                    None => BackendPhase::Stopped(Some(Fs9pError::EventChannelMissing(i))),
                    Some(t) => match parse_u32(t.as_str()) {
                        None => BackendPhase::Stopped(Some(Fs9pError::EventChannelInvalid(i))),
                        Some(c) => {
                            let mut rings = rings;
                            rings.push((ring_ref, c));
                            if rings.len() as u32 == count {
                                assert(completed_rings(p0, e0) == rings@);
                                return (BackendPhase::Serving, BackendAction::StartRings(rings));
                            } else {
                                BackendPhase::RingRef { count, rings }
                            }
                        },
                    },
                }
            },
            _ => BackendPhase::EventChannel { count, rings, ring_ref },
        },
        BackendPhase::Serving => match e {
            BackendEvent::WatchFired => BackendPhase::SelfState,
            BackendEvent::WatchClosed => BackendPhase::Stopped(None),
            BackendEvent::Value(_) => BackendPhase::Serving,
        },
        BackendPhase::SelfState => match e {
            BackendEvent::Value(v) => match backend_closing(as_text(&v)) {
                Ok(closing) => if closing {
                    BackendPhase::Stopped(None)
                } else {
                    BackendPhase::Serving
                },
                Err(_) => BackendPhase::Serving,
            },
            _ => BackendPhase::SelfState,
        },
        BackendPhase::Stopped(x) => BackendPhase::Stopped(x),
    };
    assert(q@ == next_phase(p0, e0));
    let a = pending_action(frontend, backend, &q);
    (q, a)
}

/// One 9p backend's progress through its life.
pub struct BackendSession {
    phase: BackendPhase,
}

impl View for BackendSession {
    type V = PhaseView;

    closed spec fn view(&self) -> PhaseView {
        self.phase@
    }
}

impl BackendSession {
    #[verifier::type_invariant]
    closed spec fn consistent(self) -> bool {
        phase_ok(self.phase@)
    }

    /// A backend that has written its initial entries and waits for its
    /// frontend.
    pub fn new() -> (s: BackendSession)
        ensures
            s@ == PhaseView::AwaitFrontend,
    {
        BackendSession { phase: BackendPhase::AwaitFrontend }
    }

    /// The phase the backend is in.
    pub fn phase(&self) -> (p: &BackendPhase)
        ensures
            p@ == self@,
    {
        &self.phase
    }

    /// Takes in what the store reported and says what to do next.
    pub fn step(&mut self, frontend: &str, backend: &str, event: BackendEvent) -> (a: BackendAction)
        ensures
            final(self)@ == next_phase(old(self)@, event@),
            a@ == next_action(frontend@, backend@, old(self)@, event@),
    {
        proof {
            use_type_invariant(&*self);
        }
        let mut p = BackendPhase::AwaitFrontend;
        std::mem::swap(&mut p, &mut self.phase);
        let (q, a) = advance(frontend, backend, p, event);
        self.phase = q;
        a
    }
}

/// A backend never serves more rings than it offers: from a phase that is
/// consistent every step leads to a consistent phase, and the rings it
/// starts are exactly as many as the frontend announced, at most
/// `MAX_RINGS`.
pub proof fn law_rings_within_limit(frontend: Seq<char>, backend: Seq<char>, p: PhaseView, e: EventView)
    requires
        phase_ok(p),
    ensures
        phase_ok(next_phase(p, e)),
        match next_action(frontend, backend, p, e) {
            ActionView::StartRings(rs) => rs.len() <= MAX_RINGS && match p {
                PhaseView::EventChannel { count, .. } => rs.len() == count,
                _ => rs.len() == 0,
            },
            _ => true,
        },
{
}

/// Once stopped, a backend stays stopped, and all it asks for is the close.
pub proof fn law_stopped_is_final(frontend: Seq<char>, backend: Seq<char>, err: Option<Fs9pError>, e: EventView)
    ensures
        next_phase(PhaseView::Stopped(err), e) == PhaseView::Stopped(err),
        next_action(frontend, backend, PhaseView::Stopped(err), e) == ActionView::Close(
            backend + "/state"@,
        ),
{
}

/// Only a request to close stops a serving backend: when its state entry
/// changes it reads the entry; if the entry holds the number 5 it stops and
/// closes, and any other number (such as the 4 it wrote itself on
/// connecting), any text that is not a number, or a missing entry keeps it
/// serving.
pub proof fn law_serving_stops_only_on_close(frontend: Seq<char>, backend: Seq<char>, v: Option<Seq<char>>)
    ensures
        next_phase(PhaseView::Serving, EventView::WatchFired) == PhaseView::SelfState,
        next_action(frontend, backend, PhaseView::Serving, EventView::WatchFired)
            == ActionView::Read(backend + "/state"@),
        ({
            let closes = v matches Some(t) && parse_unsigned(t, u32::MAX as nat) == Some(5nat);
            let p = next_phase(PhaseView::SelfState, EventView::Value(v));
            let a = next_action(frontend, backend, PhaseView::SelfState, EventView::Value(v));
            if closes {
                p == PhaseView::Stopped(None) && a == ActionView::Close(backend + "/state"@)
            } else {
                p == PhaseView::Serving && a == ActionView::Wait
            }
        }),
{
    reveal_strlit("0");
    assert("0"@ =~= seq!['0']);
    assert(parse_unsigned("0"@, u32::MAX as nat) == Some(0nat)) by {
        assert(unsigned_digits("0"@) == "0"@);
        assert(digits_value("0"@.drop_last()) == 0);
    }
}

/// A backend goes on to read the ring configuration only when its
/// frontend's state entry holds the number 3; any other number, or a
/// missing entry, sends it back to waiting.
pub proof fn law_rings_read_only_once_connected(frontend: Seq<char>, backend: Seq<char>, v: Option<Seq<char>>)
    ensures
        ({
            let p = next_phase(PhaseView::FrontendState, EventView::Value(v));
            let a = next_action(frontend, backend, PhaseView::FrontendState, EventView::Value(v));
            match v {
                Some(t) => match parse_unsigned(t, u32::MAX as nat) {
                    Some(n) => if n == 3 {
                        p == PhaseView::NumRings && a == ActionView::Read(frontend + "/num-rings"@)
                    } else {
                        p == PhaseView::AwaitFrontend && a == ActionView::Wait
                    },
                    None => p is Stopped && a == ActionView::Close(backend + "/state"@),
                },
                None => p == PhaseView::AwaitFrontend && a == ActionView::Wait,
            }
        }),
{
    reveal_strlit("0");
    assert("0"@ =~= seq!['0']);
    assert(parse_unsigned("0"@, u32::MAX as nat) == Some(0nat)) by {
        assert(unsigned_digits("0"@) == "0"@);
        assert(digits_value("0"@.drop_last()) == 0);
    }
}

} // verus!
