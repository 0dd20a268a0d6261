use krata::text::IntParseError;
use krata::fs9p::Fs9pError;
use krata::fs9p_lifecycle::{BackendAction, BackendEvent, BackendPhase, BackendSession};

const F: &str = "/local/domain/5/device/9pfs/0";
const B: &str = "/local/domain/0/backend/9pfs/5/0";

fn value(s: &str) -> BackendEvent {
    BackendEvent::Value(Some(String::from(s)))
}

fn read(key: &str) -> BackendAction {
    BackendAction::Read(String::from(key))
}

#[test]
fn backend_negotiates_rings_and_closes() {
    let mut s = BackendSession::new();
    assert_eq!(s.step(F, B, BackendEvent::WatchFired), read(&format!("{}/state", F)));
    // Not connected yet: wait for the next change.
    assert_eq!(s.step(F, B, value("1")), BackendAction::Wait);
    assert_eq!(s.step(F, B, BackendEvent::WatchFired), read(&format!("{}/state", F)));
    assert_eq!(s.step(F, B, value("3")), read(&format!("{}/num-rings", F)));
    assert_eq!(s.step(F, B, value("2")), read(&format!("{}/ring-ref0", F)));
    assert_eq!(s.step(F, B, value("77")), read(&format!("{}/event-channel-0", F)));
    assert_eq!(s.step(F, B, value("5")), read(&format!("{}/ring-ref1", F)));
    assert_eq!(s.step(F, B, value("78")), read(&format!("{}/event-channel-1", F)));
    assert_eq!(s.step(F, B, value("6")), BackendAction::StartRings(vec![(77, 5), (78, 6)]));
    assert!(matches!(s.phase(), BackendPhase::Serving));
    assert_eq!(s.step(F, B, BackendEvent::WatchFired), read(&format!("{}/state", B)));
    // A state that is not a number, or not "closing", keeps it serving.
    assert_eq!(s.step(F, B, value("x")), BackendAction::Wait);
    assert_eq!(s.step(F, B, BackendEvent::WatchFired), read(&format!("{}/state", B)));
    assert_eq!(s.step(F, B, value("5")), BackendAction::Close(format!("{}/state", B)));
    assert!(matches!(s.phase(), BackendPhase::Stopped(None)));
    // Stopped stays stopped.
    assert_eq!(s.step(F, B, BackendEvent::WatchFired), BackendAction::Close(format!("{}/state", B)));
}

#[test]
fn backend_waits_for_a_usable_ring_count() {
    let mut s = BackendSession::new();
    s.step(F, B, BackendEvent::WatchFired);
    s.step(F, B, BackendEvent::Value(None));
    // A missing state reads as 0: not connected.
    assert!(matches!(s.phase(), BackendPhase::AwaitFrontend));
    s.step(F, B, BackendEvent::WatchFired);
    s.step(F, B, value("3"));
    assert_eq!(s.step(F, B, value("two")), BackendAction::Wait);
    assert!(matches!(s.phase(), BackendPhase::AwaitFrontend));
    s.step(F, B, BackendEvent::WatchFired);
    s.step(F, B, value("3"));
    assert_eq!(s.step(F, B, value("0")), BackendAction::StartRings(vec![]));
}

#[test]
fn backend_refuses_bad_configurations() {
    let start = |s: &mut BackendSession| {
        s.step(F, B, BackendEvent::WatchFired);
        s.step(F, B, value("3"));
    };
    let mut s = BackendSession::new();
    start(&mut s);
    assert_eq!(s.step(F, B, value("5")), BackendAction::Close(format!("{}/state", B)));
    assert!(matches!(s.phase(), BackendPhase::Stopped(Some(Fs9pError::MaxRingsExceeded))));

    let mut s = BackendSession::new();
    start(&mut s);
    s.step(F, B, value("2"));
    s.step(F, B, value("10"));
    s.step(F, B, value("11"));
    s.step(F, B, BackendEvent::Value(None));
    assert!(matches!(s.phase(), BackendPhase::Stopped(Some(Fs9pError::RingRefMissing(1)))));

    let mut s = BackendSession::new();
    start(&mut s);
    s.step(F, B, value("1"));
    s.step(F, B, value("-4"));
    assert!(matches!(s.phase(), BackendPhase::Stopped(Some(Fs9pError::RingRefInvalid(0)))));

    let mut s = BackendSession::new();
    start(&mut s);
    s.step(F, B, value("1"));
    s.step(F, B, value("9"));
    s.step(F, B, value("99999999999"));
    assert!(matches!(s.phase(), BackendPhase::Stopped(Some(Fs9pError::EventChannelInvalid(0)))));

    let mut s = BackendSession::new();
    s.step(F, B, BackendEvent::WatchFired);
    assert_eq!(s.step(F, B, value("?")), BackendAction::Close(format!("{}/state", B)));
    assert!(matches!(
        s.phase(),
        BackendPhase::Stopped(Some(Fs9pError::StateInvalid(IntParseError::InvalidDigit)))
    ));
    assert_eq!(
        Fs9pError::StateInvalid(IntParseError::InvalidDigit).message(),
        "?".parse::<u32>().unwrap_err().to_string()
    );
}

#[test]
fn backend_stops_when_its_watch_ends() {
    let mut s = BackendSession::new();
    assert_eq!(s.step(F, B, BackendEvent::WatchClosed), BackendAction::Close(format!("{}/state", B)));
    assert!(matches!(s.phase(), BackendPhase::Stopped(None)));
}
