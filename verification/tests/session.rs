use wsaas::session::{authorization_or_none, Phase, Session, SessionAction, SessionEvent};

fn session() -> Session {
    Session::new("id".to_string(), 10)
}

#[test]
fn authorized_connection_life() {
    let mut s = session();
    assert_eq!(s.step(SessionEvent::Authorized(true)), SessionAction::AcceptUpgrade);
    assert_eq!(s.phase(), Phase::Upgrading);
    assert_eq!(s.step(SessionEvent::Established), SessionAction::Register);
    assert_eq!(s.phase(), Phase::Open);
    assert_eq!(s.step(SessionEvent::Incoming(100)), SessionAction::Forward);
    assert_eq!(s.step(SessionEvent::Incoming(4 * 32768 - 1)), SessionAction::Forward);
    assert_eq!(s.step(SessionEvent::Incoming(4 * 32768)), SessionAction::RefuseTooLong);
    assert_eq!(s.phase(), Phase::Open);
    assert_eq!(s.step(SessionEvent::Ended), SessionAction::Unregister);
    assert_eq!(s.phase(), Phase::Closed);
    assert_eq!(s.id().as_str(), "id");
    assert_eq!(s.timeout(), 10);
}

#[test]
fn refused_connection_is_never_registered() {
    let mut s = session();
    assert_eq!(s.step(SessionEvent::Authorized(false)), SessionAction::RefuseUpgrade);
    assert_eq!(s.phase(), Phase::Refused);
    assert_eq!(s.step(SessionEvent::Incoming(1)), SessionAction::Ignore);
    assert_eq!(s.step(SessionEvent::Established), SessionAction::Drop);
    assert_eq!(s.phase(), Phase::Closed);
    assert_eq!(s.step(SessionEvent::Ended), SessionAction::Ignore);
    assert_eq!(s.step(SessionEvent::Established), SessionAction::Ignore);
}

#[test]
fn events_out_of_order_are_ignored() {
    let mut s = session();
    assert_eq!(s.step(SessionEvent::Incoming(1)), SessionAction::Ignore);
    assert_eq!(s.step(SessionEvent::Established), SessionAction::Ignore);
    assert_eq!(s.step(SessionEvent::Ended), SessionAction::Ignore);
    assert_eq!(s.phase(), Phase::Handshake);
    s.step(SessionEvent::Authorized(true));
    assert_eq!(s.step(SessionEvent::Authorized(true)), SessionAction::Ignore);
    assert_eq!(s.step(SessionEvent::Incoming(1)), SessionAction::Ignore);
}

#[test]
fn closed_connection_ignores_everything() {
    let mut s = session();
    s.step(SessionEvent::Authorized(true));
    s.step(SessionEvent::Established);
    s.step(SessionEvent::Ended);
    for e in [
        SessionEvent::Authorized(true),
        SessionEvent::Established,
        SessionEvent::Incoming(3),
        SessionEvent::Ended,
    ] {
        assert_eq!(s.step(e), SessionAction::Ignore);
        assert_eq!(s.phase(), Phase::Closed);
    }
}

#[test]
fn register_and_unregister_happen_once() {
    let mut s = session();
    let events = [
        SessionEvent::Authorized(true),
        SessionEvent::Established,
        SessionEvent::Established,
        SessionEvent::Incoming(5),
        SessionEvent::Ended,
        SessionEvent::Ended,
        SessionEvent::Incoming(5),
    ];
    let actions: Vec<SessionAction> = events.iter().map(|e| s.step(*e)).collect();
    assert_eq!(actions.iter().filter(|a| **a == SessionAction::Register).count(), 1);
    assert_eq!(actions.iter().filter(|a| **a == SessionAction::Unregister).count(), 1);
    assert_eq!(actions.iter().filter(|a| **a == SessionAction::Forward).count(), 1);
}

#[test]
fn authorization_defaults_to_none() {
    assert_eq!(authorization_or_none(None), "none");
    assert_eq!(authorization_or_none(Some("Bearer x".to_string())), "Bearer x");
}
