use arp_presence::hub::Cadence;
use arp_presence::session::{Phase, Session, SessionAction, SessionEvent};

#[test]
fn session_lifecycle() {
    let cadence = Cadence::Periodic { interval_ms: 1000 };
    let mut s = Session::new(cadence);
    assert_eq!(s.phase, Phase::Connected);
    assert_eq!(s.step(SessionEvent::Start), SessionAction::Register { cadence });
    assert_eq!(s.phase, Phase::Streaming);
    assert_eq!(s.step(SessionEvent::Notified), SessionAction::Nothing);
    assert_eq!(s.step(SessionEvent::Registered { id: 4 }), SessionAction::Nothing);
    assert_eq!(s.subscription, Some(4));
    assert_eq!(s.step(SessionEvent::Notified), SessionAction::SendSnapshot);
    assert_eq!(s.step(SessionEvent::SendFailed), SessionAction::Unsubscribe { id: 4 });
    assert_eq!(s.phase, Phase::Closed);
    assert_eq!(s.subscription, None);
    assert_eq!(s.step(SessionEvent::InboundEnded), SessionAction::Nothing);
    assert_eq!(s.step(SessionEvent::Shutdown), SessionAction::Nothing);
    assert_eq!(s.step(SessionEvent::Notified), SessionAction::Nothing);
}

#[test]
fn inbound_end_closes_once() {
    let mut s = Session::new(Cadence::OnChange);
    s.step(SessionEvent::Start);
    s.step(SessionEvent::Registered { id: 9 });
    assert_eq!(s.step(SessionEvent::InboundEnded), SessionAction::Unsubscribe { id: 9 });
    assert_eq!(s.step(SessionEvent::SendFailed), SessionAction::Nothing);
}

#[test]
fn late_registration_is_released() {
    let mut s = Session::new(Cadence::OnChange);
    s.step(SessionEvent::Start);
    assert_eq!(s.step(SessionEvent::Shutdown), SessionAction::Nothing);
    assert_eq!(s.phase, Phase::Closed);
    assert_eq!(s.step(SessionEvent::Registered { id: 2 }), SessionAction::Unsubscribe { id: 2 });
}

#[test]
fn refused_registration_closes() {
    let mut s = Session::new(Cadence::OnChange);
    s.step(SessionEvent::Start);
    assert_eq!(s.step(SessionEvent::RegistrationRefused), SessionAction::Nothing);
    assert_eq!(s.phase, Phase::Closed);
}

#[test]
fn close_before_start() {
    let mut s = Session::new(Cadence::OnChange);
    assert_eq!(s.step(SessionEvent::InboundEnded), SessionAction::Nothing);
    assert_eq!(s.phase, Phase::Closed);
    assert_eq!(s.step(SessionEvent::Start), SessionAction::Nothing);
}
