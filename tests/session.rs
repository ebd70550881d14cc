use ndp_control::manager::{ManagerError, SessionManager};
use ndp_control::message::ControlMessage;
use ndp_control::negotiation::negotiate_codec;
use ndp_control::session::{Action, Capabilities, EndReason, Event, Phase, Role, Session, Timing};

fn timing() -> Timing {
    Timing { ping_interval: 10, liveness_timeout: 30, handshake_timeout: 50 }
}

fn caps(codecs: &[&str], token: Option<&str>) -> Capabilities {
    Capabilities {
        version: "1".to_string(),
        codecs: codecs.iter().map(|c| c.to_string()).collect(),
        max_packet_size: 1400,
        token: token.map(|t| t.to_string()),
        media_port: 5510,
    }
}

fn sent(acts: &[Action]) -> ControlMessage {
    match &acts[0] {
        Action::Send(m) => m.clone(),
        other => panic!("expected a send, got {:?}", other),
    }
}

fn has_established(acts: &[Action]) -> bool {
    acts.iter().any(|a| matches!(a, Action::Established { .. }))
}

fn pair(ic: Capabilities, rc: Capabilities) -> (Session, Session, Vec<Action>, Vec<Action>) {
    let mut i = Session::new(Role::Initiator, ic, timing(), String::new());
    let mut r = Session::new(Role::Responder, rc, timing(), "s-1".to_string());
    let hello = i.step(Event::ChannelReady { now: 0 });
    assert!(r.step(Event::ChannelReady { now: 0 }).is_empty());
    let reply = r.step(Event::Received { msg: sent(&hello), now: 1 });
    let ia = i.step(Event::Received { msg: sent(&reply), now: 2 });
    (i, r, ia, reply)
}

fn active_initiator() -> Session {
    let (i, _, _, _) = pair(caps(&["A"], None), caps(&["A"], None));
    assert_eq!(i.phase, Phase::Active);
    i
}

#[test]
fn handshake_picks_initiator_preference() {
    let (i, r, ia, ra) = pair(caps(&["A", "B"], None), caps(&["B", "C"], None));
    assert_eq!(i.phase, Phase::Active);
    assert_eq!(r.phase, Phase::Active);
    assert_eq!(i.codec.as_deref(), Some("B"));
    assert_eq!(r.codec.as_deref(), Some("B"));
    assert_eq!(i.session_id.as_deref(), Some("s-1"));
    assert_eq!(i.session_id, r.session_id);
    assert!(has_established(&ia));
    assert!(has_established(&ra));
    assert_eq!(r.peer.as_ref().map(|h| h.max_packet_size), Some(1400));
    match &ia[0] {
        Action::Established { session_id, codec, port } => {
            assert_eq!(session_id, "s-1");
            assert_eq!(codec, "B");
            assert_eq!(*port, 5510);
        }
        _ => panic!("expected established"),
    }
}

#[test]
fn handshake_without_common_codec() {
    let (i, mut r, ia, ra) = pair(caps(&["A"], None), caps(&["B"], None));
    assert!(matches!(sent(&ra), ControlMessage::Bye { .. }));
    assert_eq!(r.phase, Phase::Closing);
    let end = r.step(Event::ByeSent);
    assert_eq!(r.phase, Phase::Closed);
    assert!(matches!(end[0], Action::Ended(EndReason::NegotiationFailure)));
    assert_eq!(i.phase, Phase::Closed);
    assert!(matches!(ia[0], Action::Ended(EndReason::PeerBye)));
    assert!(!has_established(&ia) && !has_established(&ra) && !has_established(&end));
    assert!(i.session_id.is_none());
}

#[test]
fn wrong_token_is_refused() {
    let (i, r, _, ra) = pair(caps(&["A"], Some("x")), caps(&["A"], Some("y")));
    match sent(&ra) {
        ControlMessage::Bye { reason } => assert_eq!(reason, "invalid token"),
        _ => panic!("expected bye"),
    }
    assert_eq!(r.phase, Phase::Closing);
    assert_eq!(i.phase, Phase::Closed);
}

#[test]
fn matching_token_is_accepted() {
    let (i, r, _, _) = pair(caps(&["A"], Some("x")), caps(&["A"], Some("x")));
    assert_eq!(i.phase, Phase::Active);
    assert_eq!(r.phase, Phase::Active);
}

#[test]
fn liveness_timeout_closes_once() {
    let mut s = active_initiator();
    let ping = s.step(Event::Tick { now: 12 });
    assert!(matches!(sent(&ping), ControlMessage::Ping { timestamp: 12 }));
    assert!(s.step(Event::Tick { now: 21 }).is_empty());
    let again = s.step(Event::Tick { now: 22 });
    assert!(matches!(sent(&again), ControlMessage::Ping { timestamp: 22 }));
    assert_eq!(s.outstanding, Some(12));
    assert!(s.step(Event::Tick { now: 42 }).len() == 1);
    let bye = s.step(Event::Tick { now: 43 });
    match sent(&bye) {
        ControlMessage::Bye { reason } => assert_eq!(reason, "liveness timeout"),
        _ => panic!("expected bye"),
    }
    let end = s.step(Event::ByeSent);
    assert_eq!(s.phase, Phase::Closed);
    assert_eq!(end.len(), 1);
    assert!(matches!(end[0], Action::Ended(EndReason::LivenessTimeout)));
    assert!(s.step(Event::Tick { now: 100 }).is_empty());
    assert!(s.step(Event::TransportFailed).is_empty());
}

#[test]
fn pong_clears_outstanding_ping() {
    let mut s = active_initiator();
    s.step(Event::Tick { now: 12 });
    assert!(s.step(Event::Received { msg: ControlMessage::Pong { timestamp: 12 }, now: 13 }).is_empty());
    assert_eq!(s.outstanding, None);
    assert!(s.step(Event::Tick { now: 100 }).len() == 1);
    assert_eq!(s.phase, Phase::Active);
}

#[test]
fn ping_is_echoed() {
    let mut s = active_initiator();
    let acts = s.step(Event::Received { msg: ControlMessage::Ping { timestamp: 77 }, now: 5 });
    assert!(matches!(sent(&acts), ControlMessage::Pong { timestamp: 77 }));
}

#[test]
fn handshake_timeout() {
    let mut s = Session::new(Role::Responder, caps(&["A"], None), timing(), "s".to_string());
    s.step(Event::ChannelReady { now: 100 });
    assert!(s.step(Event::Tick { now: 150 }).is_empty());
    let end = s.step(Event::Tick { now: 151 });
    assert!(matches!(end[0], Action::Ended(EndReason::HandshakeTimeout)));
    assert_eq!(s.phase, Phase::Closed);
}

#[test]
fn unrecognized_is_tolerated_when_active() {
    let mut s = active_initiator();
    assert!(s.step(Event::Unrecognized).is_empty());
    assert_eq!(s.phase, Phase::Active);
    let mut r = Session::new(Role::Responder, caps(&["A"], None), timing(), "s".to_string());
    r.step(Event::ChannelReady { now: 0 });
    let bye = r.step(Event::Unrecognized);
    assert!(matches!(sent(&bye), ControlMessage::Bye { .. }));
    assert_eq!(r.phase, Phase::Closing);
    let end = r.step(Event::ByeSent);
    assert_eq!(end.len(), 1);
    assert!(matches!(end[0], Action::Ended(EndReason::ProtocolViolation)));
    assert_eq!(r.phase, Phase::Closed);
    assert!(r.session_id.is_none());
}

#[test]
fn unexpected_message_before_active_sends_bye() {
    let mut i = Session::new(Role::Initiator, caps(&["A"], None), timing(), String::new());
    i.step(Event::ChannelReady { now: 0 });
    let bye = i.step(Event::Received { msg: ControlMessage::Ping { timestamp: 1 }, now: 1 });
    assert!(matches!(sent(&bye), ControlMessage::Bye { .. }));
    assert_eq!(i.phase, Phase::Closing);
    let end = i.step(Event::TransportFailed);
    assert!(matches!(end[0], Action::Ended(EndReason::ProtocolViolation)));
    let mut m = Session::new(Role::Initiator, caps(&["A"], None), timing(), String::new());
    m.step(Event::ChannelReady { now: 0 });
    assert!(matches!(sent(&m.step(Event::Malformed)), ControlMessage::Bye { .. }));
}

#[test]
fn welcome_with_unoffered_codec_is_a_violation() {
    let mut i = Session::new(Role::Initiator, caps(&["A"], None), timing(), String::new());
    i.step(Event::ChannelReady { now: 0 });
    let w = ndp_control::message::Welcome { session_id: "x".to_string(), codec: "Z".to_string(), port: 1 };
    let bye = i.step(Event::Received { msg: ControlMessage::Welcome(w), now: 1 });
    assert!(matches!(sent(&bye), ControlMessage::Bye { .. }));
    assert!(i.session_id.is_none());
}

#[test]
fn pong_for_latest_ping_clears_all() {
    let mut s = active_initiator();
    s.step(Event::Tick { now: 12 });
    s.step(Event::Tick { now: 22 });
    assert!(s.step(Event::Received { msg: ControlMessage::Pong { timestamp: 99 }, now: 23 }).is_empty());
    assert_eq!(s.outstanding, Some(12));
    s.step(Event::Received { msg: ControlMessage::Pong { timestamp: 22 }, now: 24 });
    assert_eq!(s.outstanding, None);
    assert!(s.step(Event::Tick { now: 50 }).len() == 1);
    assert_eq!(s.phase, Phase::Active);
}

#[test]
fn unexpected_hello_when_active() {
    let mut s = active_initiator();
    let acts = s.step(Event::Received {
        msg: ControlMessage::Bye { reason: "x".to_string() },
        now: 1,
    });
    assert!(matches!(acts[0], Action::Ended(EndReason::PeerBye)));
    let mut s = active_initiator();
    let hello = ControlMessage::Hello(ndp_control::message::Hello {
        version: "1".to_string(),
        supported_codecs: vec![],
        max_packet_size: 1,
        token: None,
    });
    let acts = s.step(Event::Received { msg: hello, now: 1 });
    match sent(&acts) {
        ControlMessage::Bye { reason } => assert_eq!(reason, "unexpected message in active session"),
        _ => panic!("expected bye"),
    }
    assert_eq!(s.phase, Phase::Closing);
}

#[test]
fn close_twice_sends_one_bye() {
    let mut m = SessionManager::new();
    let h = m.start_outbound(caps(&["A"], None), timing()).unwrap();
    m.handle_event(h, Event::ChannelReady { now: 0 }).unwrap();
    let first = m.close(h, "user quit".to_string()).unwrap();
    assert!(matches!(sent(&first), ControlMessage::Bye { .. }));
    assert!(m.close(h, "again".to_string()).unwrap().is_empty());
    let end = m.handle_event(h, Event::ByeSent).unwrap();
    assert!(matches!(end[0], Action::Ended(EndReason::LocalShutdown)));
    assert!(m.close(h, "later".to_string()).unwrap().is_empty());
    assert_eq!(m.phase(h), Some(Phase::Closed));
    assert_eq!(m.remove(h), Ok(()));
    assert_eq!(m.len(), 0);
}

#[test]
fn manager_refuses_duplicate_and_empty_ids() {
    let mut m = SessionManager::new();
    let a = m.accept_inbound(caps(&["A"], None), timing(), "id".to_string()).unwrap();
    assert_eq!(m.accept_inbound(caps(&["A"], None), timing(), "id".to_string()), Err(ManagerError::IdInUse));
    assert_eq!(m.accept_inbound(caps(&["A"], None), timing(), String::new()), Err(ManagerError::EmptyId));
    assert_eq!(m.remove(a), Err(ManagerError::StillOpen));
    m.handle_event(a, Event::TransportFailed).unwrap();
    let b = m.accept_inbound(caps(&["A"], None), timing(), "id".to_string()).unwrap();
    assert_ne!(a, b);
    assert_eq!(m.phase(99), None);
    let i = m.start_outbound(caps(&["A"], None), timing()).unwrap();
    m.handle_event(i, Event::ChannelReady { now: 0 }).unwrap();
    let w = ndp_control::message::Welcome { session_id: "peer-7".to_string(), codec: "A".to_string(), port: 1 };
    m.handle_event(i, Event::Received { msg: ControlMessage::Welcome(w), now: 1 }).unwrap();
    assert_eq!(m.phase(i), Some(Phase::Active));
    assert_eq!(m.accept_inbound(caps(&["A"], None), timing(), "peer-7".to_string()), Err(ManagerError::IdInUse));
    assert!(matches!(m.handle_event(99, Event::ByeSent), Err(ManagerError::UnknownHandle)));
}

#[test]
fn negotiation_order() {
    let v = |xs: &[&str]| xs.iter().map(|x| x.to_string()).collect::<Vec<_>>();
    assert_eq!(negotiate_codec(&v(&["A", "B"]), &v(&["B", "C"])), Some("B".to_string()));
    assert_eq!(negotiate_codec(&v(&["C", "B"]), &v(&["B", "C"])), Some("C".to_string()));
    assert_eq!(negotiate_codec(&v(&["A"]), &v(&["B"])), None);
    assert_eq!(negotiate_codec(&v(&[]), &v(&["B"])), None);
}

#[test]
fn welcome_with_id_in_use_is_refused() {
    let mut m = SessionManager::new();
    let r = m.accept_inbound(caps(&["A"], None), timing(), "dup".to_string()).unwrap();
    let i = m.start_outbound(caps(&["A"], None), timing()).unwrap();
    m.handle_event(i, Event::ChannelReady { now: 0 }).unwrap();
    let w = ndp_control::message::Welcome { session_id: "dup".to_string(), codec: "A".to_string(), port: 1 };
    let acts = m.handle_event(i, Event::Received { msg: ControlMessage::Welcome(w), now: 1 }).unwrap();
    assert!(matches!(sent(&acts), ControlMessage::Bye { .. }));
    assert_eq!(m.phase(i), Some(Phase::Closing));
    assert_eq!(m.phase(r), Some(Phase::Connecting));
}
