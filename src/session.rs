//! The session state machine: a pure transition from state and event to the
//! next state and the actions for the caller to perform.
use vstd::prelude::*;
use crate::message::{ControlMessage, Hello, HelloModel, MessageModel, Welcome, WelcomeModel, opt_view};
use crate::negotiation::{first_common, negotiate_codec, contains_str, copy_strings};

verus! {

#[derive(Debug, Clone, Copy, PartialEq, Eq, Structural)]
pub enum Role {
    Initiator,
    Responder,
}

#[derive(Debug, Clone, Copy, PartialEq, Eq, Structural)]
pub enum Phase {
    Connecting,
    AwaitingHello,
    AwaitingWelcome,
    Active,
    Closing,
    Closed,
}

/// Why a session ended.
#[derive(Debug, Clone, Copy, PartialEq, Eq, Structural)]
pub enum EndReason {
    PeerBye,
    HandshakeTimeout,
    LivenessTimeout,
    ProtocolViolation,
    LocalShutdown,
    TransportError,
    NegotiationFailure,
}

/// Bounds on waiting, in the units of the monotonic clock the caller uses.
#[derive(Debug, Clone, Copy, PartialEq, Eq, Structural)]
pub struct Timing {
    /// Time between pings while active.
    pub ping_interval: u64,
    /// How long a ping may go unanswered.
    pub liveness_timeout: u64,
    /// How long the Hello/Welcome exchange may take.
    pub handshake_timeout: u64,
}

/// What the local side offers or requires.
#[derive(Debug, Clone)]
pub struct Capabilities {
    pub version: String,
    /// Supported codecs, most preferred first.
    pub codecs: Vec<String>,
    pub max_packet_size: u32,
    /// Initiator: the bearer token to present. Responder: the token that a
    /// Hello must carry, if any is required.
    pub token: Option<String>,
    /// Responder: the media port to bind and announce in Welcome.
    pub media_port: u16,
}

pub struct CapabilitiesModel {
    pub version: Seq<char>,
    pub codecs: Seq<Seq<char>>,
    pub max_packet_size: u32,
    pub token: Option<Seq<char>>,
    pub media_port: u16,
}

impl View for Capabilities {
    type V = CapabilitiesModel;

    open spec fn view(&self) -> CapabilitiesModel {
        CapabilitiesModel {
            version: self.version@,
            codecs: self.codecs.deep_view(),
            max_packet_size: self.max_packet_size,
            token: opt_view(self.token),
            media_port: self.media_port,
        }
    }
}

/// What happened to the session.
#[derive(Debug)]
pub enum Event {
    /// The control channel is connected.
    ChannelReady { now: u64 },
    /// A message arrived.
    Received { msg: ControlMessage, now: u64 },
    /// A frame with a discriminator that names no known message arrived.
    Unrecognized,
    /// A frame that does not decode arrived.
    Malformed,
    /// The clock advanced.
    Tick { now: u64 },
    /// The local side asks to end the session.
    Shutdown { reason: String },
    /// The Bye that the session asked to send has gone out.
    ByeSent,
    /// The channel failed or was closed underneath.
    TransportFailed,
}

pub enum EventModel {
    ChannelReady(u64),
    Received(MessageModel, u64),
    Unrecognized,
    Malformed,
    Tick(u64),
    Shutdown(Seq<char>),
    ByeSent,
    TransportFailed,
}

impl View for Event {
    type V = EventModel;

    open spec fn view(&self) -> EventModel {
        match self {
            Event::ChannelReady { now } => EventModel::ChannelReady(*now),
            Event::Received { msg, now } => EventModel::Received(msg@, *now),
            Event::Unrecognized => EventModel::Unrecognized,
            Event::Malformed => EventModel::Malformed,
            Event::Tick { now } => EventModel::Tick(*now),
            Event::Shutdown { reason } => EventModel::Shutdown(reason@),
            Event::ByeSent => EventModel::ByeSent,
            Event::TransportFailed => EventModel::TransportFailed,
        }
    }
}

/// What the caller must do.
#[derive(Debug)]
pub enum Action {
    /// Send this message on the channel.
    Send(ControlMessage),
    /// The session is active: start the media engine with these settings.
    Established { session_id: String, codec: String, port: u16 },
    /// The session is closed: stop the media engine and release the channel.
    Ended(EndReason),
}

pub enum ActionModel {
    Send(MessageModel),
    Established(Seq<char>, Seq<char>, u16),
    Ended(EndReason),
}

impl View for Action {
    type V = ActionModel;

    open spec fn view(&self) -> ActionModel {
        match self {
            Action::Send(m) => ActionModel::Send(m@),
            Action::Established { session_id, codec, port } => ActionModel::Established(
                session_id@,
                codec@,
                *port,
            ),
            Action::Ended(r) => ActionModel::Ended(*r),
        }
    }
}

pub open spec fn actions_model(v: Seq<Action>) -> Seq<ActionModel> {
    v.map_values(|a: Action| a@)
}

/// One session, in one role.
pub struct Session {
    pub role: Role,
    pub phase: Phase,
    pub caps: Capabilities,
    pub timing: Timing,
    /// Responder: the id to assign on Welcome, unique among active sessions.
    pub fresh_id: String,
    pub session_id: Option<String>,
    pub codec: Option<String>,
    pub port: u16,
    /// When the handshake began.
    pub since: u64,
    /// When the last ping went out.
    pub last_ping: u64,
    /// Timestamp of the ping still awaiting its pong.
    pub outstanding: Option<u64>,
    /// Reason recorded while closing.
    pub end_reason: Option<EndReason>,
    /// Responder: the Hello it accepted.
    pub peer: Option<Hello>,
}

pub struct SessionModel {
    pub role: Role,
    pub phase: Phase,
    pub caps: CapabilitiesModel,
    pub timing: Timing,
    pub fresh_id: Seq<char>,
    pub session_id: Option<Seq<char>>,
    pub codec: Option<Seq<char>>,
    pub port: u16,
    pub since: u64,
    pub last_ping: u64,
    pub outstanding: Option<u64>,
    pub end_reason: Option<EndReason>,
    pub peer: Option<HelloModel>,
}

pub open spec fn peer_view(o: Option<Hello>) -> Option<HelloModel> {
    match o {
        Some(h) => Some(h@),
        None => None,
    }
}

impl View for Session {
    type V = SessionModel;

    open spec fn view(&self) -> SessionModel {
        SessionModel {
            role: self.role,
            phase: self.phase,
            caps: self.caps@,
            timing: self.timing,
            fresh_id: self.fresh_id@,
            session_id: opt_view(self.session_id),
            codec: opt_view(self.codec),
            port: self.port,
            since: self.since,
            last_ping: self.last_ping,
            outstanding: self.outstanding,
            end_reason: self.end_reason,
            peer: peer_view(self.peer),
        }
    }
}

// ---- the transition relation ----
pub open spec fn hello_of(c: CapabilitiesModel) -> HelloModel {
    HelloModel {
        version: c.version,
        supported_codecs: c.codecs,
        max_packet_size: c.max_packet_size,
        token: c.token,
    }
}

pub open spec fn no_actions() -> Seq<ActionModel> {
    Seq::empty()
}

/// Ends at once, without a Bye.
pub open spec fn close_now(s: SessionModel, r: EndReason) -> (SessionModel, Seq<ActionModel>) {
    (SessionModel { phase: Phase::Closed, ..s }, seq![ActionModel::Ended(r)])
}

/// Sends Bye and waits for it to go out.
pub open spec fn say_bye(s: SessionModel, r: EndReason, text: Seq<char>) -> (
    SessionModel,
    Seq<ActionModel>,
) {
    (
        SessionModel { phase: Phase::Closing, end_reason: Some(r), ..s },
        seq![ActionModel::Send(MessageModel::Bye(text))],
    )
}

/// A message that the protocol does not allow in the current state: answer
/// Bye and close.
pub open spec fn violation(s: SessionModel) -> (SessionModel, Seq<ActionModel>) {
    say_bye(s, EndReason::ProtocolViolation, "unexpected message"@)
}

/// Whether a Pong echoing `t` answers the pings still outstanding: it echoes
/// one sent since the oldest unanswered one.
pub open spec fn answers(s: SessionModel, t: u64) -> bool {
    s.outstanding matches Some(o) && o <= t && t <= s.last_ping
}

pub open spec fn token_ok(c: CapabilitiesModel, h: HelloModel) -> bool {
    c.token matches Some(t) ==> h.token == Some(t)
}

pub open spec fn on_hello(s: SessionModel, h: HelloModel, now: u64) -> (
    SessionModel,
    Seq<ActionModel>,
) {
    if h.version != s.caps.version {
        say_bye(s, EndReason::NegotiationFailure, "incompatible protocol version"@)
    } else if !token_ok(s.caps, h) {
        say_bye(s, EndReason::NegotiationFailure, "invalid token"@)
    } else {
        match first_common(h.supported_codecs, s.caps.codecs) {
            None => say_bye(s, EndReason::NegotiationFailure, "no common codec"@),
            Some(c) => (
                SessionModel {
                    phase: Phase::Active,
                    session_id: Some(s.fresh_id),
                    codec: Some(c),
                    port: s.caps.media_port,
                    last_ping: now,
                    outstanding: None,
                    peer: Some(h),
                    ..s
                },
                seq![
                    ActionModel::Send(
                        MessageModel::Welcome(
                            WelcomeModel {
                                session_id: s.fresh_id,
                                codec: c,
                                port: s.caps.media_port,
                            },
                        ),
                    ),
                    ActionModel::Established(s.fresh_id, c, s.caps.media_port),
                ],
            ),
        }
    }
}

pub open spec fn on_welcome(s: SessionModel, w: WelcomeModel, now: u64) -> (
    SessionModel,
    Seq<ActionModel>,
) {
    if s.caps.codecs.contains(w.codec) {
        (
            SessionModel {
                phase: Phase::Active,
                session_id: Some(w.session_id),
                codec: Some(w.codec),
                port: w.port,
                last_ping: now,
                outstanding: None,
                ..s
            },
            seq![ActionModel::Established(w.session_id, w.codec, w.port)],
        )
    } else {
        violation(s)
    }
}

pub open spec fn on_active_message(s: SessionModel, m: MessageModel) -> (
    SessionModel,
    Seq<ActionModel>,
) {
    match m {
        MessageModel::Ping(t) => (s, seq![ActionModel::Send(MessageModel::Pong(t))]),
        MessageModel::Pong(t) => if answers(s, t) {
            (SessionModel { outstanding: None, ..s }, no_actions())
        } else {
            (s, no_actions())
        },
        MessageModel::Bye(_) => close_now(s, EndReason::PeerBye),
        _ => say_bye(s, EndReason::ProtocolViolation, "unexpected message in active session"@),
    }
}

pub open spec fn on_tick(s: SessionModel, now: u64) -> (SessionModel, Seq<ActionModel>) {
    match s.phase {
        Phase::AwaitingHello | Phase::AwaitingWelcome => if now > s.since
            + s.timing.handshake_timeout {
            close_now(s, EndReason::HandshakeTimeout)
        } else {
            (s, no_actions())
        },
        Phase::Active => if s.outstanding matches Some(t) && now > t
            + s.timing.liveness_timeout {
            say_bye(s, EndReason::LivenessTimeout, "liveness timeout"@)
        } else if now >= s.last_ping + s.timing.ping_interval {
            (
                SessionModel {
                    last_ping: now,
                    outstanding: Some(
                        match s.outstanding {
                            Some(t) => t,
                            None => now,
                        },
                    ),
                    ..s
                },
                seq![ActionModel::Send(MessageModel::Ping(now))],
            )
        } else {
            (s, no_actions())
        },
        _ => (s, no_actions()),
    }
}

/// Whether the session has not yet reached `Active`, `Closing` or `Closed`.
pub open spec fn before_active(p: Phase) -> bool {
    p is Connecting || p is AwaitingHello || p is AwaitingWelcome
}

/// The next state and the actions, for each state and event.
pub open spec fn step_model(s: SessionModel, e: EventModel) -> (SessionModel, Seq<ActionModel>) {
    if s.phase is Closed {
        (s, no_actions())
    } else {
        match e {
            EventModel::ChannelReady(now) => if s.phase is Connecting {
                match s.role {
                    Role::Initiator => (
                        SessionModel { phase: Phase::AwaitingWelcome, since: now, ..s },
                        seq![ActionModel::Send(MessageModel::Hello(hello_of(s.caps)))],
                    ),
                    Role::Responder => (
                        SessionModel { phase: Phase::AwaitingHello, since: now, ..s },
                        no_actions(),
                    ),
                }
            } else {
                (s, no_actions())
            },
            EventModel::Received(m, now) => match s.phase {
                Phase::AwaitingHello => match m {
                    MessageModel::Hello(h) => on_hello(s, h, now),
                    MessageModel::Bye(_) => close_now(s, EndReason::PeerBye),
                    _ => violation(s),
                },
                Phase::AwaitingWelcome => match m {
                    MessageModel::Welcome(w) => on_welcome(s, w, now),
                    MessageModel::Bye(_) => close_now(s, EndReason::PeerBye),
                    _ => violation(s),
                },
                Phase::Active => on_active_message(s, m),
                Phase::Connecting => violation(s),
                _ => (s, no_actions()),
            },
            EventModel::Unrecognized => if before_active(s.phase) {
                violation(s)
            } else {
                (s, no_actions())
            },
            EventModel::Malformed => if before_active(s.phase) {
                violation(s)
            } else {
                (s, no_actions())
            },
            EventModel::Tick(now) => on_tick(s, now),
            EventModel::Shutdown(reason) => if s.phase is Closing {
                (s, no_actions())
            } else {
                say_bye(s, EndReason::LocalShutdown, reason)
            },
            EventModel::ByeSent => if s.phase is Closing {
                close_now(
                    s,
                    match s.end_reason {
                        Some(r) => r,
                        None => EndReason::LocalShutdown,
                    },
                )
            } else {
                (s, no_actions())
            },
            EventModel::TransportFailed => if s.phase is Closing {
                close_now(
                    s,
                    match s.end_reason {
                        Some(r) => r,
                        None => EndReason::TransportError,
                    },
                )
            } else {
                close_now(s, EndReason::TransportError)
            },
        }
    }
}

/// A fresh session, before its channel is ready.
pub open spec fn initial_model(role: Role, caps: CapabilitiesModel, timing: Timing, fresh_id: Seq<char>) -> SessionModel {
    SessionModel {
        role,
        phase: Phase::Connecting,
        caps,
        timing,
        fresh_id,
        session_id: None,
        codec: None,
        port: 0,
        since: 0,
        last_ping: 0,
        outstanding: None,
        end_reason: None,
        peer: None,
    }
}

// ---- the executable machine ----
fn copy_opt(o: &Option<String>) -> (r: Option<String>)
    ensures
        opt_view(r) == opt_view(*o),
{
    match o {
        Some(t) => Some(t.clone()),
        None => None,
    }
}

impl Session {
    /// A session in `Connecting`, before its channel is ready.
    pub fn new(role: Role, caps: Capabilities, timing: Timing, fresh_id: String) -> (r: Self)
        requires
            role == Role::Responder ==> fresh_id@.len() > 0,
        ensures
            r@ == initial_model(role, caps@, timing, fresh_id@),
    {
        Session {
            role,
            phase: Phase::Connecting,
            caps,
            timing,
            fresh_id,
            session_id: None,
            codec: None,
            port: 0,
            since: 0,
            last_ping: 0,
            outstanding: None,
            end_reason: None,
            peer: None,
        }
    }

    fn close_now(&mut self, r: EndReason) -> (acts: Vec<Action>)
        ensures
            (final(self)@, actions_model(acts@)) == close_now(old(self)@, r),
    {
        self.phase = Phase::Closed;
        let mut acts: Vec<Action> = Vec::new();
        acts.push(Action::Ended(r));
        assert(actions_model(acts@) =~= seq![ActionModel::Ended(r)]);
        acts
    }

    fn say_bye(&mut self, r: EndReason, text: String) -> (acts: Vec<Action>)
        ensures
            (final(self)@, actions_model(acts@)) == say_bye(old(self)@, r, text@),
    {
        self.phase = Phase::Closing;
        self.end_reason = Some(r);
        let mut acts: Vec<Action> = Vec::new();
        acts.push(Action::Send(ControlMessage::Bye { reason: text }));
        assert(actions_model(acts@) =~= seq![ActionModel::Send(MessageModel::Bye(text@))]);
        acts
    }

    fn violation(&mut self) -> (acts: Vec<Action>)
        ensures
            (final(self)@, actions_model(acts@)) == violation(old(self)@),
    {
        self.say_bye(EndReason::ProtocolViolation, "unexpected message".to_owned())
    }

    fn none() -> (acts: Vec<Action>)
        ensures
            actions_model(acts@) == no_actions(),
    {
        let acts: Vec<Action> = Vec::new();
        assert(actions_model(acts@) =~= no_actions());
        acts
    }

    fn on_hello(&mut self, h: Hello, now: u64) -> (acts: Vec<Action>)
        ensures
            (final(self)@, actions_model(acts@)) == on_hello(old(self)@, h@, now),
    {
        if h.version != self.caps.version {
            return self.say_bye(EndReason::NegotiationFailure, "incompatible protocol version".to_owned());
        }
        let tok_ok = match &self.caps.token {
            Some(t) => match &h.token {
                Some(ht) => *ht == *t,
                None => false,
            },
            None => true,
        };
        if !tok_ok {
            return self.say_bye(EndReason::NegotiationFailure, "invalid token".to_owned());
        }
        match negotiate_codec(&h.supported_codecs, &self.caps.codecs) {
            None => self.say_bye(EndReason::NegotiationFailure, "no common codec".to_owned()),
            Some(c) => {
                let ghost s0 = self@;
                self.phase = Phase::Active;
                self.session_id = Some(self.fresh_id.clone());
                self.codec = Some(c.clone());
                self.port = self.caps.media_port;
                self.last_ping = now;
                self.outstanding = None;
                self.peer = Some(h);
                let mut acts: Vec<Action> = Vec::new();
                acts.push(
                    Action::Send(
                        ControlMessage::Welcome(
                            Welcome {
                                session_id: self.fresh_id.clone(),
                                codec: c.clone(),
                                port: self.caps.media_port,
                            },
                        ),
                    ),
                );
                acts.push(
                    Action::Established {
                        session_id: self.fresh_id.clone(),
                        codec: c,
                        port: self.caps.media_port,
                    },
                );
                assert(actions_model(acts@) =~= on_hello(s0, h@, now).1);
                acts
            },
        }
    }

    fn on_welcome(&mut self, w: Welcome, now: u64) -> (acts: Vec<Action>)
        ensures
            (final(self)@, actions_model(acts@)) == on_welcome(old(self)@, w@, now),
    {
        if contains_str(&self.caps.codecs, &w.codec) {
            let ghost s0 = self@;
            self.phase = Phase::Active;
            self.session_id = Some(w.session_id.clone());
            self.codec = Some(w.codec.clone());
            self.port = w.port;
            self.last_ping = now;
            self.outstanding = None;
            let mut acts: Vec<Action> = Vec::new();
            acts.push(
                Action::Established { session_id: w.session_id, codec: w.codec, port: w.port },
            );
            assert(actions_model(acts@) =~= on_welcome(s0, w@, now).1);
            acts
        } else {
            self.violation()
        }
    }

    fn on_active_message(&mut self, m: ControlMessage) -> (acts: Vec<Action>)
        ensures
            (final(self)@, actions_model(acts@)) == on_active_message(old(self)@, m@),
    {
        match m {
            ControlMessage::Ping { timestamp } => {
                let mut acts: Vec<Action> = Vec::new();
                acts.push(Action::Send(ControlMessage::Pong { timestamp }));
                assert(actions_model(acts@) =~= seq![
                    ActionModel::Send(MessageModel::Pong(timestamp)),
                ]);
                acts
            },
            ControlMessage::Pong { timestamp } => {
                let hit = match self.outstanding {
                    Some(o) => o <= timestamp && timestamp <= self.last_ping,
                    None => false,
                };
                if hit {
                    self.outstanding = None;
                }
                Self::none()
            },
            ControlMessage::Bye { .. } => self.close_now(EndReason::PeerBye),
            _ => self.say_bye(
                EndReason::ProtocolViolation,
                "unexpected message in active session".to_owned(),
            ),
        }
    }

    fn on_tick(&mut self, now: u64) -> (acts: Vec<Action>)
        ensures
            (final(self)@, actions_model(acts@)) == on_tick(old(self)@, now),
    {
        match self.phase {
            Phase::AwaitingHello | Phase::AwaitingWelcome => {
                if now > self.since && now - self.since > self.timing.handshake_timeout {
                    self.close_now(EndReason::HandshakeTimeout)
                } else {
                    Self::none()
                }
            },
            Phase::Active => {
                let due = match self.outstanding {
                    Some(t) => now > t && now - t > self.timing.liveness_timeout,
                    None => false,
                };
                if due {
                    self.say_bye(EndReason::LivenessTimeout, "liveness timeout".to_owned())
                } else if now >= self.last_ping && now - self.last_ping >= self.timing.ping_interval {
                    self.last_ping = now;
                    self.outstanding = match self.outstanding {
                        Some(t) => Some(t),
                        None => Some(now),
                    };
                    let mut acts: Vec<Action> = Vec::new();
                    acts.push(Action::Send(ControlMessage::Ping { timestamp: now }));
                    assert(actions_model(acts@) =~= seq![
                        ActionModel::Send(MessageModel::Ping(now)),
                    ]);
                    acts
                } else {
                    Self::none()
                }
            },
            _ => Self::none(),
        }
    }

    /// Performs one transition. The caller carries out the returned actions
    /// in order.
    pub fn step(&mut self, e: Event) -> (acts: Vec<Action>)
        ensures
            (final(self)@, actions_model(acts@)) == step_model(old(self)@, e@),
    {
        if self.phase == Phase::Closed {
            return Self::none();
        }
        match e {
            Event::ChannelReady { now } => {
                if self.phase == Phase::Connecting {
                    match self.role {
                        Role::Initiator => {
                            self.phase = Phase::AwaitingWelcome;
                            self.since = now;
                            let h = Hello {
                                version: self.caps.version.clone(),
                                supported_codecs: copy_strings(&self.caps.codecs),
                                max_packet_size: self.caps.max_packet_size,
                                token: copy_opt(&self.caps.token),
                            };
                            let mut acts: Vec<Action> = Vec::new();
                            acts.push(Action::Send(ControlMessage::Hello(h)));
                            assert(actions_model(acts@) =~= seq![
                                ActionModel::Send(MessageModel::Hello(hello_of(self@.caps))),
                            ]);
                            acts
                        },
                        Role::Responder => {
                            self.phase = Phase::AwaitingHello;
                            self.since = now;
                            Self::none()
                        },
                    }
                } else {
                    Self::none()
                }
            },
            Event::Received { msg, now } => match self.phase {
                Phase::AwaitingHello => match msg {
                    ControlMessage::Hello(h) => self.on_hello(h, now),
                    ControlMessage::Bye { .. } => self.close_now(EndReason::PeerBye),
                    _ => self.violation(),
                },
                Phase::AwaitingWelcome => match msg {
                    ControlMessage::Welcome(w) => self.on_welcome(w, now),
                    ControlMessage::Bye { .. } => self.close_now(EndReason::PeerBye),
                    _ => self.violation(),
                },
                Phase::Active => self.on_active_message(msg),
                Phase::Connecting => self.violation(),
                _ => Self::none(),
            },
            Event::Unrecognized | Event::Malformed => {
                if self.phase == Phase::Connecting || self.phase == Phase::AwaitingHello
                    || self.phase == Phase::AwaitingWelcome {
                    self.violation()
                } else {
                    Self::none()
                }
            },
            Event::Tick { now } => self.on_tick(now),
            Event::Shutdown { reason } => {
                if self.phase == Phase::Closing {
                    Self::none()
                } else {
                    self.say_bye(EndReason::LocalShutdown, reason)
                }
            },
            Event::ByeSent => {
                if self.phase == Phase::Closing {
                    let r = match self.end_reason {
                        Some(r) => r,
                        None => EndReason::LocalShutdown,
                    };
                    self.close_now(r)
                } else {
                    Self::none()
                }
            },
            Event::TransportFailed => {
                if self.phase == Phase::Closing {
                    let r = match self.end_reason {
                        Some(r) => r,
                        None => EndReason::TransportError,
                    };
                    self.close_now(r)
                } else {
                    self.close_now(EndReason::TransportError)
                }
            },
        }
    }
}

} // verus!
