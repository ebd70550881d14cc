use vstd::prelude::*;

verus! {

/// Opening message of a session, sent by the initiator.
#[derive(Debug, Clone)]
pub struct Hello {
    pub version: String,
    /// Codec identifiers, most preferred first.
    pub supported_codecs: Vec<String>,
    pub max_packet_size: u32,
    pub token: Option<String>,
}

/// Acceptance of a session, sent by the responder.
#[derive(Debug, Clone)]
pub struct Welcome {
    pub session_id: String,
    pub codec: String,
    /// RTP port of the media stream.
    pub port: u16,
}

/// The closed set of control messages.
#[derive(Debug, Clone)]
pub enum ControlMessage {
    Hello(Hello),
    Welcome(Welcome),
    Ping { timestamp: u64 },
    Pong { timestamp: u64 },
    Bye { reason: String },
}

/// Mathematical model of a `Hello`.
pub struct HelloModel {
    pub version: Seq<char>,
    pub supported_codecs: Seq<Seq<char>>,
    pub max_packet_size: u32,
    pub token: Option<Seq<char>>,
}

/// Mathematical model of a `Welcome`.
pub struct WelcomeModel {
    pub session_id: Seq<char>,
    pub codec: Seq<char>,
    pub port: u16,
}

/// Mathematical model of a `ControlMessage`.
pub enum MessageModel {
    Hello(HelloModel),
    Welcome(WelcomeModel),
    Ping(u64),
    Pong(u64),
    Bye(Seq<char>),
}

pub open spec fn opt_view(o: Option<String>) -> Option<Seq<char>> {
    match o {
        Some(s) => Some(s@),
        None => None,
    }
}

impl View for Hello {
    type V = HelloModel;

    open spec fn view(&self) -> HelloModel {
        HelloModel {
            version: self.version@,
            supported_codecs: self.supported_codecs.deep_view(),
            max_packet_size: self.max_packet_size,
            token: opt_view(self.token),
        }
    }
}

impl View for Welcome {
    type V = WelcomeModel;

    open spec fn view(&self) -> WelcomeModel {
        WelcomeModel { session_id: self.session_id@, codec: self.codec@, port: self.port }
    }
}

impl View for ControlMessage {
    type V = MessageModel;

    open spec fn view(&self) -> MessageModel {
        match self {
            ControlMessage::Hello(h) => MessageModel::Hello(h@),
            ControlMessage::Welcome(w) => MessageModel::Welcome(w@),
            ControlMessage::Ping { timestamp } => MessageModel::Ping(*timestamp),
            ControlMessage::Pong { timestamp } => MessageModel::Pong(*timestamp),
            ControlMessage::Bye { reason } => MessageModel::Bye(reason@),
        }
    }
}

} // verus!
