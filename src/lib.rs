use vstd::prelude::*;

pub mod message;
pub mod codec;
pub mod framing;
pub mod channel;
pub mod negotiation;
pub mod session;
pub mod laws;
pub mod manager;

verus! {

/// Default UDP port of the media stream.
pub const DEFAULT_PORT: u16 = 5510;

/// Default TCP port of the control channel.
pub const DEFAULT_CONTROL_PORT: u16 = 5511;

} // verus!
