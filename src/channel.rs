//! Between the byte stream and the state machine: framing outgoing messages
//! and turning incoming bodies into events.
use vstd::prelude::*;
use crate::codec::{DecodeError, decode, encode, encode_model, fits, message_fits, parse_model};
use crate::framing::{frame, frame_model};
use crate::message::ControlMessage;
use crate::session::{Event, EventModel};

verus! {

/// The bytes that carry `m` on the channel, or `None` when a length of `m`,
/// or of its whole body, does not fit its prefix.
pub fn frame_message(m: &ControlMessage) -> (r: Option<Vec<u8>>)
    ensures
        match r {
            Some(b) => message_fits(m@) && encode_model(m@).len() <= u32::MAX && b@ == frame_model(
                encode_model(m@),
            ),
            None => !message_fits(m@) || encode_model(m@).len() > u32::MAX,
        },
{
    if !fits(m) {
        return None;
    }
    let body = encode(m);
    if body.len() > 0xffff_ffff {
        return None;
    }
    Some(frame(body.as_slice()))
}

/// The event that a received body stands for.
pub open spec fn inbound_model(body: Seq<u8>, now: u64) -> EventModel {
    match parse_model(body) {
        Ok(m) => EventModel::Received(m, now),
        Err(DecodeError::UnknownVariant) => EventModel::Unrecognized,
        Err(DecodeError::Malformed) => EventModel::Malformed,
    }
}

/// Decodes a received body into the event for the state machine; a body
/// that does not decode becomes an event too, never a failure.
pub fn inbound_event(body: &[u8], now: u64) -> (r: Event)
    ensures
        r@ == inbound_model(body@, now),
{
    match decode(body) {
        Ok(m) => Event::Received { msg: m, now },
        Err(DecodeError::UnknownVariant) => Event::Unrecognized,
        Err(DecodeError::Malformed) => Event::Malformed,
    }
}

} // verus!
