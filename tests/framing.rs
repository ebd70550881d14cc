use ndp_control::channel::{frame_message, inbound_event};
use ndp_control::codec::decode;
use ndp_control::framing::{frame, FrameOutcome, FrameReader, SAFETY_CEILING};
use ndp_control::message::{ControlMessage, Hello};
use ndp_control::session::Event;

fn messages() -> Vec<ControlMessage> {
    vec![
        ControlMessage::Hello(Hello {
            version: "1".to_string(),
            supported_codecs: vec!["h264".to_string()],
            max_packet_size: 1400,
            token: None,
        }),
        ControlMessage::Ping { timestamp: 1 },
        ControlMessage::Pong { timestamp: 1 },
        ControlMessage::Bye { reason: "done".to_string() },
    ]
}

fn stream() -> Vec<u8> {
    let mut out = Vec::new();
    for m in messages() {
        out.extend(frame_message(&m).unwrap());
    }
    out
}

fn drain(r: &mut FrameReader, got: &mut Vec<String>) {
    loop {
        match r.next_frame() {
            FrameOutcome::Frame(body) => got.push(format!("{:?}", decode(&body).unwrap())),
            FrameOutcome::Pending => return,
            FrameOutcome::TooLarge => panic!("too large"),
        }
    }
}

fn expected() -> Vec<String> {
    messages().iter().map(|m| format!("{:?}", m)).collect()
}

#[test]
fn header_is_big_endian_length() {
    assert_eq!(frame(&[9, 8, 7]), vec![0, 0, 0, 3, 9, 8, 7]);
    assert_eq!(frame(&[]), vec![0, 0, 0, 0]);
    let body = vec![0u8; 0x0102];
    assert_eq!(&frame(&body)[..4], &[0, 0, 1, 2]);
}

#[test]
fn one_byte_at_a_time() {
    let s = stream();
    let mut r = FrameReader::new(SAFETY_CEILING);
    let mut got = Vec::new();
    for b in &s {
        r.feed(&[*b]);
        drain(&mut r, &mut got);
    }
    assert_eq!(got, expected());
}

#[test]
fn every_split_point() {
    let s = stream();
    for cut in 0..=s.len() {
        let mut r = FrameReader::new(SAFETY_CEILING);
        let mut got = Vec::new();
        r.feed(&s[..cut]);
        drain(&mut r, &mut got);
        r.feed(&s[cut..]);
        drain(&mut r, &mut got);
        assert_eq!(got, expected());
    }
}

#[test]
fn whole_stream_at_once() {
    let mut r = FrameReader::new(SAFETY_CEILING);
    let mut got = Vec::new();
    r.feed(&stream());
    drain(&mut r, &mut got);
    assert_eq!(got, expected());
}

#[test]
fn oversized_frame_closes_reader() {
    let mut r = FrameReader::new(4);
    r.feed(&[0, 0, 0, 5, 1, 2, 3, 4, 5]);
    assert!(matches!(r.next_frame(), FrameOutcome::TooLarge));
    assert!(!r.is_open());
    r.feed(&[0, 0, 0, 1, 1]);
    assert!(matches!(r.next_frame(), FrameOutcome::TooLarge));
}

#[test]
fn frame_at_limit_is_accepted() {
    let mut r = FrameReader::new(4);
    r.feed(&[0, 0, 0, 4, 1, 2, 3, 4]);
    match r.next_frame() {
        FrameOutcome::Frame(b) => assert_eq!(b, vec![1, 2, 3, 4]),
        _ => panic!("expected a frame"),
    }
    assert!(matches!(r.next_frame(), FrameOutcome::Pending));
}

#[test]
fn inbound_unknown_is_an_event() {
    let mut b = vec![4, 0, 0, 0];
    b.extend_from_slice(b"NOPE");
    assert!(matches!(inbound_event(&b, 3), Event::Unrecognized));
    assert!(matches!(inbound_event(&[1, 2], 3), Event::Malformed));
    let ping = &frame_message(&ControlMessage::Ping { timestamp: 4 }).unwrap()[4..];
    assert!(matches!(inbound_event(ping, 3), Event::Received { msg: ControlMessage::Ping { timestamp: 4 }, now: 3 }));
}

#[test]
fn negotiated_limit_applies_to_later_frames() {
    let mut r = FrameReader::new(SAFETY_CEILING);
    r.feed(&[0, 0, 0, 2, 7, 7, 0, 0, 0, 3]);
    assert!(matches!(r.next_frame(), FrameOutcome::Frame(_)));
    r.set_limit(2);
    r.feed(&[1, 2, 3]);
    assert!(matches!(r.next_frame(), FrameOutcome::TooLarge));
}

#[test]
fn unknown_frame_then_message_on_one_channel() {
    let mut body = vec![5, 0, 0, 0];
    body.extend_from_slice(b"RESET");
    let mut s = frame(&body);
    s.extend(frame_message(&ControlMessage::Ping { timestamp: 8 }).unwrap());
    let mut r = FrameReader::new(SAFETY_CEILING);
    r.feed(&s);
    let first = match r.next_frame() {
        FrameOutcome::Frame(b) => inbound_event(&b, 0),
        _ => panic!("expected a frame"),
    };
    assert!(matches!(first, Event::Unrecognized));
    assert!(r.is_open());
    let second = match r.next_frame() {
        FrameOutcome::Frame(b) => inbound_event(&b, 0),
        _ => panic!("expected a frame"),
    };
    assert!(matches!(second, Event::Received { msg: ControlMessage::Ping { timestamp: 8 }, .. }));
}
