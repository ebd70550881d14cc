use ndp_control::codec::{decode, encode, fits, DecodeError};
use ndp_control::message::{ControlMessage, Hello, Welcome};

fn s(x: &str) -> String {
    x.to_string()
}

fn same(a: &ControlMessage, b: &ControlMessage) -> bool {
    format!("{:?}", a) == format!("{:?}", b)
}

fn samples() -> Vec<ControlMessage> {
    vec![
        ControlMessage::Hello(Hello {
            version: s("1.0"),
            supported_codecs: vec![s("h264"), s("vp8")],
            max_packet_size: 1400,
            token: Some(s("bearer-abc")),
        }),
        ControlMessage::Hello(Hello {
            version: s(""),
            supported_codecs: vec![],
            max_packet_size: u32::MAX,
            token: None,
        }),
        ControlMessage::Welcome(Welcome { session_id: s("sess-é1"), codec: s("h264"), port: 5510 }),
        ControlMessage::Ping { timestamp: 0 },
        ControlMessage::Pong { timestamp: u64::MAX },
        ControlMessage::Bye { reason: s("liveness timeout") },
    ]
}

#[test]
fn round_trip_every_variant() {
    for m in samples() {
        assert!(fits(&m));
        let b = encode(&m);
        let back = decode(&b).expect("decodes");
        assert!(same(&m, &back), "{:?} != {:?}", m, back);
    }
}

#[test]
fn ping_encoding_is_exact() {
    let b = encode(&ControlMessage::Ping { timestamp: 0x0102030405060708 });
    assert_eq!(b, vec![4, 0, 0, 0, b'P', b'I', b'N', b'G', 8, 7, 6, 5, 4, 3, 2, 1]);
}

#[test]
fn bye_encoding_is_exact() {
    let b = encode(&ControlMessage::Bye { reason: s("ok") });
    assert_eq!(b, vec![3, 0, 0, 0, b'B', b'Y', b'E', 2, 0, 0, 0, b'o', b'k']);
}

#[test]
fn unknown_discriminator_is_reported() {
    let mut b = vec![5, 0, 0, 0];
    b.extend_from_slice(b"RESET");
    b.extend_from_slice(&[1, 2, 3]);
    assert_eq!(decode(&b).unwrap_err(), DecodeError::UnknownVariant);
}

#[test]
fn truncated_body_is_malformed() {
    let b = encode(&ControlMessage::Pong { timestamp: 9 });
    for cut in 0..b.len() {
        assert_eq!(decode(&b[..cut]).unwrap_err(), DecodeError::Malformed);
    }
}

#[test]
fn trailing_bytes_are_malformed() {
    let mut b = encode(&ControlMessage::Ping { timestamp: 9 });
    b.push(0);
    assert_eq!(decode(&b).unwrap_err(), DecodeError::Malformed);
}

#[test]
fn invalid_utf8_is_malformed() {
    let mut b = vec![3, 0, 0, 0];
    b.extend_from_slice(b"BYE");
    b.extend_from_slice(&[1, 0, 0, 0, 0xff]);
    assert_eq!(decode(&b).unwrap_err(), DecodeError::Malformed);
}

#[test]
fn bad_token_flag_is_malformed() {
    let m = ControlMessage::Hello(Hello {
        version: s("1"),
        supported_codecs: vec![s("a")],
        max_packet_size: 10,
        token: None,
    });
    let mut b = encode(&m);
    let last = b.len() - 1;
    b[last] = 2;
    assert_eq!(decode(&b).unwrap_err(), DecodeError::Malformed);
}
