//! Body encoding of control messages.
//!
//! A body is the discriminator as a length-prefixed ASCII string followed by
//! the variant's fields in declaration order. Integers are little-endian;
//! strings and byte strings carry a `u32` length prefix; a codec list carries
//! a `u32` count; an optional string is a flag byte (0 or 1) and the string.
use vstd::prelude::*;
use vstd::bytes::*;
use vstd::utf8::*;
use vstd::slice::{slice_subrange, slice_to_vec};
use crate::message::{ControlMessage, Hello, HelloModel, MessageModel, Welcome, WelcomeModel};

verus! {

broadcast use vstd::string::group_string_axioms;

/// Why a body could not be decoded.
#[derive(Debug, Clone, Copy, PartialEq, Eq, Structural)]
pub enum DecodeError {
    /// Truncated, corrupt, or with trailing bytes.
    Malformed,
    /// Well-framed discriminator that names no known variant.
    UnknownVariant,
}

/// The five message discriminators.
#[derive(Debug, Clone, Copy, PartialEq, Eq, Structural)]
pub enum Tag {
    Hello,
    Welcome,
    Ping,
    Pong,
    Bye,
}

pub open spec fn tag_text(t: Tag) -> Seq<u8> {
    match t {
        Tag::Hello => seq![72u8, 69u8, 76u8, 76u8, 79u8],
        Tag::Welcome => seq![87u8, 69u8, 76u8, 67u8, 79u8, 77u8, 69u8],
        Tag::Ping => seq![80u8, 73u8, 78u8, 71u8],
        Tag::Pong => seq![80u8, 79u8, 78u8, 71u8],
        Tag::Bye => seq![66u8, 89u8, 69u8],
    }
}

pub open spec fn tag_named(b: Seq<u8>) -> Option<Tag> {
    if b == tag_text(Tag::Hello) {
        Some(Tag::Hello)
    } else if b == tag_text(Tag::Welcome) {
        Some(Tag::Welcome)
    } else if b == tag_text(Tag::Ping) {
        Some(Tag::Ping)
    } else if b == tag_text(Tag::Pong) {
        Some(Tag::Pong)
    } else if b == tag_text(Tag::Bye) {
        Some(Tag::Bye)
    } else {
        None
    }
}

pub open spec fn model_tag(m: MessageModel) -> Tag {
    match m {
        MessageModel::Hello(_) => Tag::Hello,
        MessageModel::Welcome(_) => Tag::Welcome,
        MessageModel::Ping(_) => Tag::Ping,
        MessageModel::Pong(_) => Tag::Pong,
        MessageModel::Bye(_) => Tag::Bye,
    }
}

// ---- encoding ----
pub open spec fn enc_bytes(b: Seq<u8>) -> Seq<u8> {
    spec_u32_to_le_bytes(b.len() as u32) + b
}

pub open spec fn enc_str(s: Seq<char>) -> Seq<u8> {
    enc_bytes(encode_utf8(s))
}

pub open spec fn enc_strs(xs: Seq<Seq<char>>) -> Seq<u8>
    decreases xs.len(),
{
    if xs.len() == 0 {
        seq![]
    } else {
        enc_strs(xs.drop_last()) + enc_str(xs.last())
    }
}

pub open spec fn enc_opt(o: Option<Seq<char>>) -> Seq<u8> {
    match o {
        None => seq![0u8],
        Some(s) => seq![1u8] + enc_str(s),
    }
}

pub open spec fn enc_payload(m: MessageModel) -> Seq<u8> {
    match m {
        MessageModel::Hello(h) => enc_str(h.version) + spec_u32_to_le_bytes(
            h.supported_codecs.len() as u32,
        ) + enc_strs(h.supported_codecs) + spec_u32_to_le_bytes(h.max_packet_size) + enc_opt(
            h.token,
        ),
        MessageModel::Welcome(w) => enc_str(w.session_id) + enc_str(w.codec) + spec_u16_to_le_bytes(
            w.port,
        ),
        MessageModel::Ping(t) => spec_u64_to_le_bytes(t),
        MessageModel::Pong(t) => spec_u64_to_le_bytes(t),
        MessageModel::Bye(r) => enc_str(r),
    }
}

/// The body that encodes `m`.
pub open spec fn encode_model(m: MessageModel) -> Seq<u8> {
    enc_bytes(tag_text(model_tag(m))) + enc_payload(m)
}

pub open spec fn str_fits(s: Seq<char>) -> bool {
    encode_utf8(s).len() <= u32::MAX
}

/// Every length and count of `m` fits its `u32` prefix.
pub open spec fn message_fits(m: MessageModel) -> bool {
    match m {
        MessageModel::Hello(h) => {
            &&& str_fits(h.version)
            &&& h.supported_codecs.len() <= u32::MAX
            &&& forall|i: int| 0 <= i < h.supported_codecs.len() ==> str_fits(
                #[trigger] h.supported_codecs[i],
            )
            &&& (h.token matches Some(t) ==> str_fits(t))
        },
        MessageModel::Welcome(w) => str_fits(w.session_id) && str_fits(w.codec),
        MessageModel::Ping(_) => true,
        MessageModel::Pong(_) => true,
        MessageModel::Bye(r) => str_fits(r),
    }
}

// ---- decoding ----
pub open spec fn take_u8(s: Seq<u8>) -> Option<(u8, Seq<u8>)> {
    if s.len() >= 1 {
        Some((s[0], s.skip(1)))
    } else {
        None
    }
}

pub open spec fn take_u16(s: Seq<u8>) -> Option<(u16, Seq<u8>)> {
    if s.len() >= 2 {
        Some((spec_u16_from_le_bytes(s.take(2)), s.skip(2)))
    } else {
        None
    }
}

pub open spec fn take_u32(s: Seq<u8>) -> Option<(u32, Seq<u8>)> {
    if s.len() >= 4 {
        Some((spec_u32_from_le_bytes(s.take(4)), s.skip(4)))
    } else {
        None
    }
}

pub open spec fn take_u64(s: Seq<u8>) -> Option<(u64, Seq<u8>)> {
    if s.len() >= 8 {
        Some((spec_u64_from_le_bytes(s.take(8)), s.skip(8)))
    } else {
        None
    }
}

pub open spec fn take_bytes(s: Seq<u8>) -> Option<(Seq<u8>, Seq<u8>)> {
    match take_u32(s) {
        Some((n, r)) => if n <= r.len() {
            Some((r.take(n as int), r.skip(n as int)))
        } else {
            None
        },
        None => None,
    }
}

pub open spec fn take_str(s: Seq<u8>) -> Option<(Seq<char>, Seq<u8>)> {
    match take_bytes(s) {
        Some((b, r)) => if valid_utf8(b) {
            Some((decode_utf8(b), r))
        } else {
            None
        },
        None => None,
    }
}

/// Reads `k` strings in a row.
pub open spec fn take_strs(s: Seq<u8>, k: nat) -> Option<(Seq<Seq<char>>, Seq<u8>)>
    decreases k,
{
    if k == 0 {
        Some((seq![], s))
    } else {
        match take_strs(s, (k - 1) as nat) {
            Some((xs, r)) => match take_str(r) {
                Some((x, r2)) => Some((xs.push(x), r2)),
                None => None,
            },
            None => None,
        }
    }
}

pub open spec fn take_opt(s: Seq<u8>) -> Option<(Option<Seq<char>>, Seq<u8>)> {
    match take_u8(s) {
        Some((f, r)) => if f == 0 {
            Some((None, r))
        } else if f == 1 {
            match take_str(r) {
                Some((x, r2)) => Some((Some(x), r2)),
                None => None,
            }
        } else {
            None
        },
        None => None,
    }
}

pub open spec fn take_hello(s: Seq<u8>) -> Option<(HelloModel, Seq<u8>)> {
    match take_str(s) {
        Some((v, r1)) => match take_u32(r1) {
            Some((n, r2)) => match take_strs(r2, n as nat) {
                Some((cs, r3)) => match take_u32(r3) {
                    Some((mps, r4)) => match take_opt(r4) {
                        Some((tok, r5)) => Some(
                            (
                                HelloModel {
                                    version: v,
                                    supported_codecs: cs,
                                    max_packet_size: mps,
                                    token: tok,
                                },
                                r5,
                            ),
                        ),
                        None => None,
                    },
                    None => None,
                },
                None => None,
            },
            None => None,
        },
        None => None,
    }
}

pub open spec fn take_welcome(s: Seq<u8>) -> Option<(WelcomeModel, Seq<u8>)> {
    match take_str(s) {
        Some((id, r1)) => match take_str(r1) {
            Some((c, r2)) => match take_u16(r2) {
                Some((p, r3)) => Some((WelcomeModel { session_id: id, codec: c, port: p }, r3)),
                None => None,
            },
            None => None,
        },
        None => None,
    }
}

pub open spec fn take_payload(t: Tag, s: Seq<u8>) -> Option<(MessageModel, Seq<u8>)> {
    match t {
        Tag::Hello => match take_hello(s) {
            Some((h, r)) => Some((MessageModel::Hello(h), r)),
            None => None,
        },
        Tag::Welcome => match take_welcome(s) {
            Some((w, r)) => Some((MessageModel::Welcome(w), r)),
            None => None,
        },
        Tag::Ping => match take_u64(s) {
            Some((x, r)) => Some((MessageModel::Ping(x), r)),
            None => None,
        },
        Tag::Pong => match take_u64(s) {
            Some((x, r)) => Some((MessageModel::Pong(x), r)),
            None => None,
        },
        Tag::Bye => match take_str(s) {
            Some((x, r)) => Some((MessageModel::Bye(x), r)),
            None => None,
        },
    }
}

/// What a body decodes to: the discriminator first, then a payload that must
/// use up the body exactly.
pub open spec fn parse_model(b: Seq<u8>) -> Result<MessageModel, DecodeError> {
    match take_bytes(b) {
        None => Err(DecodeError::Malformed),
        Some((t, r)) => match tag_named(t) {
            None => Err(DecodeError::UnknownVariant),
            Some(k) => match take_payload(k, r) {
                Some((m, rest)) => if rest.len() == 0 {
                    Ok(m)
                } else {
                    Err(DecodeError::Malformed)
                },
                None => Err(DecodeError::Malformed),
            },
        },
    }
}

// ---- round trip ----
proof fn lemma_take_bytes(b: Seq<u8>, r: Seq<u8>)
    requires
        b.len() <= u32::MAX,
    ensures
        take_bytes(enc_bytes(b) + r) == Some((b, r)),
{
    lemma_auto_spec_u32_to_from_le_bytes();
    let s = enc_bytes(b) + r;
    let h = spec_u32_to_le_bytes(b.len() as u32);
    assert(s.take(4) =~= h);
    assert(s.skip(4) =~= b + r);
    assert((b + r).take(b.len() as int) =~= b);
    assert((b + r).skip(b.len() as int) =~= r);
}

proof fn lemma_take_str(c: Seq<char>, r: Seq<u8>)
    requires
        str_fits(c),
    ensures
        take_str(enc_str(c) + r) == Some((c, r)),
{
    lemma_take_bytes(encode_utf8(c), r);
    encode_utf8_valid_utf8(c);
    encode_utf8_decode_utf8(c);
}

proof fn lemma_take_strs(xs: Seq<Seq<char>>, r: Seq<u8>)
    requires
        forall|i: int| 0 <= i < xs.len() ==> str_fits(#[trigger] xs[i]),
    ensures
        take_strs(enc_strs(xs) + r, xs.len()) == Some((xs, r)),
    decreases xs.len(),
{
    if xs.len() > 0 {
        let init = xs.drop_last();
        let x = xs.last();
        assert(str_fits(xs[xs.len() - 1]));
        assert forall|i: int| 0 <= i < init.len() implies str_fits(#[trigger] init[i]) by {
            assert(init[i] == xs[i]);
        }
        lemma_take_strs(init, enc_str(x) + r);
        assert(enc_strs(xs) + r =~= enc_strs(init) + (enc_str(x) + r));
        lemma_take_str(x, r);
        assert(init.push(x) =~= xs);
    } else {
        assert(enc_strs(xs) + r =~= r);
    }
}

proof fn lemma_take_u16(x: u16, r: Seq<u8>)
    ensures
        take_u16(spec_u16_to_le_bytes(x) + r) == Some((x, r)),
{
    lemma_auto_spec_u16_to_from_le_bytes();
    assert((spec_u16_to_le_bytes(x) + r).take(2) =~= spec_u16_to_le_bytes(x));
    assert((spec_u16_to_le_bytes(x) + r).skip(2) =~= r);
}

proof fn lemma_take_u32(x: u32, r: Seq<u8>)
    ensures
        take_u32(spec_u32_to_le_bytes(x) + r) == Some((x, r)),
{
    lemma_auto_spec_u32_to_from_le_bytes();
    assert((spec_u32_to_le_bytes(x) + r).take(4) =~= spec_u32_to_le_bytes(x));
    assert((spec_u32_to_le_bytes(x) + r).skip(4) =~= r);
}

proof fn lemma_take_u64(x: u64, r: Seq<u8>)
    ensures
        take_u64(spec_u64_to_le_bytes(x) + r) == Some((x, r)),
{
    lemma_auto_spec_u64_to_from_le_bytes();
    assert((spec_u64_to_le_bytes(x) + r).take(8) =~= spec_u64_to_le_bytes(x));
    assert((spec_u64_to_le_bytes(x) + r).skip(8) =~= r);
}

proof fn lemma_payload_round_trip(m: MessageModel)
    requires
        message_fits(m),
    ensures
        take_payload(model_tag(m), enc_payload(m)) == Some((m, Seq::<u8>::empty())),
{
    let e: Seq<u8> = seq![];
    let p = enc_payload(m);
    match m {
        MessageModel::Hello(h) => {
            let a = spec_u32_to_le_bytes(h.supported_codecs.len() as u32);
            let c = enc_strs(h.supported_codecs);
            let d = spec_u32_to_le_bytes(h.max_packet_size);
            let o = enc_opt(h.token);
            lemma_take_str(h.version, a + (c + (d + o)));
            lemma_take_u32(h.supported_codecs.len() as u32, c + (d + o));
            lemma_take_strs(h.supported_codecs, d + o);
            lemma_take_u32(h.max_packet_size, o);
            assert(p =~= enc_str(h.version) + (a + (c + (d + o))));
            match h.token {
                Some(tok) => {
                    lemma_take_str(tok, e);
                    assert(o.skip(1) =~= enc_str(tok) + e);
                },
                None => {
                    assert(o.skip(1) =~= e);
                },
            }
            assert(take_hello(p) == Some((h, e)));
        },
        MessageModel::Welcome(w) => {
            let d = spec_u16_to_le_bytes(w.port);
            lemma_take_u16(w.port, e);
            lemma_take_str(w.session_id, enc_str(w.codec) + d);
            lemma_take_str(w.codec, d);
            assert(p =~= enc_str(w.session_id) + (enc_str(w.codec) + d));
            assert(d =~= d + e);
            assert(take_welcome(p) == Some((w, e)));
        },
        MessageModel::Ping(x) => {
            lemma_take_u64(x, e);
            assert(p =~= p + e);
        },
        MessageModel::Pong(x) => {
            lemma_take_u64(x, e);
            assert(p =~= p + e);
        },
        MessageModel::Bye(r) => {
            lemma_take_str(r, e);
            assert(p =~= p + e);
        },
    }
}

/// Decoding the encoding of a message whose lengths fit their prefixes gives
/// the message back.
pub proof fn lemma_round_trip(m: MessageModel)
    requires
        message_fits(m),
    ensures
        parse_model(encode_model(m)) == Ok::<MessageModel, DecodeError>(m),
{
    let t = model_tag(m);
    lemma_take_bytes(tag_text(t), enc_payload(m));
    assert(tag_named(tag_text(t)) == Some(t));
    lemma_payload_round_trip(m);
}

/// A body whose discriminator is well framed but names no known variant
/// decodes to `UnknownVariant`, whatever payload follows.
pub proof fn lemma_unknown_variant(t: Seq<u8>, payload: Seq<u8>)
    requires
        t.len() <= u32::MAX,
        tag_named(t) is None,
    ensures
        parse_model(enc_bytes(t) + payload) == Err::<MessageModel, DecodeError>(
            DecodeError::UnknownVariant,
        ),
{
    lemma_take_bytes(t, payload);
}

proof fn lemma_bytes_back(s: Seq<u8>)
    requires
        take_bytes(s) is Some,
    ensures
        ({
            let (x, r) = take_bytes(s)->0;
            x.len() <= u32::MAX && s == enc_bytes(x) + r
        }),
{
    lemma_auto_spec_u32_to_from_le_bytes();
    let (x, r) = take_bytes(s)->0;
    let n = spec_u32_from_le_bytes(s.take(4));
    assert(spec_u32_to_le_bytes(spec_u32_from_le_bytes(s.take(4))) == s.take(4));
    assert(x.len() == n);
    assert(s =~= s.take(4) + (x + r));
}

proof fn lemma_str_back(s: Seq<u8>)
    requires
        take_str(s) is Some,
    ensures
        ({
            let (c, r) = take_str(s)->0;
            str_fits(c) && s == enc_str(c) + r
        }),
{
    lemma_bytes_back(s);
    let (b, r) = take_bytes(s)->0;
    decode_utf8_encode_utf8(b);
}

proof fn lemma_fixed_back(s: Seq<u8>)
    ensures
        take_u16(s) matches Some((x, r)) ==> s == spec_u16_to_le_bytes(x) + r,
        take_u32(s) matches Some((x, r)) ==> s == spec_u32_to_le_bytes(x) + r,
        take_u64(s) matches Some((x, r)) ==> s == spec_u64_to_le_bytes(x) + r,
{
    lemma_auto_spec_u16_to_from_le_bytes();
    lemma_auto_spec_u32_to_from_le_bytes();
    lemma_auto_spec_u64_to_from_le_bytes();
    if s.len() >= 2 {
        assert(spec_u16_to_le_bytes(spec_u16_from_le_bytes(s.take(2))) == s.take(2));
        assert(s =~= s.take(2) + s.skip(2));
    }
    if s.len() >= 4 {
        assert(spec_u32_to_le_bytes(spec_u32_from_le_bytes(s.take(4))) == s.take(4));
        assert(s =~= s.take(4) + s.skip(4));
    }
    if s.len() >= 8 {
        assert(spec_u64_to_le_bytes(spec_u64_from_le_bytes(s.take(8))) == s.take(8));
        assert(s =~= s.take(8) + s.skip(8));
    }
}

proof fn lemma_strs_back(s: Seq<u8>, k: nat)
    requires
        take_strs(s, k) is Some,
    ensures
        ({
            let (xs, r) = take_strs(s, k)->0;
            &&& xs.len() == k
            &&& forall|i: int| 0 <= i < xs.len() ==> str_fits(#[trigger] xs[i])
            &&& s == enc_strs(xs) + r
        }),
    decreases k,
{
    if k == 0 {
        assert(s =~= enc_strs(Seq::<Seq<char>>::empty()) + s);
    } else {
        lemma_strs_back(s, (k - 1) as nat);
        let (ys, r1) = take_strs(s, (k - 1) as nat)->0;
        lemma_str_back(r1);
        let (x, r2) = take_str(r1)->0;
        let xs = ys.push(x);
        assert(xs.drop_last() =~= ys);
        assert(forall|i: int| 0 <= i < ys.len() ==> xs[i] == ys[i]);
        assert(s =~= enc_strs(xs) + r2);
    }
}

proof fn lemma_hello_back(p: Seq<u8>)
    requires
        take_hello(p) matches Some((h, rest)) && rest.len() == 0,
    ensures
        message_fits(MessageModel::Hello((take_hello(p)->0).0)),
        enc_payload(MessageModel::Hello((take_hello(p)->0).0)) == p,
{
    let h = (take_hello(p)->0).0;
    lemma_str_back(p);
    let (v, r1) = take_str(p)->0;
    lemma_fixed_back(r1);
    let (n, r2) = take_u32(r1)->0;
    lemma_strs_back(r2, n as nat);
    let (cs, r3) = take_strs(r2, n as nat)->0;
    lemma_fixed_back(r3);
    let (mps, r4) = take_u32(r3)->0;
    let (f, r5) = take_u8(r4)->0;
    assert(r4 =~= seq![f] + r5);
    if f == 1 {
        lemma_str_back(r5);
        let (tok, r6) = take_str(r5)->0;
        assert(r6 =~= Seq::<u8>::empty());
        assert(enc_opt(h.token) + r6 =~= r4);
    } else {
        assert(r5 =~= Seq::<u8>::empty());
        assert(enc_opt(h.token) =~= r4);
    }
    assert(enc_payload(MessageModel::Hello(h)) =~= p);
}

proof fn lemma_payload_back(k: Tag, p: Seq<u8>)
    requires
        take_payload(k, p) matches Some((m, rest)) && rest.len() == 0,
    ensures
        message_fits((take_payload(k, p)->0).0),
        model_tag((take_payload(k, p)->0).0) == k,
        enc_payload((take_payload(k, p)->0).0) == p,
{
    let (m, rest) = take_payload(k, p)->0;
    assert(rest =~= Seq::<u8>::empty());
    match k {
        Tag::Hello => {
            lemma_hello_back(p);
        },
        Tag::Welcome => {
            lemma_str_back(p);
            let (id, r1) = take_str(p)->0;
            lemma_str_back(r1);
            let (c, r2) = take_str(r1)->0;
            lemma_fixed_back(r2);
            assert(enc_payload(m) =~= p);
        },
        Tag::Ping => {
            lemma_fixed_back(p);
            assert(enc_payload(m) =~= p);
        },
        Tag::Pong => {
            lemma_fixed_back(p);
            assert(enc_payload(m) =~= p);
        },
        Tag::Bye => {
            lemma_str_back(p);
            assert(enc_payload(m) =~= p);
        },
    }
}

/// A body that decodes is exactly the encoding of the message it decodes
/// to: the format has one encoding per message.
pub proof fn lemma_canonical(b: Seq<u8>)
    requires
        parse_model(b) is Ok,
    ensures
        message_fits(parse_model(b)->Ok_0),
        encode_model(parse_model(b)->Ok_0) == b,
{
    lemma_bytes_back(b);
    let (t, p) = take_bytes(b)->0;
    let k = tag_named(t)->0;
    assert(tag_text(k) == t);
    lemma_payload_back(k, p);
}

// ---- executable encoder ----
fn push_all(out: &mut Vec<u8>, b: &[u8])
    ensures
        final(out)@ == old(out)@ + b@,
{
    let ghost start = out@;
    let mut i: usize = 0;
    while i < b.len()
        invariant
            i <= b@.len(),
            out@ == start + b@.take(i as int),
        decreases b@.len() - i,
    {
        out.push(b[i]);
        i = i + 1;
        assert(b@.take(i as int) =~= b@.take(i - 1) + seq![b@[i - 1]]);
        assert(out@ =~= start + b@.take(i as int));
    }
    assert(b@.take(i as int) =~= b@);
}

fn put_u16(out: &mut Vec<u8>, x: u16)
    ensures
        final(out)@ == old(out)@ + spec_u16_to_le_bytes(x),
{
    let v = u16_to_le_bytes(x);
    push_all(out, v.as_slice());
}

fn put_u32(out: &mut Vec<u8>, x: u32)
    ensures
        final(out)@ == old(out)@ + spec_u32_to_le_bytes(x),
{
    let v = u32_to_le_bytes(x);
    push_all(out, v.as_slice());
}

fn put_u64(out: &mut Vec<u8>, x: u64)
    ensures
        final(out)@ == old(out)@ + spec_u64_to_le_bytes(x),
{
    let v = u64_to_le_bytes(x);
    push_all(out, v.as_slice());
}

fn put_bytes(out: &mut Vec<u8>, b: &[u8])
    requires
        b@.len() <= u32::MAX,
    ensures
        final(out)@ == old(out)@ + enc_bytes(b@),
{
    let ghost start = out@;
    put_u32(out, b.len() as u32);
    push_all(out, b);
    assert(out@ =~= start + enc_bytes(b@));
}

fn put_str(out: &mut Vec<u8>, s: &String)
    requires
        str_fits(s@),
    ensures
        final(out)@ == old(out)@ + enc_str(s@),
{
    put_bytes(out, s.as_str().as_bytes());
}

fn put_tag(out: &mut Vec<u8>, t: Tag)
    ensures
        final(out)@ == old(out)@ + enc_bytes(tag_text(t)),
{
    let ghost start = out@;
    let mut text: Vec<u8> = Vec::new();
    match t {
        Tag::Hello => {
            text.push(72);
            text.push(69);
            text.push(76);
            text.push(76);
            text.push(79);
        },
        Tag::Welcome => {
            text.push(87);
            text.push(69);
            text.push(76);
            text.push(67);
            text.push(79);
            text.push(77);
            text.push(69);
        },
        Tag::Ping => {
            text.push(80);
            text.push(73);
            text.push(78);
            text.push(71);
        },
        Tag::Pong => {
            text.push(80);
            text.push(79);
            text.push(78);
            text.push(71);
        },
        Tag::Bye => {
            text.push(66);
            text.push(89);
            text.push(69);
        },
    }
    assert(text@ =~= tag_text(t));
    put_bytes(out, text.as_slice());
}

/// Whether every length and count of `m` fits its `u32` prefix, so that
/// `encode` accepts it.
pub fn fits(m: &ControlMessage) -> (r: bool)
    ensures
        r == message_fits(m@),
{
    broadcast use vstd::std_specs::vec::group_vec_axioms;
    match m {
        ControlMessage::Hello(h) => {
            assert(m@ == MessageModel::Hello(h@));
            if h.version.as_str().as_bytes().len() > 0xffff_ffff {
                return false;
            }
            let n = h.supported_codecs.len();
            assert(h@.supported_codecs.len() == n);
            if n > 0xffff_ffff {
                return false;
            }
            let mut i: usize = 0;
            while i < n
                invariant
                    n == h.supported_codecs@.len(),
                    n == h@.supported_codecs.len(),
                    m@ == MessageModel::Hello(h@),
                    i <= n,
                    forall|j: int| 0 <= j < i ==> str_fits(#[trigger] h@.supported_codecs[j]),
                decreases n - i,
            {
                assert(h@.supported_codecs[i as int] == h.supported_codecs@[i as int]@);
                if h.supported_codecs[i].as_str().as_bytes().len() > 0xffff_ffff {
                    assert(!str_fits(h@.supported_codecs[i as int]));
                    return false;
                }
                i = i + 1;
            }
            match &h.token {
                Some(t) => t.as_str().as_bytes().len() <= 0xffff_ffff,
                None => true,
            }
        },
        ControlMessage::Welcome(w) => {
            w.session_id.as_str().as_bytes().len() <= 0xffff_ffff
                && w.codec.as_str().as_bytes().len() <= 0xffff_ffff
        },
        ControlMessage::Ping { .. } => true,
        ControlMessage::Pong { .. } => true,
        ControlMessage::Bye { reason } => reason.as_str().as_bytes().len() <= 0xffff_ffff,
    }
}

/// Encodes a message as a body (without the frame's length prefix).
pub fn encode(m: &ControlMessage) -> (r: Vec<u8>)
    requires
        message_fits(m@),
    ensures
        r@ == encode_model(m@),
{
    let mut out: Vec<u8> = Vec::new();
    match m {
        ControlMessage::Hello(h) => {
            put_tag(&mut out, Tag::Hello);
            put_str(&mut out, &h.version);
            let n = h.supported_codecs.len();
            put_u32(&mut out, n as u32);
            let ghost mid = out@;
            let mut i: usize = 0;
            while i < n
                invariant
                    n == h.supported_codecs@.len(),
                    n <= u32::MAX,
                    i <= n,
                    forall|j: int| 0 <= j < n ==> str_fits(#[trigger] h@.supported_codecs[j]),
                    out@ == mid + enc_strs(h@.supported_codecs.take(i as int)),
                decreases n - i,
            {
                proof {
                    let cs = h@.supported_codecs;
                    assert(cs.take(i + 1).drop_last() =~= cs.take(i as int));
                    assert(cs.take(i + 1).last() == cs[i as int]);
                }
                put_str(&mut out, &h.supported_codecs[i]);
                i = i + 1;
            }
            assert(h@.supported_codecs.take(n as int) =~= h@.supported_codecs);
            put_u32(&mut out, h.max_packet_size);
            match &h.token {
                Some(t) => {
                    out.push(1);
                    put_str(&mut out, t);
                },
                None => {
                    out.push(0);
                },
            }
        },
        ControlMessage::Welcome(w) => {
            put_tag(&mut out, Tag::Welcome);
            put_str(&mut out, &w.session_id);
            put_str(&mut out, &w.codec);
            put_u16(&mut out, w.port);
        },
        ControlMessage::Ping { timestamp } => {
            put_tag(&mut out, Tag::Ping);
            put_u64(&mut out, *timestamp);
        },
        ControlMessage::Pong { timestamp } => {
            put_tag(&mut out, Tag::Pong);
            put_u64(&mut out, *timestamp);
        },
        ControlMessage::Bye { reason } => {
            put_tag(&mut out, Tag::Bye);
            put_str(&mut out, reason);
        },
    }
    assert(out@ =~= encode_model(m@));
    out
}

// ---- executable decoder ----
/// Relies on `String::from_utf8`: it accepts exactly the valid UTF-8 byte
/// strings, and the string it returns holds the characters they encode.
#[verifier::external_body]
fn string_from_utf8(b: Vec<u8>) -> (r: Option<String>)
    ensures
        r is Some <==> valid_utf8(b@),
        r matches Some(s) ==> s@ == decode_utf8(b@),
{
    String::from_utf8(b).ok()
}

/// `r` is the reader's outcome at `pos` of `b` for the expected `(value, rest)`.
pub open spec fn read_as<T>(r: Option<(T, usize)>, expect: Option<(T, Seq<u8>)>, b: Seq<u8>) -> bool {
    match expect {
        None => r is None,
        Some((v, rest)) => r matches Some((x, np)) && x == v && np <= b.len() && b.skip(
            np as int,
        ) == rest,
    }
}

fn get_u8(b: &[u8], pos: usize) -> (r: Option<(u8, usize)>)
    requires
        pos <= b@.len(),
    ensures
        read_as(r, take_u8(b@.skip(pos as int)), b@),
{
    if pos < b.len() {
        assert(b@.skip(pos as int).skip(1) =~= b@.skip(pos + 1));
        Some((b[pos], pos + 1))
    } else {
        None
    }
}

fn get_u16(b: &[u8], pos: usize) -> (r: Option<(u16, usize)>)
    requires
        pos <= b@.len(),
    ensures
        read_as(r, take_u16(b@.skip(pos as int)), b@),
{
    if b.len() - pos >= 2 {
        let x = u16_from_le_bytes(slice_subrange(b, pos, pos + 2));
        assert(b@.skip(pos as int).take(2) =~= b@.subrange(pos as int, pos + 2));
        assert(b@.skip(pos as int).skip(2) =~= b@.skip(pos + 2));
        Some((x, pos + 2))
    } else {
        None
    }
}

fn get_u32(b: &[u8], pos: usize) -> (r: Option<(u32, usize)>)
    requires
        pos <= b@.len(),
    ensures
        read_as(r, take_u32(b@.skip(pos as int)), b@),
{
    if b.len() - pos >= 4 {
        let x = u32_from_le_bytes(slice_subrange(b, pos, pos + 4));
        assert(b@.skip(pos as int).take(4) =~= b@.subrange(pos as int, pos + 4));
        assert(b@.skip(pos as int).skip(4) =~= b@.skip(pos + 4));
        Some((x, pos + 4))
    } else {
        None
    }
}

fn get_u64(b: &[u8], pos: usize) -> (r: Option<(u64, usize)>)
    requires
        pos <= b@.len(),
    ensures
        read_as(r, take_u64(b@.skip(pos as int)), b@),
{
    if b.len() - pos >= 8 {
        let x = u64_from_le_bytes(slice_subrange(b, pos, pos + 8));
        assert(b@.skip(pos as int).take(8) =~= b@.subrange(pos as int, pos + 8));
        assert(b@.skip(pos as int).skip(8) =~= b@.skip(pos + 8));
        Some((x, pos + 8))
    } else {
        None
    }
}

/// Reads a length-prefixed byte string; returns where its bytes start and end.
fn get_bytes(b: &[u8], pos: usize) -> (r: Option<(usize, usize)>)
    requires
        pos <= b@.len(),
    ensures
        match take_bytes(b@.skip(pos as int)) {
            None => r is None,
            Some((v, rest)) => r matches Some((st, en)) && st <= en <= b@.len() && b@.subrange(
                st as int,
                en as int,
            ) == v && b@.skip(en as int) == rest,
        },
{
    match get_u32(b, pos) {
        None => None,
        Some((n, p)) => {
            if n as usize <= b.len() - p {
                let en = p + n as usize;
                assert(b@.skip(p as int).take(n as int) =~= b@.subrange(p as int, en as int));
                assert(b@.skip(p as int).skip(n as int) =~= b@.skip(en as int));
                Some((p, en))
            } else {
                None
            }
        },
    }
}

fn get_str(b: &[u8], pos: usize) -> (r: Option<(String, usize)>)
    requires
        pos <= b@.len(),
    ensures
        match take_str(b@.skip(pos as int)) {
            None => r is None,
            Some((v, rest)) => r matches Some((x, np)) && x@ == v && np <= b@.len() && b@.skip(
                np as int,
            ) == rest,
        },
{
    match get_bytes(b, pos) {
        None => None,
        Some((st, en)) => {
            let v = slice_to_vec(slice_subrange(b, st, en));
            match string_from_utf8(v) {
                None => None,
                Some(x) => Some((x, en)),
            }
        },
    }
}

fn get_strs(b: &[u8], pos: usize, k: u32) -> (r: Option<(Vec<String>, usize)>)
    requires
        pos <= b@.len(),
    ensures
        match take_strs(b@.skip(pos as int), k as nat) {
            None => r is None,
            Some((v, rest)) => r matches Some((x, np)) && x.deep_view() == v && np <= b@.len()
                && b@.skip(np as int) == rest,
        },
{
    let mut out: Vec<String> = Vec::new();
    let mut p = pos;
    let mut i: u32 = 0;
    while i < k
        invariant
            i <= k,
            p <= b@.len(),
            take_strs(b@.skip(pos as int), i as nat) == Some((out.deep_view(), b@.skip(p as int))),
        decreases k - i,
    {
        proof {
            lemma_take_strs_grow(b@.skip(pos as int), i as nat);
        }
        match get_str(b, p) {
            None => {
                proof {
                    lemma_take_strs_stuck(b@.skip(pos as int), (i + 1) as nat, k as nat);
                }
                return None;
            },
            Some((x, np)) => {
                let ghost before = out.deep_view();
                out.push(x);
                assert(out.deep_view() =~= before.push(x@));
                p = np;
                i = i + 1;
            },
        }
    }
    Some((out, p))
}

proof fn lemma_take_strs_grow(s: Seq<u8>, i: nat)
    ensures
        take_strs(s, i + 1) == match take_strs(s, i) {
            Some((xs, r)) => match take_str(r) {
                Some((x, r2)) => Some((xs.push(x), r2)),
                None => None,
            },
            None => None,
        },
{
}

proof fn lemma_take_strs_stuck(s: Seq<u8>, i: nat, k: nat)
    requires
        take_strs(s, i) is None,
        i <= k,
    ensures
        take_strs(s, k) is None,
    decreases k - i,
{
    if i < k {
        lemma_take_strs_stuck(s, i + 1, k);
    }
}

fn tag_at(b: &[u8], st: usize, en: usize) -> (r: Option<Tag>)
    requires
        st <= en <= b@.len(),
    ensures
        r == tag_named(b@.subrange(st as int, en as int)),
{
    let ghost t = b@.subrange(st as int, en as int);
    let n = en - st;
    if n == 5 && b[st] == 72 && b[st + 1] == 69 && b[st + 2] == 76 && b[st + 3] == 76 && b[st + 4]
        == 79 {
        assert(t =~= tag_text(Tag::Hello));
        return Some(Tag::Hello);
    }
    if n == 7 && b[st] == 87 && b[st + 1] == 69 && b[st + 2] == 76 && b[st + 3] == 67 && b[st + 4]
        == 79 && b[st + 5] == 77 && b[st + 6] == 69 {
        assert(t =~= tag_text(Tag::Welcome));
        return Some(Tag::Welcome);
    }
    if n == 4 && b[st] == 80 && b[st + 1] == 73 && b[st + 2] == 78 && b[st + 3] == 71 {
        assert(t =~= tag_text(Tag::Ping));
        return Some(Tag::Ping);
    }
    if n == 4 && b[st] == 80 && b[st + 1] == 79 && b[st + 2] == 78 && b[st + 3] == 71 {
        assert(t =~= tag_text(Tag::Pong));
        return Some(Tag::Pong);
    }
    if n == 3 && b[st] == 66 && b[st + 1] == 89 && b[st + 2] == 69 {
        assert(t =~= tag_text(Tag::Bye));
        return Some(Tag::Bye);
    }
    assert forall|i: int| 0 <= i < n implies t[i] == b@[st + i] by {}
    assert(t != tag_text(Tag::Hello)) by {
        let w = tag_text(Tag::Hello);
        assert(w.len() == 5 && w[0] == 72 && w[1] == 69 && w[2] == 76 && w[3] == 76 && w[4] == 79);
    }
    assert(t != tag_text(Tag::Welcome)) by {
        let w = tag_text(Tag::Welcome);
        assert(w.len() == 7 && w[0] == 87 && w[1] == 69 && w[2] == 76 && w[3] == 67 && w[4] == 79 && w[5] == 77 && w[6] == 69);
    }
    assert(t != tag_text(Tag::Ping)) by {
        let w = tag_text(Tag::Ping);
        assert(w.len() == 4 && w[0] == 80 && w[1] == 73 && w[2] == 78 && w[3] == 71);
    }
    assert(t != tag_text(Tag::Pong)) by {
        let w = tag_text(Tag::Pong);
        assert(w.len() == 4 && w[0] == 80 && w[1] == 79 && w[2] == 78 && w[3] == 71);
    }
    assert(t != tag_text(Tag::Bye)) by {
        let w = tag_text(Tag::Bye);
        assert(w.len() == 3 && w[0] == 66 && w[1] == 89 && w[2] == 69);
    }
    None
}

fn get_hello(b: &[u8], pos: usize) -> (r: Option<(Hello, usize)>)
    requires
        pos <= b@.len(),
    ensures
        match take_hello(b@.skip(pos as int)) {
            None => r is None,
            Some((v, rest)) => r matches Some((x, np)) && x@ == v && np <= b@.len() && b@.skip(
                np as int,
            ) == rest,
        },
{
    let (version, p1) = match get_str(b, pos) {
        None => return None,
        Some(x) => x,
    };
    let (n, p2) = match get_u32(b, p1) {
        None => return None,
        Some(x) => x,
    };
    let (supported_codecs, p3) = match get_strs(b, p2, n) {
        None => return None,
        Some(x) => x,
    };
    let (max_packet_size, p4) = match get_u32(b, p3) {
        None => return None,
        Some(x) => x,
    };
    let (flag, p5) = match get_u8(b, p4) {
        None => return None,
        Some(x) => x,
    };
    if flag == 0 {
        Some((Hello { version, supported_codecs, max_packet_size, token: None }, p5))
    } else if flag == 1 {
        match get_str(b, p5) {
            None => None,
            Some((t, p6)) => Some(
                (Hello { version, supported_codecs, max_packet_size, token: Some(t) }, p6),
            ),
        }
    } else {
        None
    }
}

fn get_welcome(b: &[u8], pos: usize) -> (r: Option<(Welcome, usize)>)
    requires
        pos <= b@.len(),
    ensures
        match take_welcome(b@.skip(pos as int)) {
            None => r is None,
            Some((v, rest)) => r matches Some((x, np)) && x@ == v && np <= b@.len() && b@.skip(
                np as int,
            ) == rest,
        },
{
    let (session_id, p1) = match get_str(b, pos) {
        None => return None,
        Some(x) => x,
    };
    let (codec, p2) = match get_str(b, p1) {
        None => return None,
        Some(x) => x,
    };
    match get_u16(b, p2) {
        None => None,
        Some((port, p3)) => Some((Welcome { session_id, codec, port }, p3)),
    }
}

/// The model of a decoding outcome.
pub open spec fn decoded(r: Result<ControlMessage, DecodeError>) -> Result<MessageModel, DecodeError> {
    match r {
        Ok(m) => Ok(m@),
        Err(e) => Err(e),
    }
}

/// Decodes a body. Fails with `UnknownVariant` when the discriminator is
/// well formed but names no known variant, and with `Malformed` on any
/// other input that is not exactly the encoding of a message.
pub fn decode(b: &[u8]) -> (r: Result<ControlMessage, DecodeError>)
    ensures
        decoded(r) == parse_model(b@),
        r matches Ok(m) ==> message_fits(m@) && encode_model(m@) == b@,
{
    assert(b@.skip(0) =~= b@);
    let (st, en) = match get_bytes(b, 0) {
        None => return Err(DecodeError::Malformed),
        Some(x) => x,
    };
    let tag = match tag_at(b, st, en) {
        None => return Err(DecodeError::UnknownVariant),
        Some(t) => t,
    };
    let parsed: Option<(ControlMessage, usize)> = match tag {
        Tag::Hello => match get_hello(b, en) {
            None => None,
            Some((h, p)) => Some((ControlMessage::Hello(h), p)),
        },
        Tag::Welcome => match get_welcome(b, en) {
            None => None,
            Some((w, p)) => Some((ControlMessage::Welcome(w), p)),
        },
        Tag::Ping => match get_u64(b, en) {
            None => None,
            Some((x, p)) => Some((ControlMessage::Ping { timestamp: x }, p)),
        },
        Tag::Pong => match get_u64(b, en) {
            None => None,
            Some((x, p)) => Some((ControlMessage::Pong { timestamp: x }, p)),
        },
        Tag::Bye => match get_str(b, en) {
            None => None,
            Some((x, p)) => Some((ControlMessage::Bye { reason: x }, p)),
        },
    };
    match parsed {
        None => Err(DecodeError::Malformed),
        Some((m, p)) => {
            if p == b.len() {
                proof {
                    lemma_canonical(b@);
                }
                Ok(m)
            } else {
                Err(DecodeError::Malformed)
            }
        },
    }
}

} // verus!
