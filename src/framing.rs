//! Length-prefixed framing of bodies on the control channel: each frame is a
//! 4-byte big-endian length followed by that many bytes of body.
use vstd::prelude::*;
use vstd::bytes::*;

verus! {

/// Ceiling on a frame's body before a maximum packet size is negotiated.
pub const SAFETY_CEILING: u32 = 65536;

pub open spec fn be_bytes(x: u32) -> Seq<u8> {
    let l = spec_u32_to_le_bytes(x);
    seq![l[3], l[2], l[1], l[0]]
}

/// The value of the first four bytes of `s`, big-endian.
pub open spec fn be_value(s: Seq<u8>) -> u32 {
    spec_u32_from_le_bytes(seq![s[3], s[2], s[1], s[0]])
}

/// The frame that carries `body`.
pub open spec fn frame_model(body: Seq<u8>) -> Seq<u8> {
    be_bytes(body.len() as u32) + body
}

/// The frames of `xs`, one after another.
pub open spec fn frames_concat(xs: Seq<Seq<u8>>) -> Seq<u8>
    decreases xs.len(),
{
    if xs.len() == 0 {
        seq![]
    } else {
        frame_model(xs[0]) + frames_concat(xs.skip(1))
    }
}

/// Whether `s` begins with a whole header.
pub open spec fn has_header(s: Seq<u8>) -> bool {
    s.len() >= 4
}

/// Whether `s` begins with a whole frame whose body is within `limit`.
pub open spec fn has_frame(s: Seq<u8>, limit: u32) -> bool {
    has_header(s) && be_value(s) <= limit && s.len() >= 4 + be_value(s)
}

/// Whether `s` begins with a header that announces more than `limit` bytes.
pub open spec fn oversized(s: Seq<u8>, limit: u32) -> bool {
    has_header(s) && be_value(s) > limit
}

/// The bodies of the complete frames at the front of `s`, up to the first
/// frame that is incomplete or over `limit`.
pub open spec fn frames(s: Seq<u8>, limit: u32) -> Seq<Seq<u8>>
    decreases s.len(),
{
    if has_frame(s, limit) {
        let n = be_value(s) as int;
        seq![s.subrange(4, 4 + n)] + frames(s.skip(4 + n), limit)
    } else {
        seq![]
    }
}

proof fn lemma_be(x: u32)
    ensures
        be_bytes(x).len() == 4,
        forall|r: Seq<u8>| #[trigger] be_value(be_bytes(x) + r) == x,
{
    lemma_auto_spec_u32_to_from_le_bytes();
    let l = spec_u32_to_le_bytes(x);
    assert forall|r: Seq<u8>| #[trigger] be_value(be_bytes(x) + r) == x by {
        let s = be_bytes(x) + r;
        assert(seq![s[3], s[2], s[1], s[0]] =~= l);
    }
}

/// Whatever follows them, a run of frames whose bodies are within `limit`
/// reads back as exactly those bodies, in order, with nothing lost or doubled.
pub proof fn lemma_frames_of_stream(xs: Seq<Seq<u8>>, t: Seq<u8>, limit: u32)
    requires
        forall|i: int| 0 <= i < xs.len() ==> #[trigger] xs[i].len() <= limit,
    ensures
        frames(frames_concat(xs) + t, limit) == xs + frames(t, limit),
    decreases xs.len(),
{
    if xs.len() == 0 {
        assert(frames_concat(xs) + t =~= t);
        assert(xs + frames(t, limit) =~= frames(t, limit));
    } else {
        let x = xs[0];
        let tail = xs.skip(1);
        assert forall|i: int| 0 <= i < tail.len() implies #[trigger] tail[i].len() <= limit by {
            assert(tail[i] == xs[i + 1]);
        }
        lemma_frames_of_stream(tail, t, limit);
        assert(x.len() <= limit);
        lemma_be(x.len() as u32);
        let s = frames_concat(xs) + t;
        let rest = frames_concat(tail) + t;
        assert(s =~= be_bytes(x.len() as u32) + (x + rest));
        assert(be_value(s) == x.len());
        assert(s.subrange(4, 4 + x.len() as int) =~= x);
        assert(s.skip(4 + x.len() as int) =~= rest);
        assert(xs + frames(t, limit) =~= seq![x] + (tail + frames(t, limit)));
    }
}

/// Builds the frame that carries `body`.
pub fn frame(body: &[u8]) -> (r: Vec<u8>)
    requires
        body@.len() <= u32::MAX,
    ensures
        r@ == frame_model(body@),
{
    let l = u32_to_le_bytes(body.len() as u32);
    let mut out: Vec<u8> = Vec::new();
    out.push(l[3]);
    out.push(l[2]);
    out.push(l[1]);
    out.push(l[0]);
    let mut i: usize = 0;
    while i < body.len()
        invariant
            i <= body@.len(),
            out@ == be_bytes(body@.len() as u32) + body@.take(i as int),
        decreases body@.len() - i,
    {
        out.push(body[i]);
        i = i + 1;
        assert(out@ =~= be_bytes(body@.len() as u32) + body@.take(i as int));
    }
    assert(body@.take(i as int) =~= body@);
    out
}

/// What `FrameReader::next_frame` found.
pub enum FrameOutcome {
    /// The body of the next complete frame.
    Frame(Vec<u8>),
    /// No complete frame is buffered yet.
    Pending,
    /// A header announced more than the limit; the reader is closed.
    TooLarge,
}

/// Reassembles frames from a byte stream that arrives in arbitrary pieces.
pub struct FrameReader {
    pending: Vec<u8>,
    limit: u32,
    closed: bool,
    /// Every byte fed while open.
    received: Ghost<Seq<u8>>,
    /// Every body handed out.
    delivered: Ghost<Seq<Seq<u8>>>,
}

impl FrameReader {
    pub closed spec fn pending(&self) -> Seq<u8> {
        self.pending@
    }

    pub closed spec fn limit(&self) -> u32 {
        self.limit
    }

    pub closed spec fn is_closed(&self) -> bool {
        self.closed
    }

    pub closed spec fn received(&self) -> Seq<u8> {
        self.received@
    }

    pub closed spec fn delivered(&self) -> Seq<Seq<u8>> {
        self.delivered@
    }

    /// The bytes received so far are the frames handed out followed by the
    /// pending bytes; so the bodies handed out, then those still buffered,
    /// are the frames of everything received.
    pub open spec fn wf(&self) -> bool {
        &&& self.received() == frames_concat(self.delivered()) + self.pending()
        &&& forall|i: int|
            0 <= i < self.delivered().len() ==> #[trigger] self.delivered()[i].len()
                <= self.limit()
        &&& self.delivered() + frames(self.pending(), self.limit()) == frames(
            self.received(),
            self.limit(),
        )
        &&& self.is_closed() ==> oversized(self.pending(), self.limit())
    }

    /// A reader whose frames may carry at most `limit` bytes of body.
    pub fn new(limit: u32) -> (r: Self)
        ensures
            r.wf(),
            r.pending() == Seq::<u8>::empty(),
            r.received() == Seq::<u8>::empty(),
            r.delivered() == Seq::<Seq<u8>>::empty(),
            r.limit() == limit,
            !r.is_closed(),
    {
        let r = FrameReader {
            pending: Vec::new(),
            limit,
            closed: false,
            received: Ghost(Seq::empty()),
            delivered: Ghost(Seq::empty()),
        };
        assert(frames_concat(Seq::<Seq<u8>>::empty()) + Seq::<u8>::empty() =~= Seq::<u8>::empty());
        assert(Seq::<Seq<u8>>::empty() + frames(Seq::<u8>::empty(), limit) =~= frames(
            Seq::<u8>::empty(),
            limit,
        ));
        r
    }

    /// Switches to the limit negotiated for the session. The frames already
    /// handed out are left behind: the history restarts at the pending bytes.
    /// A closed reader stays as it is.
    pub fn set_limit(&mut self, limit: u32)
        requires
            old(self).wf(),
        ensures
            final(self).wf(),
            final(self).pending() == old(self).pending(),
            final(self).is_closed() == old(self).is_closed(),
            old(self).is_closed() ==> *final(self) == *old(self),
            !old(self).is_closed() ==> {
                &&& final(self).limit() == limit
                &&& final(self).received() == old(self).pending()
                &&& final(self).delivered() == Seq::<Seq<u8>>::empty()
            },
    {
        if self.closed {
            return;
        }
        self.limit = limit;
        self.received = Ghost(self.pending@);
        self.delivered = Ghost(Seq::empty());
        assert(frames_concat(Seq::<Seq<u8>>::empty()) + self.pending@ =~= self.pending@);
        assert(Seq::<Seq<u8>>::empty() + frames(self.pending@, limit) =~= frames(
            self.pending@,
            limit,
        ));
    }

    pub fn is_open(&self) -> (r: bool)
        ensures
            r == !self.is_closed(),
    {
        !self.closed
    }

    /// Appends received bytes; a closed reader drops them.
    pub fn feed(&mut self, data: &[u8])
        requires
            old(self).wf(),
        ensures
            final(self).wf(),
            final(self).limit() == old(self).limit(),
            final(self).is_closed() == old(self).is_closed(),
            final(self).delivered() == old(self).delivered(),
            old(self).is_closed() ==> final(self).received() == old(self).received()
                && final(self).pending() == old(self).pending(),
            !old(self).is_closed() ==> final(self).received() == old(self).received() + data@
                && final(self).pending() == old(self).pending() + data@,
    {
        if self.closed {
            return;
        }
        let ghost p0 = self.pending@;
        let mut i: usize = 0;
        while i < data.len()
            invariant
                i <= data@.len(),
                self.pending@ == p0 + data@.take(i as int),
                self.received@ == old(self).received@,
                self.delivered@ == old(self).delivered@,
                self.limit == old(self).limit,
                self.closed == old(self).closed,
            decreases data@.len() - i,
        {
            self.pending.push(data[i]);
            i = i + 1;
            assert(self.pending@ =~= p0 + data@.take(i as int));
        }
        assert(data@.take(i as int) =~= data@);
        let ghost r0 = self.received@;
        self.received = Ghost(r0 + data@);
        proof {
            let d = self.delivered@;
            assert(self.received@ =~= frames_concat(d) + self.pending@);
            lemma_frames_of_stream(d, self.pending@, self.limit);
        }
    }

    /// Takes the next complete frame off the buffer.
    pub fn next_frame(&mut self) -> (r: FrameOutcome)
        requires
            old(self).wf(),
        ensures
            final(self).wf(),
            final(self).limit() == old(self).limit(),
            final(self).received() == old(self).received(),
            match r {
                FrameOutcome::Frame(body) => {
                    &&& !old(self).is_closed()
                    &&& has_frame(old(self).pending(), old(self).limit())
                    &&& frames(old(self).pending(), old(self).limit()) == seq![body@] + frames(
                        final(self).pending(),
                        final(self).limit(),
                    )
                    &&& final(self).delivered() == old(self).delivered().push(body@)
                    &&& final(self).pending() == old(self).pending().skip(4 + body@.len() as int)
                    &&& !final(self).is_closed()
                },
                FrameOutcome::Pending => {
                    &&& !old(self).is_closed()
                    &&& !has_frame(old(self).pending(), old(self).limit())
                    &&& !oversized(old(self).pending(), old(self).limit())
                    &&& frames(old(self).pending(), old(self).limit()) == Seq::<Seq<u8>>::empty()
                    &&& *final(self) == *old(self)
                },
                FrameOutcome::TooLarge => {
                    &&& oversized(old(self).pending(), old(self).limit())
                    &&& final(self).is_closed()
                    &&& final(self).pending() == old(self).pending()
                    &&& final(self).delivered() == old(self).delivered()
                },
            },
    {
        if self.closed {
            return FrameOutcome::TooLarge;
        }
        let n = self.pending.len();
        if n < 4 {
            return FrameOutcome::Pending;
        }
        let mut h: Vec<u8> = Vec::new();
        h.push(self.pending[3]);
        h.push(self.pending[2]);
        h.push(self.pending[1]);
        h.push(self.pending[0]);
        let len = u32_from_le_bytes(h.as_slice());
        assert(h@ =~= seq![self.pending@[3], self.pending@[2], self.pending@[1], self.pending@[0]]);
        if len > self.limit {
            self.closed = true;
            return FrameOutcome::TooLarge;
        }
        if n - 4 < len as usize {
            return FrameOutcome::Pending;
        }
        let end = 4 + len as usize;
        let mut body: Vec<u8> = Vec::new();
        let mut i: usize = 4;
        while i < end
            invariant
                4 <= i <= end <= n,
                n == self.pending@.len(),
                body@ == self.pending@.subrange(4, i as int),
            decreases end - i,
        {
            body.push(self.pending[i]);
            i = i + 1;
            assert(body@ =~= self.pending@.subrange(4, i as int));
        }
        let mut rest: Vec<u8> = Vec::new();
        let mut j: usize = end;
        while j < n
            invariant
                end <= j <= n,
                n == self.pending@.len(),
                rest@ == self.pending@.subrange(end as int, j as int),
            decreases n - j,
        {
            rest.push(self.pending[j]);
            j = j + 1;
            assert(rest@ =~= self.pending@.subrange(end as int, j as int));
        }
        let ghost p0 = self.pending@;
        let ghost d0 = self.delivered@;
        assert(rest@ =~= p0.skip(end as int));
        self.pending = rest;
        self.delivered = Ghost(d0.push(body@));
        proof {
            let d1 = self.delivered@;
            assert(p0 =~= frame_model(body@) + self.pending@) by {
                lemma_auto_spec_u32_to_from_le_bytes();
                let l = spec_u32_to_le_bytes(len);
                assert(spec_u32_to_le_bytes(spec_u32_from_le_bytes(h@)) == h@);
                assert(be_bytes(len) =~= p0.take(4));
            }
            lemma_frames_concat_push(d0, body@);
            assert(frames_concat(d1) + self.pending@ =~= frames_concat(d0) + p0);
            assert forall|i: int| 0 <= i < d1.len() implies #[trigger] d1[i].len() <= self.limit by {
                if i < d0.len() {
                    assert(d1[i] == d0[i]);
                }
            }
            assert(d1 + frames(self.pending@, self.limit) =~= d0 + frames(p0, self.limit));
        }
        FrameOutcome::Frame(body)
    }
}

/// However the received bytes were split into pieces by `feed`, once
/// `next_frame` reports `Pending` the bodies handed out are exactly the
/// frames of all the bytes received, in order, none lost or repeated.
pub proof fn lemma_drained_reader(r: FrameReader)
    requires
        r.wf(),
        !has_frame(r.pending(), r.limit()),
    ensures
        r.delivered() == frames(r.received(), r.limit()),
{
    assert(frames(r.pending(), r.limit()) =~= Seq::<Seq<u8>>::empty());
    assert(r.delivered() + frames(r.pending(), r.limit()) =~= r.delivered());
}

proof fn lemma_frames_concat_push(xs: Seq<Seq<u8>>, x: Seq<u8>)
    ensures
        frames_concat(xs.push(x)) == frames_concat(xs) + frame_model(x),
    decreases xs.len(),
{
    if xs.len() == 0 {
        assert(xs.push(x).skip(1) =~= Seq::<Seq<u8>>::empty());
        assert(xs.push(x)[0] == x);
        assert(frames_concat(xs.push(x)) == frame_model(x) + frames_concat(xs.push(x).skip(1)));
        assert(frames_concat(xs.push(x).skip(1)) == Seq::<u8>::empty());
        assert(frames_concat(xs) == Seq::<u8>::empty());
        assert(frames_concat(xs.push(x)) =~= frames_concat(xs) + frame_model(x));
    } else {
        lemma_frames_concat_push(xs.skip(1), x);
        assert(xs.push(x).skip(1) =~= xs.skip(1).push(x));
        assert(xs.push(x)[0] == xs[0]);
        assert(frames_concat(xs.push(x)) == frame_model(xs[0]) + frames_concat(xs.skip(1).push(x)));
        assert(frames_concat(xs) == frame_model(xs[0]) + frames_concat(xs.skip(1)));
        assert(frames_concat(xs.push(x)) =~= frames_concat(xs) + frame_model(x));
    }
}

} // verus!
