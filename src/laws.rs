//! Properties of the protocol that span several transitions.
use vstd::prelude::*;
use crate::message::MessageModel;
use crate::message::HelloModel;
use crate::negotiation::{first_common, lemma_first_common};
use crate::session::{
    ActionModel, CapabilitiesModel, EndReason, EventModel, Phase, Role, SessionModel, Timing,
    before_active, hello_of, initial_model, on_hello, step_model, token_ok,
};

verus! {

/// The message of a transition's first action, when that action is a send.
pub open spec fn first_sent(acts: Seq<ActionModel>) -> Option<MessageModel> {
    if acts.len() > 0 && acts[0] is Send {
        Some(acts[0]->Send_0)
    } else {
        None
    }
}

/// Whether any of `acts` reports an established session.
pub open spec fn establishes(acts: Seq<ActionModel>) -> bool {
    exists|i: int| 0 <= i < acts.len() && #[trigger] acts[i] is Established
}

/// The Hello/Welcome exchange between an initiator with `ic` and a responder
/// with `rc` that assigns `id`: both channels become ready, the responder
/// takes the initiator's Hello, and the initiator takes the responder's
/// reply. Returns the initiator and responder afterwards and what each did.
pub open spec fn exchange(
    ic: CapabilitiesModel,
    rc: CapabilitiesModel,
    timing: Timing,
    id: Seq<char>,
    now: u64,
) -> (SessionModel, SessionModel, Seq<ActionModel>, Seq<ActionModel>) {
    let i0 = initial_model(Role::Initiator, ic, timing, Seq::empty());
    let r0 = initial_model(Role::Responder, rc, timing, id);
    let (i1, ia) = step_model(i0, EventModel::ChannelReady(now));
    let (r1, ra) = step_model(r0, EventModel::ChannelReady(now));
    let (r2, rb) = step_model(r1, EventModel::Received(first_sent(ia)->0, now));
    let (i2, ib) = step_model(i1, EventModel::Received(first_sent(rb)->0, now));
    (i2, r2, ia + ib, ra + rb)
}

/// When versions agree, the token is accepted and the codec lists share an
/// entry, both sides become active with the responder's id, which is not
/// empty, and with the first shared codec in the initiator's order.
pub proof fn lemma_handshake_success(
    ic: CapabilitiesModel,
    rc: CapabilitiesModel,
    timing: Timing,
    id: Seq<char>,
    now: u64,
)
    requires
        ic.version == rc.version,
        token_ok(rc, hello_of(ic)),
        first_common(ic.codecs, rc.codecs) is Some,
        id.len() > 0,
    ensures
        ({
            let (i, r, ia, ra) = exchange(ic, rc, timing, id, now);
            let c = first_common(ic.codecs, rc.codecs)->0;
            &&& i.phase == Phase::Active
            &&& r.phase == Phase::Active
            &&& i.session_id == Some(id)
            &&& r.session_id == Some(id)
            &&& i.session_id->0.len() > 0
            &&& i.codec == Some(c)
            &&& r.codec == Some(c)
            &&& i.port == rc.media_port
            &&& r.peer == Some(hello_of(ic))
        }),
{
    lemma_first_common(ic.codecs, rc.codecs);
    let c = first_common(ic.codecs, rc.codecs)->0;
    assert(ic.codecs.contains(c));
}

/// When the codec lists share nothing, the responder answers Bye, both sides
/// reach `Closed` (the responder once its Bye has gone out), and neither side
/// reports an established session or holds a session id.
pub proof fn lemma_handshake_no_overlap(
    ic: CapabilitiesModel,
    rc: CapabilitiesModel,
    timing: Timing,
    id: Seq<char>,
    now: u64,
)
    requires
        ic.version == rc.version,
        token_ok(rc, hello_of(ic)),
        first_common(ic.codecs, rc.codecs) is None,
    ensures
        ({
            let (i, r, ia, ra) = exchange(ic, rc, timing, id, now);
            let (r_end, rc_acts) = step_model(r, EventModel::ByeSent);
            &&& ra.last() is Send && ra.last()->Send_0 is Bye
            &&& i.phase == Phase::Closed
            &&& ia.last() == ActionModel::Ended(EndReason::PeerBye)
            &&& r.phase == Phase::Closing
            &&& r_end.phase == Phase::Closed
            &&& rc_acts == seq![ActionModel::Ended(EndReason::NegotiationFailure)]
            &&& !establishes(ia) && !establishes(ra) && !establishes(rc_acts)
            &&& i.session_id is None && r_end.session_id is None
        }),
{
    let (i, r, ia, ra) = exchange(ic, rc, timing, id, now);
    let (r_end, rc_acts) = step_model(r, EventModel::ByeSent);
    assert(!establishes(ia));
    assert(!establishes(ra));
    assert(!establishes(rc_acts));
}

/// Once closed, a session ignores every event and does nothing more; so the
/// end is reported, and the media engine stopped, at most once.
pub proof fn lemma_closed_is_final(s: SessionModel, e: EventModel)
    requires
        s.phase == Phase::Closed,
    ensures
        step_model(s, e) == (s, Seq::<ActionModel>::empty()),
{
}

/// An active session whose oldest unanswered ping has gone unanswered for
/// longer than the liveness timeout sends Bye with reason "liveness timeout"
/// at the first tick past the bound, and reaches `Closed` with that reason
/// once the Bye has gone out; before the bound, a tick leaves it active.
pub proof fn lemma_liveness(s: SessionModel, now: u64)
    requires
        s.phase == Phase::Active,
        s.outstanding is Some,
    ensures
        ({
            let (s1, a1) = step_model(s, EventModel::Tick(now));
            let (s2, a2) = step_model(s1, EventModel::ByeSent);
            if now > s.outstanding->0 + s.timing.liveness_timeout {
                &&& s1.phase == Phase::Closing
                &&& a1 == seq![ActionModel::Send(MessageModel::Bye("liveness timeout"@))]
                &&& s2.phase == Phase::Closed
                &&& a2 == seq![ActionModel::Ended(EndReason::LivenessTimeout)]
            } else {
                &&& s1.phase == Phase::Active
                &&& s1.outstanding == s.outstanding
                &&& !(exists|i: int| 0 <= i < a1.len() && #[trigger] a1[i] is Ended)
            }
        }),
{
    let (s1, a1) = step_model(s, EventModel::Tick(now));
    if now <= s.outstanding->0 + s.timing.liveness_timeout {
        assert(!(exists|i: int| 0 <= i < a1.len() && #[trigger] a1[i] is Ended));
    }
}

/// While active and with no liveness timeout due, a session pings at a fixed
/// interval: a tick at least `ping_interval` after the last ping sends one
/// Ping stamped with the tick's time and records it, whether or not earlier
/// pings are still unanswered; an earlier tick sends nothing.
pub proof fn lemma_periodic_ping(s: SessionModel, now: u64)
    requires
        s.phase == Phase::Active,
        s.outstanding matches Some(t) ==> now <= t + s.timing.liveness_timeout,
    ensures
        ({
            let (s1, a1) = step_model(s, EventModel::Tick(now));
            &&& s1.phase == Phase::Active
            &&& s1.session_id == s.session_id && s1.codec == s.codec
            &&& if now >= s.last_ping + s.timing.ping_interval {
                &&& a1 == seq![ActionModel::Send(MessageModel::Ping(now))]
                &&& s1.last_ping == now
                &&& s1.outstanding is Some
            } else {
                s1 == s && a1 == Seq::<ActionModel>::empty()
            }
        }),
{
}

/// A Pong that echoes the latest ping answers every ping outstanding.
pub proof fn lemma_pong_answers(s: SessionModel, now: u64)
    requires
        s.phase == Phase::Active,
        s.outstanding is Some,
    ensures
        ({
            let (s1, a1) = step_model(s, EventModel::Received(MessageModel::Pong(s.last_ping), now));
            s.outstanding->0 <= s.last_ping ==> s1.outstanding is None && s1.phase == Phase::Active
                && a1 == Seq::<ActionModel>::empty()
        }),
{
}

/// Asking twice to shut down sends one Bye and closes once: the second request
/// does nothing, and the session ends with reason local shutdown after the Bye
/// has gone out.
pub proof fn lemma_idempotent_close(s: SessionModel, first: Seq<char>, second: Seq<char>)
    requires
        s.phase != Phase::Closed,
        s.phase != Phase::Closing,
    ensures
        ({
            let (s1, a1) = step_model(s, EventModel::Shutdown(first));
            let (s2, a2) = step_model(s1, EventModel::Shutdown(second));
            let (s3, a3) = step_model(s2, EventModel::ByeSent);
            let (s4, a4) = step_model(s3, EventModel::Shutdown(second));
            &&& a1 == seq![ActionModel::Send(MessageModel::Bye(first))]
            &&& s1.phase == Phase::Closing
            &&& s2 == s1 && a2 == Seq::<ActionModel>::empty()
            &&& s3.phase == Phase::Closed
            &&& a3 == seq![ActionModel::Ended(EndReason::LocalShutdown)]
            &&& s4 == s3 && a4 == Seq::<ActionModel>::empty()
        }),
{
}

/// An unrecognized message leaves an active session as it was; before the
/// session is active, where only the handshake is expected, it is a protocol
/// violation: the session answers Bye and, once it has gone out, ends closed
/// with reason protocol violation, never having been active.
pub proof fn lemma_unrecognized(s: SessionModel)
    ensures
        s.phase == Phase::Active || s.phase == Phase::Closing ==> step_model(
            s,
            EventModel::Unrecognized,
        ) == (s, Seq::<ActionModel>::empty()),
        before_active(s.phase) ==> ({
            let (s1, a1) = step_model(s, EventModel::Unrecognized);
            let (s2, a2) = step_model(s1, EventModel::ByeSent);
            &&& s1.phase == Phase::Closing
            &&& a1 == seq![ActionModel::Send(MessageModel::Bye("unexpected message"@))]
            &&& s2.phase == Phase::Closed
            &&& a2 == seq![ActionModel::Ended(EndReason::ProtocolViolation)]
            &&& s2.session_id == s.session_id
        }),
{
}

/// The shape of every state a session reaches: an id and a codec come
/// together, none before `Active`, and both while `Active`; each role waits
/// only for its own handshake message; a responder has a non-empty id to
/// assign, and the session id it holds is that id.
pub open spec fn settled(s: SessionModel) -> bool {
    &&& (s.session_id is Some <==> s.codec is Some)
    &&& before_active(s.phase) ==> s.session_id is None
    &&& s.phase == Phase::Active ==> s.session_id is Some
    &&& s.role == Role::Initiator ==> s.phase != Phase::AwaitingHello
    &&& s.role == Role::Responder ==> {
        &&& s.fresh_id.len() > 0
        &&& s.phase != Phase::AwaitingWelcome
        &&& s.session_id is Some ==> s.session_id == Some(s.fresh_id)
    }
}

/// A new session (a responder with a non-empty id to assign) is settled, and
/// every transition keeps it so.
pub proof fn lemma_settled(s: SessionModel, e: EventModel)
    ensures
        forall|role: Role, caps: CapabilitiesModel, timing: Timing, id: Seq<char>|
            (role == Role::Responder ==> id.len() > 0) ==> settled(
                #[trigger] initial_model(role, caps, timing, id),
            ),
        settled(s) ==> settled(step_model(s, e).0),
{
}

/// Once assigned, a session id never changes; it is assigned only by the
/// transition that takes a handshake state to `Active`.
pub proof fn lemma_session_id_assigned_once(s: SessionModel, e: EventModel)
    requires
        settled(s),
    ensures
        s.session_id is Some ==> step_model(s, e).0.session_id == s.session_id,
        s.session_id is None && step_model(s, e).0.session_id is Some ==> {
            &&& (s.phase == Phase::AwaitingHello || s.phase == Phase::AwaitingWelcome)
            &&& step_model(s, e).0.phase == Phase::Active
        },
{
}

/// The codec a responder puts in its Welcome is one that the Hello offered
/// and that the responder supports; with none such, it sends no Welcome.
pub proof fn lemma_welcome_codec_offered(s: SessionModel, h: HelloModel, now: u64)
    ensures
        ({
            let (s1, acts) = on_hello(s, h, now);
            &&& acts.len() > 0 && acts[0] is Send && acts[0]->Send_0 is Welcome ==> {
                let w = acts[0]->Send_0->Welcome_0;
                &&& h.supported_codecs.contains(w.codec)
                &&& s.caps.codecs.contains(w.codec)
            }
            &&& first_common(h.supported_codecs, s.caps.codecs) is None ==> s1.phase
                == Phase::Closing
        }),
{
    lemma_first_common(h.supported_codecs, s.caps.codecs);
}

} // verus!
