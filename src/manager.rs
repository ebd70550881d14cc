//! Bookkeeping of the sessions of one process: handles, and ids that no two
//! live responder sessions share.
use vstd::prelude::*;
use crate::laws::{lemma_settled, settled};
use crate::message::{ControlMessage, MessageModel};
use crate::session::{EventModel, Action, Capabilities, Event, Phase, Role, Session, SessionModel, Timing, actions_model, initial_model, step_model};

verus! {

/// Why the manager refused a request.
#[derive(Debug, Clone, Copy, PartialEq, Eq, Structural)]
pub enum ManagerError {
    /// No session has this handle.
    UnknownHandle,
    /// The proposed session id is empty.
    EmptyId,
    /// A live session already holds the proposed session id.
    IdInUse,
    /// Every handle value has been used.
    HandlesExhausted,
    /// The session has not reached `Closed`.
    StillOpen,
}

pub struct Entry {
    pub handle: u64,
    pub session: Session,
}

/// Owns the sessions of a process, each under its own handle.
pub struct SessionManager {
    entries: Vec<Entry>,
    next_handle: u64,
}

/// Whether a session still holds its id.
pub open spec fn live(s: SessionModel) -> bool {
    s.phase != Phase::Closed
}

/// Whether the live responder sessions of `ss` hold `id`.
pub open spec fn id_held(ss: Seq<SessionModel>, id: Seq<char>) -> bool {
    exists|i: int| 0 <= i < ss.len() && live(#[trigger] ss[i]) && ss[i].role == Role::Responder
        && ss[i].fresh_id == id
}

/// The session id a session holds or will hold: a responder's is the id it
/// assigns; an initiator's is the one its peer's Welcome gave, once given.
pub open spec fn claim(s: SessionModel) -> Option<Seq<char>> {
    if s.role == Role::Responder {
        Some(s.fresh_id)
    } else {
        s.session_id
    }
}

/// The event the manager hands on: a Welcome that would give an initiator an
/// id that a live session already holds is refused as a frame that does not
/// belong in the handshake.
pub open spec fn admitted(ss: Seq<SessionModel>, i: int, e: EventModel) -> EventModel {
    match e {
        EventModel::Received(MessageModel::Welcome(w), _) => if ss[i].role == Role::Initiator
            && ss[i].session_id is None && id_taken(ss, w.session_id) {
            EventModel::Malformed
        } else {
            e
        },
        _ => e,
    }
}

/// Whether `id` is held by a live session: as the id a responder will
/// assign, or as a session id already in use.
pub open spec fn id_taken(ss: Seq<SessionModel>, id: Seq<char>) -> bool {
    id_held(ss, id) || exists|i: int|
        0 <= i < ss.len() && live(#[trigger] ss[i]) && ss[i].session_id == Some(id)
}

impl SessionManager {
    pub closed spec fn handles(&self) -> Seq<u64> {
        self.entries@.map_values(|e: Entry| e.handle)
    }

    pub closed spec fn sessions(&self) -> Seq<SessionModel> {
        self.entries@.map_values(|e: Entry| e.session@)
    }

    pub closed spec fn next_handle(&self) -> u64 {
        self.next_handle
    }

    /// Handles are distinct and below the next one to give out; every session
    /// is settled; no two live sessions claim the same id.
    pub open spec fn wf(&self) -> bool {
        &&& self.handles().len() == self.sessions().len()
        &&& forall|i: int| 0 <= i < self.sessions().len() ==> settled(#[trigger] self.sessions()[i])
        &&& forall|i: int| 0 <= i < self.handles().len() ==> #[trigger] self.handles()[i] < self.next_handle()
        &&& forall|i: int, j: int|
            0 <= i < j < self.handles().len() ==> #[trigger] self.handles()[i] != #[trigger] self.handles()[j]
        &&& forall|i: int, j: int|
            0 <= i < j < self.sessions().len() && live(#[trigger] self.sessions()[i]) && live(
                #[trigger] self.sessions()[j],
            ) && claim(self.sessions()[i]) is Some ==> claim(self.sessions()[i]) != claim(
                self.sessions()[j],
            )
    }

    pub fn new() -> (r: Self)
        ensures
            r.wf(),
            r.handles() == Seq::<u64>::empty(),
            r.sessions() == Seq::<SessionModel>::empty(),
    {
        let r = SessionManager { entries: Vec::new(), next_handle: 0 };
        assert(r.handles() =~= Seq::<u64>::empty());
        assert(r.sessions() =~= Seq::<SessionModel>::empty());
        r
    }

    pub fn len(&self) -> (r: usize)
        ensures
            r == self.sessions().len(),
    {
        self.entries.len()
    }

    fn position(&self, handle: u64) -> (r: Option<usize>)
        ensures
            match r {
                Some(i) => i < self.handles().len() && self.handles()[i as int] == handle,
                None => !self.handles().contains(handle),
            },
    {
        let mut i: usize = 0;
        while i < self.entries.len()
            invariant
                i <= self.entries@.len(),
                self.handles().len() == self.entries@.len(),
                forall|j: int| 0 <= j < i ==> self.handles()[j] != handle,
            decreases self.entries@.len() - i,
        {
            if self.entries[i].handle == handle {
                return Some(i);
            }
            i = i + 1;
        }
        None
    }

    /// Whether a live session holds `id`, as the id it will assign or as
    /// its session id.
    pub fn id_in_use(&self, id: &String) -> (r: bool)
        ensures
            r == id_taken(self.sessions(), id@),
    {
        let mut i: usize = 0;
        while i < self.entries.len()
            invariant
                i <= self.entries@.len(),
                self.sessions().len() == self.entries@.len(),
                forall|j: int|
                    0 <= j < i ==> !(live(#[trigger] self.sessions()[j]) && self.sessions()[j].role
                        == Role::Responder && self.sessions()[j].fresh_id == id@),
                forall|j: int|
                    0 <= j < i ==> !(live(#[trigger] self.sessions()[j])
                        && self.sessions()[j].session_id == Some(id@)),
            decreases self.entries@.len() - i,
        {
            let e = &self.entries[i];
            assert(self.sessions()[i as int] == e.session@);
            if e.session.phase != Phase::Closed && e.session.role == Role::Responder
                && e.session.fresh_id == *id {
                return true;
            }
            if e.session.phase != Phase::Closed {
                match &e.session.session_id {
                    Some(sid) => {
                        if *sid == *id {
                            return true;
                        }
                    },
                    None => {},
                }
            }
            i = i + 1;
        }
        false
    }

    fn add(&mut self, s: Session) -> (r: Result<u64, ManagerError>)
        requires
            old(self).wf(),
            settled(s@),
            claim(s@) matches Some(c) ==> !id_taken(old(self).sessions(), c),
        ensures
            final(self).wf(),
            match r {
                Ok(h) => {
                    &&& old(self).next_handle() < u64::MAX
                    &&& h == old(self).next_handle()
                    &&& final(self).handles() == old(self).handles().push(h)
                    &&& final(self).sessions() == old(self).sessions().push(s@)
                },
                Err(e) => {
                    &&& e == ManagerError::HandlesExhausted
                    &&& old(self).next_handle() == u64::MAX
                    &&& final(self).handles() == old(self).handles()
                    &&& final(self).sessions() == old(self).sessions()
                },
            },
    {
        if self.next_handle == u64::MAX {
            return Err(ManagerError::HandlesExhausted);
        }
        let h = self.next_handle;
        let ghost hs = self.handles();
        let ghost ss = self.sessions();
        let ghost sv = s@;
        self.entries.push(Entry { handle: h, session: s });
        self.next_handle = h + 1;
        assert(self.handles() =~= hs.push(h));
        assert(self.sessions() =~= ss.push(sv));
        assert forall|i: int| 0 <= i < self.sessions().len() implies settled(
            #[trigger] self.sessions()[i],
        ) by {
            if i < ss.len() {
                assert(self.sessions()[i] == ss[i]);
            }
        }
        assert forall|i: int, j: int|
            0 <= i < j < self.sessions().len() && live(#[trigger] self.sessions()[i]) && live(
                #[trigger] self.sessions()[j],
            ) && claim(self.sessions()[i]) is Some implies claim(self.sessions()[i]) != claim(
            self.sessions()[j],
        ) by {
            assert(self.sessions()[i] == ss[i]);
            if j == ss.len() {
                let t = ss[i];
                if claim(t) == claim(sv) {
                    if t.role == Role::Responder {
                        assert(id_held(ss, claim(sv)->0));
                    } else {
                        assert(live(ss[i]) && ss[i].session_id == Some(claim(sv)->0));
                    }
                }
            } else {
                assert(self.sessions()[j] == ss[j]);
            }
        }
        Ok(h)
    }

    /// Starts an initiator session; the caller then reports the channel as
    /// ready through `handle_event`.
    pub fn start_outbound(&mut self, caps: Capabilities, timing: Timing) -> (r: Result<u64, ManagerError>)
        requires
            old(self).wf(),
        ensures
            final(self).wf(),
            match r {
                Ok(h) => {
                    &&& h == old(self).next_handle()
                    &&& final(self).handles() == old(self).handles().push(h)
                    &&& final(self).sessions() == old(self).sessions().push(
                        initial_model(Role::Initiator, caps@, timing, Seq::empty()),
                    )
                },
                Err(e) => {
                    &&& e == ManagerError::HandlesExhausted
                    &&& old(self).next_handle() == u64::MAX
                    &&& final(self).sessions() == old(self).sessions()
                },
            },
    {
        let s = Session::new(Role::Initiator, caps, timing, String::new());
        proof {
            lemma_settled(s@, crate::session::EventModel::ByeSent);
        }
        self.add(s)
    }

    /// Starts a responder session for an accepted connection, which will
    /// assign `id` at Welcome. The id must be non-empty and held by no live
    /// session, neither as the id it will assign nor as its session id.
    pub fn accept_inbound(&mut self, caps: Capabilities, timing: Timing, id: String) -> (r: Result<u64, ManagerError>)
        requires
            old(self).wf(),
        ensures
            final(self).wf(),
            match r {
                Ok(h) => {
                    &&& id@.len() > 0
                    &&& !id_taken(old(self).sessions(), id@)
                    &&& h == old(self).next_handle()
                    &&& final(self).handles() == old(self).handles().push(h)
                    &&& final(self).sessions() == old(self).sessions().push(
                        initial_model(Role::Responder, caps@, timing, id@),
                    )
                },
                Err(e) => {
                    &&& final(self).sessions() == old(self).sessions()
                    &&& final(self).handles() == old(self).handles()
                    &&& (e == ManagerError::EmptyId) == (id@.len() == 0)
                    &&& (e == ManagerError::IdInUse) == (id@.len() > 0 && id_taken(old(self).sessions(), id@))
                    &&& (e == ManagerError::HandlesExhausted) == (id@.len() > 0 && !id_taken(
                        old(self).sessions(),
                        id@,
                    ) && old(self).next_handle() == u64::MAX)
                },
            },
    {
        if id.as_str().is_empty() {
            return Err(ManagerError::EmptyId);
        }
        if self.id_in_use(&id) {
            return Err(ManagerError::IdInUse);
        }
        let s = Session::new(Role::Responder, caps, timing, id);
        proof {
            lemma_settled(s@, crate::session::EventModel::ByeSent);
        }
        self.add(s)
    }

    /// Hands an event to the session under `handle` and returns its actions.
    /// A Welcome that would give an initiator an id already held by a live
    /// session is handed on as a malformed frame, which the session answers
    /// as a protocol violation.
    pub fn handle_event(&mut self, handle: u64, e: Event) -> (r: Result<Vec<Action>, ManagerError>)
        requires
            old(self).wf(),
        ensures
            final(self).wf(),
            final(self).handles() == old(self).handles(),
            match r {
                Ok(acts) => exists|i: int|
                    0 <= i < old(self).handles().len() && old(self).handles()[i] == handle && ({
                        let (s1, a) = step_model(
                            old(self).sessions()[i],
                            admitted(old(self).sessions(), i, e@),
                        );
                        &&& final(self).sessions() == old(self).sessions().update(i, s1)
                        &&& actions_model(acts@) == a
                    }),
                Err(err) => {
                    &&& err == ManagerError::UnknownHandle
                    &&& !old(self).handles().contains(handle)
                    &&& final(self).sessions() == old(self).sessions()
                },
            },
    {
        match self.position(handle) {
            None => Err(ManagerError::UnknownHandle),
            Some(i) => {
                let ghost hs = self.handles();
                let ghost ss = self.sessions();
                assert(ss[i as int] == self.entries@[i as int].session@);
                let refuse = match &e {
                    Event::Received { msg: ControlMessage::Welcome(w), .. } => {
                        self.entries[i].session.role == Role::Initiator
                            && self.entries[i].session.session_id.is_none() && self.id_in_use(
                            &w.session_id,
                        )
                    },
                    _ => false,
                };
                let ev = if refuse {
                    Event::Malformed
                } else {
                    e
                };
                assert(ev@ == admitted(ss, i as int, e@));
                let mut entry = self.entries.remove(i);
                let acts = entry.session.step(ev);
                proof {
                    assert(settled(ss[i as int]));
                    lemma_step_keeps_identity(ss[i as int], ev@);
                    lemma_settled(ss[i as int], ev@);
                    lemma_step_claim(ss[i as int], ev@);
                }
                self.entries.insert(i, entry);
                assert(self.handles() =~= hs);
                let ghost ss1 = ss.update(i as int, entry.session@);
                assert(self.sessions() =~= ss1);
                assert forall|a: int, b: int|
                    0 <= a < b < ss1.len() && live(#[trigger] ss1[a]) && live(#[trigger] ss1[b])
                        && claim(ss1[a]) is Some implies claim(ss1[a]) != claim(ss1[b]) by {
                    if a != i && b != i {
                        assert(ss1[a] == ss[a] && ss1[b] == ss[b]);
                    } else if a == i {
                        assert(ss1[b] == ss[b]);
                        if claim(ss1[a]) != claim(ss[a]) {
                            let c = claim(ss1[a])->0;
                            assert(!id_taken(ss, c));
                            lemma_claim_not_taken(ss, b, c);
                        }
                    } else {
                        assert(ss1[a] == ss[a]);
                        if claim(ss1[b]) != claim(ss[b]) {
                            let c = claim(ss1[b])->0;
                            assert(!id_taken(ss, c));
                            lemma_claim_not_taken(ss, a, c);
                        }
                    }
                }
                Ok(acts)
            },
        }
    }

    /// Asks the session under `handle` to shut down. A second request on the
    /// same handle returns no actions.
    pub fn close(&mut self, handle: u64, reason: String) -> (r: Result<Vec<Action>, ManagerError>)
        requires
            old(self).wf(),
        ensures
            final(self).wf(),
            final(self).handles() == old(self).handles(),
            match r {
                Ok(acts) => exists|i: int|
                    0 <= i < old(self).handles().len() && old(self).handles()[i] == handle && ({
                        let (s1, a) = step_model(
                            old(self).sessions()[i],
                            crate::session::EventModel::Shutdown(reason@),
                        );
                        &&& final(self).sessions() == old(self).sessions().update(i, s1)
                        &&& actions_model(acts@) == a
                    }),
                Err(err) => {
                    &&& err == ManagerError::UnknownHandle
                    &&& !old(self).handles().contains(handle)
                    &&& final(self).sessions() == old(self).sessions()
                },
            },
    {
        self.handle_event(handle, Event::Shutdown { reason })
    }

    /// The phase of the session under `handle`.
    pub fn phase(&self, handle: u64) -> (r: Option<Phase>)
        ensures
            match r {
                Some(p) => exists|i: int|
                    0 <= i < self.handles().len() && self.handles()[i] == handle
                        && self.sessions()[i].phase == p,
                None => !self.handles().contains(handle),
            },
    {
        match self.position(handle) {
            None => None,
            Some(i) => {
                assert(self.sessions()[i as int] == self.entries@[i as int].session@);
                Some(self.entries[i].session.phase)
            },
        }
    }

    /// Removes the session under `handle` once it is closed.
    pub fn remove(&mut self, handle: u64) -> (r: Result<(), ManagerError>)
        requires
            old(self).wf(),
        ensures
            final(self).wf(),
            match r {
                Ok(()) => exists|i: int|
                    0 <= i < old(self).handles().len() && old(self).handles()[i] == handle
                        && old(self).sessions()[i].phase == Phase::Closed
                        && final(self).handles() == old(self).handles().remove(i)
                        && final(self).sessions() == old(self).sessions().remove(i),
                Err(e) => {
                    &&& final(self).handles() == old(self).handles()
                    &&& final(self).sessions() == old(self).sessions()
                    &&& (e == ManagerError::UnknownHandle) == !old(self).handles().contains(handle)
                    &&& (e == ManagerError::StillOpen) == (exists|i: int|
                        0 <= i < old(self).handles().len() && old(self).handles()[i] == handle
                            && old(self).sessions()[i].phase != Phase::Closed)
                },
            },
    {
        match self.position(handle) {
            None => Err(ManagerError::UnknownHandle),
            Some(i) => {
                assert(self.sessions()[i as int] == self.entries@[i as int].session@);
                if self.entries[i].session.phase != Phase::Closed {
                    proof {
                        lemma_handles_unique(self.handles(), i as int, handle);
                    }
                    return Err(ManagerError::StillOpen);
                }
                let ghost hs = self.handles();
                let ghost ss = self.sessions();
                let _gone = self.entries.remove(i);
                assert(self.handles() =~= hs.remove(i as int));
                assert(self.sessions() =~= ss.remove(i as int));
                assert forall|a: int, b: int|
                    0 <= a < b < self.handles().len() implies #[trigger] self.handles()[a]
                    != #[trigger] self.handles()[b] by {
                    let a0 = if a < i { a } else { a + 1 };
                    let b0 = if b < i { b } else { b + 1 };
                    assert(self.handles()[a] == hs[a0]);
                    assert(self.handles()[b] == hs[b0]);
                }
                assert forall|a: int| 0 <= a < self.handles().len() implies #[trigger] self.handles()[a]
                    < self.next_handle() by {
                    let a0 = if a < i { a } else { a + 1 };
                    assert(self.handles()[a] == hs[a0]);
                }
                assert forall|a: int, b: int|
                    0 <= a < b < self.sessions().len() && live(#[trigger] self.sessions()[a]) && live(
                        #[trigger] self.sessions()[b],
                    ) && claim(self.sessions()[a]) is Some implies claim(self.sessions()[a])
                    != claim(self.sessions()[b]) by {
                    let a0 = if a < i { a } else { a + 1 };
                    let b0 = if b < i { b } else { b + 1 };
                    assert(self.sessions()[a] == ss[a0]);
                    assert(self.sessions()[b] == ss[b0]);
                }
                Ok(())
            },
        }
    }
}

/// No two active sessions of the manager share a session id, whichever side
/// assigned it.
pub proof fn lemma_active_ids_unique(m: &SessionManager)
    requires
        m.wf(),
    ensures
        forall|i: int, j: int|
            0 <= i < j < m.sessions().len() && #[trigger] m.sessions()[i].phase == Phase::Active
                && #[trigger] m.sessions()[j].phase == Phase::Active ==> m.sessions()[i].session_id
                != m.sessions()[j].session_id,
{
    assert forall|i: int, j: int|
        0 <= i < j < m.sessions().len() && #[trigger] m.sessions()[i].phase == Phase::Active
            && #[trigger] m.sessions()[j].phase == Phase::Active implies m.sessions()[i].session_id
        != m.sessions()[j].session_id by {
        let a = m.sessions()[i];
        let b = m.sessions()[j];
        assert(settled(a) && settled(b));
        assert(live(a) && live(b));
        assert(claim(a) == a.session_id);
        assert(claim(b) == b.session_id);
    }
}

/// A live session does not claim an id that no live session holds.
proof fn lemma_claim_not_taken(ss: Seq<SessionModel>, j: int, c: Seq<char>)
    requires
        0 <= j < ss.len(),
        live(ss[j]),
        !id_taken(ss, c),
    ensures
        claim(ss[j]) != Some(c),
{
    if ss[j].role == Role::Responder {
        assert(!(live(ss[j]) && ss[j].role == Role::Responder && ss[j].fresh_id == c));
    } else {
        assert(!(live(ss[j]) && ss[j].session_id == Some(c)));
    }
}

/// A transition changes a session's claim only when an initiator without a
/// session id takes a Welcome, whose id it then claims.
proof fn lemma_step_claim(s: SessionModel, e: EventModel)
    requires
        settled(s),
    ensures
        claim(step_model(s, e).0) == claim(s) || (s.role == Role::Initiator && s.session_id is None
            && (e matches EventModel::Received(MessageModel::Welcome(w), _) && claim(
            step_model(s, e).0,
        ) == Some(w.session_id))),
{
}

proof fn lemma_handles_unique(hs: Seq<u64>, i: int, h: u64)
    requires
        0 <= i < hs.len(),
        hs[i] == h,
        forall|a: int, b: int| 0 <= a < b < hs.len() ==> #[trigger] hs[a] != #[trigger] hs[b],
    ensures
        forall|j: int| 0 <= j < hs.len() && hs[j] == h ==> j == i,
{
    assert forall|j: int| 0 <= j < hs.len() && hs[j] == h implies j == i by {
        if j < i {
            assert(hs[j] != hs[i]);
        } else if j > i {
            assert(hs[i] != hs[j]);
        }
    }
}

/// A transition keeps the role and the id to assign, and never reopens a
/// closed session.
proof fn lemma_step_keeps_identity(s: SessionModel, e: crate::session::EventModel)
    ensures
        step_model(s, e).0.role == s.role,
        step_model(s, e).0.fresh_id == s.fresh_id,
        live(step_model(s, e).0) ==> live(s),
{
}

} // verus!
