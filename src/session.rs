//! The session with the server: the handshake that must come first, the
//! table of requests awaiting a response, and the documents announced.
//!
//! The state machine decides; the caller performs what it decides (writes
//! the frame, wakes the waiting caller) and reports what happened.

use std::collections::HashMap;
use vstd::prelude::*;

verus! {

broadcast use vstd::std_specs::hash::group_hash_axioms;

/// Where the session stands.
#[derive(PartialEq, Eq, Structural, Clone, Copy, Debug)]
pub enum Phase {
    /// The handshake has not been sent.
    NotStarted,
    /// The handshake was sent; its response has not arrived.
    Initializing,
    /// The handshake succeeded; the `initialized` notification has not been
    /// written yet.
    Answered,
    /// The handshake was acknowledged: operations may be sent.
    Ready,
    /// The handshake failed, or the session was shut down or lost.
    Closed,
}

/// What happens to an operation that asks to send a request.
#[derive(PartialEq, Eq, Structural, Clone, Copy, Debug)]
pub enum Admission {
    /// The request was registered under this id; write it now.
    Sent(u64),
    /// The handshake is not done: wait until it is, then ask again.
    Wait,
    /// The session is closed.
    Closed,
    /// No id is left.
    Exhausted,
}

/// Where a response goes.
#[derive(PartialEq, Eq, Debug)]
pub enum Routing {
    /// To the caller that sent the request `id`, for `method`.
    Deliver { id: u64, method: String },
    /// The handshake succeeded: write the `initialized` notification, then
    /// acknowledge, which lets the waiting operations through.
    HandshakeDone,
    /// The handshake failed: the session is closed.
    HandshakeFailed,
    /// No request awaits this id (it timed out, or was never sent).
    Unmatched,
}

/// The state of a session, as the contracts see it.
pub ghost struct SessionView {
    pub phase: Phase,
    pub next_id: nat,
    pub handshake_id: nat,
    pub pending: Map<u64, String>,
    pub opened: Set<Seq<char>>,
    /// Whether the handshake was ever acknowledged; once set, it stays set.
    pub ready: bool,
}

pub open spec fn session_wf(v: SessionView) -> bool {
    &&& 1 <= v.next_id <= u64::MAX
    &&& v.handshake_id < v.next_id
    &&& forall|k: u64| #[trigger] v.pending.contains_key(k) ==> 1 <= k < v.next_id
    &&& v.phase == Phase::NotStarted ==> v.next_id == 1 && v.pending.is_empty()
    &&& v.phase == Phase::Initializing ==> v.handshake_id >= 1
    &&& v.phase == Phase::Ready ==> v.ready
    &&& (v.phase == Phase::NotStarted || v.phase == Phase::Initializing || v.phase
        == Phase::Answered) ==> !v.ready
}

/// The session before anything was sent.
pub open spec fn initial_view() -> SessionView {
    SessionView {
        phase: Phase::NotStarted,
        next_id: 1,
        handshake_id: 0,
        pending: Map::empty(),
        opened: Set::empty(),
        ready: false,
    }
}

/// Registers a request for `method` under the next id.
pub open spec fn register(v: SessionView, method: String) -> SessionView {
    SessionView {
        next_id: v.next_id + 1,
        pending: v.pending.insert(v.next_id as u64, method),
        ..v
    }
}

/// The handshake: the `initialize` request is registered and awaited.
pub open spec fn begin_step(v: SessionView, method: String) -> SessionView {
    SessionView { phase: Phase::Initializing, handshake_id: v.next_id, ..register(v, method) }
}

/// An operation asks to send a request for `method`.
pub open spec fn call_step(v: SessionView, method: String) -> (SessionView, Admission) {
    match v.phase {
        Phase::Ready => if v.next_id < u64::MAX {
            (register(v, method), Admission::Sent(v.next_id as u64))
        } else {
            (v, Admission::Exhausted)
        },
        Phase::Closed => (v, Admission::Closed),
        _ => (v, Admission::Wait),
    }
}

/// A response arrives for `id`; `ok` says whether it carries a result
/// rather than an error.
pub open spec fn reply_step(v: SessionView, id: int, ok: bool) -> (SessionView, Routing) {
    if 0 <= id <= u64::MAX && v.pending.contains_key(id as u64) {
        let rest = SessionView { pending: v.pending.remove(id as u64), ..v };
        if id == v.handshake_id && v.phase == Phase::Initializing {
            if ok {
                (SessionView { phase: Phase::Answered, ..rest }, Routing::HandshakeDone)
            } else {
                (SessionView { phase: Phase::Closed, ..rest }, Routing::HandshakeFailed)
            }
        } else {
            (rest, Routing::Deliver { id: id as u64, method: v.pending[id as u64] })
        }
    } else {
        (v, Routing::Unmatched)
    }
}

/// The `initialized` notification was written: the session becomes ready.
pub open spec fn acknowledge_step(v: SessionView) -> (SessionView, bool) {
    if v.phase == Phase::Answered {
        (SessionView { phase: Phase::Ready, ready: true, ..v }, true)
    } else {
        (v, false)
    }
}

/// The bound on waiting for `id` has passed: the request is given up.
pub open spec fn timeout_step(v: SessionView, id: u64) -> (SessionView, Option<String>) {
    if v.pending.contains_key(id) {
        (SessionView { pending: v.pending.remove(id), ..v }, Some(v.pending[id]))
    } else {
        (v, None)
    }
}

/// A document is announced open.
pub open spec fn open_step(v: SessionView, path: Seq<char>) -> SessionView {
    SessionView { opened: v.opened.insert(path), ..v }
}

/// The connection is gone: every request still waiting fails.
pub open spec fn close_step(v: SessionView) -> SessionView {
    SessionView { phase: Phase::Closed, pending: Map::empty(), ..v }
}

/// One connection's session state.
pub struct Session {
    phase: Phase,
    next_id: u64,
    handshake_id: u64,
    pending: HashMap<u64, String>,
    opened: Vec<String>,
    ready: bool,
}

impl View for Session {
    type V = SessionView;

    closed spec fn view(&self) -> SessionView {
        SessionView {
            phase: self.phase,
            next_id: self.next_id as nat,
            handshake_id: self.handshake_id as nat,
            pending: self.pending@,
            opened: self.opened@.map_values(|s: String| s@).to_set(),
            ready: self.ready,
        }
    }
}

impl Session {
    pub open spec fn wf(&self) -> bool {
        session_wf(self@)
    }

    pub fn new() -> (r: Session)
        ensures
            r@ == initial_view(),
            r.wf(),
    {
        let r = Session {
            phase: Phase::NotStarted,
            next_id: 1,
            handshake_id: 0,
            pending: HashMap::new(),
            opened: Vec::new(),
            ready: false,
        };
        assert(r@.opened =~= Set::<Seq<char>>::empty());
        r
    }

    pub fn phase(&self) -> (r: Phase)
        ensures
            r == self@.phase,
    {
        self.phase
    }

    /// Whether the handshake was acknowledged. This stays true once it is,
    /// also after the session closes.
    pub fn is_ready(&self) -> (r: bool)
        ensures
            r == self@.ready,
    {
        self.ready
    }

    /// Records that the `initialized` notification was written after a
    /// successful handshake; says whether the session was waiting for it.
    pub fn acknowledge(&mut self) -> (r: bool)
        requires
            old(self).wf(),
        ensures
            final(self).wf(),
            (final(self)@, r) == acknowledge_step(old(self)@),
    {
        if self.phase == Phase::Answered {
            let ghost before = self@;
            self.phase = Phase::Ready;
            self.ready = true;
            assert(self@.pending == before.pending);
            true
        } else {
            false
        }
    }

    /// Whether a request awaits a response under `id`.
    pub fn is_pending(&self, id: u64) -> (r: bool)
        ensures
            r == self@.pending.contains_key(id),
    {
        self.pending.contains_key(&id)
    }

    /// Registers the handshake request, whose id is returned.
    pub fn begin(&mut self, method: String) -> (id: u64)
        requires
            old(self).wf(),
            old(self)@.phase == Phase::NotStarted,
        ensures
            final(self).wf(),
            final(self)@ == begin_step(old(self)@, method),
            id == old(self)@.next_id,
            id == 1,
    {
        let id = self.next_id;
        self.pending.insert(id, method);
        self.next_id = id + 1;
        self.handshake_id = id;
        self.phase = Phase::Initializing;
        id
    }

    /// An operation asks to send a request for `method`.
    pub fn call(&mut self, method: String) -> (r: Admission)
        requires
            old(self).wf(),
        ensures
            final(self).wf(),
            (final(self)@, r) == call_step(old(self)@, method),
    {
        match self.phase {
            Phase::Ready => {
                if self.next_id < u64::MAX {
                    let id = self.next_id;
                    self.pending.insert(id, method);
                    self.next_id = id + 1;
                    assert forall|k: u64| #[trigger] self@.pending.contains_key(k) implies 1 <= k
                        < self@.next_id by {
                        if k != id {
                            assert(old(self)@.pending.contains_key(k));
                        }
                    }
                    Admission::Sent(id)
                } else {
                    Admission::Exhausted
                }
            },
            Phase::Closed => Admission::Closed,
            _ => Admission::Wait,
        }
    }

    /// A response arrives for `id`; `ok` says whether it carries a result.
    pub fn reply(&mut self, id: i64, ok: bool) -> (r: Routing)
        requires
            old(self).wf(),
        ensures
            final(self).wf(),
            (final(self)@, r) == reply_step(old(self)@, id as int, ok),
    {
        if id < 0 {
            return Routing::Unmatched;
        }
        let key = id as u64;
        match self.pending.remove(&key) {
            None => {
                assert(self.pending@ =~= old(self).pending@);
                Routing::Unmatched
            },
            Some(method) => {
                assert forall|k: u64| #[trigger] self.pending@.contains_key(k) implies 1 <= k
                    < self.next_id by {
                    assert(old(self)@.pending.contains_key(k));
                }
                if key == self.handshake_id && self.phase == Phase::Initializing {
                    if ok {
                        self.phase = Phase::Answered;
                        Routing::HandshakeDone
                    } else {
                        self.phase = Phase::Closed;
                        Routing::HandshakeFailed
                    }
                } else {
                    Routing::Deliver { id: key, method }
                }
            },
        }
    }

    /// Gives up the request `id`, if it still awaits a response.
    pub fn timeout(&mut self, id: u64) -> (r: Option<String>)
        requires
            old(self).wf(),
        ensures
            final(self).wf(),
            (final(self)@, r) == timeout_step(old(self)@, id),
    {
        let r = self.pending.remove(&id);
        if r.is_none() {
            assert(self.pending@ =~= old(self).pending@);
        }
        assert forall|k: u64| #[trigger] self@.pending.contains_key(k) implies 1 <= k
            < self@.next_id by {
            assert(old(self)@.pending.contains_key(k));
        }
        r
    }

    /// Records that `path` was announced open. Announcing it again changes
    /// nothing.
    pub fn open(&mut self, path: &String)
        requires
            old(self).wf(),
        ensures
            final(self).wf(),
            final(self)@ == open_step(old(self)@, path@),
    {
        let mut i: usize = 0;
        let n = self.opened.len();
        while i < n
            invariant
                n == self.opened@.len(),
                i <= n,
                self@ == old(self)@,
                session_wf(self@),
                forall|j: int| 0 <= j < i ==> self.opened@[j]@ != path@,
            decreases n - i,
        {
            if self.opened[i] == *path {
                proof {
                    let ss = self.opened@.map_values(|s: String| s@);
                    assert(ss[i as int] == path@);
                    assert(ss.to_set().insert(path@) =~= ss.to_set());
                }
                return;
            }
            i = i + 1;
        }
        let ghost before = self.opened@.map_values(|s: String| s@);
        self.opened.push(path.clone());
        proof {
            let after = self.opened@.map_values(|s: String| s@);
            assert(after =~= before.push(path@));
            assert(after.to_set() =~= before.to_set().insert(path@)) by {
                assert forall|x: Seq<char>| after.to_set().contains(x) implies before.to_set().insert(path@).contains(x) by {
                    let j = choose|j: int| 0 <= j < after.len() && after[j] == x;
                    if j < before.len() {
                        assert(before[j] == x);
                    }
                }
                assert forall|x: Seq<char>| before.to_set().insert(path@).contains(x) implies after.to_set().contains(x) by {
                    if x == path@ {
                        assert(after[before.len() as int] == x);
                    } else {
                        let j = choose|j: int| 0 <= j < before.len() && before[j] == x;
                        assert(after[j] == x);
                    }
                }
            }
        }
    }

    /// The connection is gone: the session closes and hands back every
    /// request that was still waiting, so that each can fail.
    pub fn close(&mut self) -> (r: HashMap<u64, String>)
        requires
            old(self).wf(),
        ensures
            final(self).wf(),
            final(self)@ == close_step(old(self)@),
            r@ == old(self)@.pending,
    {
        let mut taken: HashMap<u64, String> = HashMap::new();
        std::mem::swap(&mut taken, &mut self.pending);
        self.phase = Phase::Closed;
        assert(self@.pending =~= Map::<u64, String>::empty());
        taken
    }
}


/// A run of operations asking, one after another, to send requests.
pub open spec fn call_all(v: SessionView, methods: Seq<String>) -> (SessionView, Seq<Admission>)
    decreases methods.len(),
{
    if methods.len() == 0 {
        (v, Seq::empty())
    } else {
        let (v1, a) = call_step(v, methods[0]);
        let (w, rest) = call_all(v1, methods.drop_first());
        (w, seq![a] + rest)
    }
}

/// The id a request was sent under, or -1.
pub open spec fn sent_id(a: Admission) -> int {
    match a {
        Admission::Sent(id) => id as int,
        _ => -1,
    }
}

/// Requests sent one after another on a ready session get consecutive ids:
/// strictly increasing, pairwise distinct, and none of them already awaited.
pub proof fn lemma_ids_increase(v: SessionView, methods: Seq<String>)
    requires
        session_wf(v),
        v.phase == Phase::Ready,
        v.next_id + methods.len() <= u64::MAX,
    ensures
        call_all(v, methods).1.len() == methods.len(),
        forall|i: int|
            0 <= i < methods.len() ==> #[trigger] call_all(v, methods).1[i] == Admission::Sent(
                (v.next_id + i) as u64,
            ),
        forall|i: int, j: int|
            0 <= i < j < methods.len() ==> sent_id(#[trigger] call_all(v, methods).1[i]) < sent_id(
                #[trigger] call_all(v, methods).1[j],
            ),
        forall|i: int|
            0 <= i < methods.len() ==> !v.pending.contains_key(
                #[trigger] sent_id(call_all(v, methods).1[i]) as u64,
            ),
        call_all(v, methods).0.phase == Phase::Ready,
        call_all(v, methods).0.next_id == v.next_id + methods.len(),
    decreases methods.len(),
{
    if methods.len() > 0 {
        let v1 = register(v, methods[0]);
        assert(call_step(v, methods[0]) == (v1, Admission::Sent(v.next_id as u64)));
        assert forall|k: u64| #[trigger] v1.pending.contains_key(k) implies 1 <= k < v1.next_id by {
            if k != v.next_id {
                assert(v.pending.contains_key(k));
            }
        }
        lemma_ids_increase(v1, methods.drop_first());
        let adm = call_all(v, methods).1;
        let rest = call_all(v1, methods.drop_first()).1;
        assert(adm == seq![Admission::Sent(v.next_id as u64)] + rest);
        assert forall|i: int| 0 <= i < methods.len() implies #[trigger] adm[i] == Admission::Sent(
            (v.next_id + i) as u64,
        ) by {
            if i > 0 {
                assert(adm[i] == rest[i - 1]);
            }
        }
        assert forall|i: int, j: int| 0 <= i < j < methods.len() implies sent_id(
            #[trigger] adm[i],
        ) < sent_id(#[trigger] adm[j]) by {
            assert(adm[i] == Admission::Sent((v.next_id + i) as u64));
            assert(adm[j] == Admission::Sent((v.next_id + j) as u64));
        }
        assert forall|i: int| 0 <= i < methods.len() implies !v.pending.contains_key(
            #[trigger] sent_id(adm[i]) as u64,
        ) by {
            assert(adm[i] == Admission::Sent((v.next_id + i) as u64));
        }
    }
}

/// Responses are routed by id alone: two awaited responses reach their own
/// callers in either order of arrival, and leave the same state.
pub proof fn lemma_routing_ignores_arrival_order(
    v: SessionView,
    a: u64,
    b: u64,
    ok_a: bool,
    ok_b: bool,
)
    requires
        v.phase == Phase::Ready,
        a != b,
        v.pending.contains_key(a),
        v.pending.contains_key(b),
    ensures
        reply_step(v, a as int, ok_a).1 == (Routing::Deliver { id: a, method: v.pending[a] }),
        reply_step(reply_step(v, a as int, ok_a).0, b as int, ok_b).1 == (Routing::Deliver {
            id: b,
            method: v.pending[b],
        }),
        reply_step(v, b as int, ok_b).1 == (Routing::Deliver { id: b, method: v.pending[b] }),
        reply_step(reply_step(v, b as int, ok_b).0, a as int, ok_a).1 == (Routing::Deliver {
            id: a,
            method: v.pending[a],
        }),
        reply_step(reply_step(v, a as int, ok_a).0, b as int, ok_b).0 == reply_step(
            reply_step(v, b as int, ok_b).0,
            a as int,
            ok_a,
        ).0,
{
    let v1 = reply_step(v, a as int, ok_a).0;
    let u1 = reply_step(v, b as int, ok_b).0;
    assert(v1.pending[b] == v.pending[b]);
    assert(u1.pending[a] == v.pending[a]);
    assert(v1.pending.remove(b) =~= u1.pending.remove(a));
}

/// Responses arriving one after another, for the ids in `ids`, each with
/// its own result or error.
pub open spec fn reply_all(v: SessionView, ids: Seq<u64>, oks: Seq<bool>) -> (SessionView, Seq<
    Routing,
>)
    decreases ids.len(),
{
    if ids.len() == 0 || oks.len() == 0 {
        (v, Seq::empty())
    } else {
        let (v1, r) = reply_step(v, ids[0] as int, oks[0]);
        let (w, rest) = reply_all(v1, ids.drop_first(), oks.drop_first());
        (w, seq![r] + rest)
    }
}

/// Whatever the order in which the awaited responses arrive, each one is
/// routed to the caller that sent its request, and to no other.
pub proof fn lemma_routing_any_order(v: SessionView, ids: Seq<u64>, oks: Seq<bool>)
    requires
        v.phase == Phase::Ready,
        oks.len() == ids.len(),
        forall|i: int, j: int| 0 <= i < j < ids.len() ==> ids[i] != ids[j],
        forall|i: int| 0 <= i < ids.len() ==> v.pending.contains_key(#[trigger] ids[i]),
    ensures
        reply_all(v, ids, oks).1.len() == ids.len(),
        forall|i: int|
            0 <= i < ids.len() ==> #[trigger] reply_all(v, ids, oks).1[i] == (Routing::Deliver {
                id: ids[i],
                method: v.pending[ids[i]],
            }),
        reply_all(v, ids, oks).0.pending == v.pending.remove_keys(ids.to_set()),
    decreases ids.len(),
{
    if ids.len() > 0 {
        let v1 = reply_step(v, ids[0] as int, oks[0]).0;
        let rest_ids = ids.drop_first();
        assert forall|i: int| 0 <= i < rest_ids.len() implies v1.pending.contains_key(
            #[trigger] rest_ids[i],
        ) by {
            assert(rest_ids[i] == ids[i + 1]);
            assert(ids[0] != ids[i + 1]);
        }
        lemma_routing_any_order(v1, rest_ids, oks.drop_first());
        let r = reply_all(v, ids, oks).1;
        let rest = reply_all(v1, rest_ids, oks.drop_first()).1;
        assert forall|i: int| 0 <= i < ids.len() implies #[trigger] r[i] == (Routing::Deliver {
            id: ids[i],
            method: v.pending[ids[i]],
        }) by {
            if i > 0 {
                assert(r[i] == rest[i - 1]);
                assert(rest_ids[i - 1] == ids[i]);
                assert(ids[0] != ids[i]);
                assert(v1.pending[ids[i]] == v.pending[ids[i]]);
            }
        }
        assert(reply_all(v, ids, oks).0.pending =~= v.pending.remove_keys(ids.to_set())) by {
            let w = reply_all(v, ids, oks).0.pending;
            assert(w == v1.pending.remove_keys(rest_ids.to_set()));
            assert forall|k: u64| #[trigger] w.contains_key(k) == v.pending.remove_keys(
                ids.to_set(),
            ).contains_key(k) by {
                if ids.to_set().contains(k) {
                    let i = choose|i: int| 0 <= i < ids.len() && ids[i] == k;
                    if i > 0 {
                        assert(rest_ids[i - 1] == k);
                        assert(rest_ids.to_set().contains(k));
                    }
                }
                if rest_ids.to_set().contains(k) {
                    let i = choose|i: int| 0 <= i < rest_ids.len() && rest_ids[i] == k;
                    assert(ids[i + 1] == k);
                    assert(ids.to_set().contains(k));
                }
            }
        }
    } else {
        assert(ids.to_set() =~= Set::<u64>::empty());
        assert(v.pending.remove_keys(ids.to_set()) =~= v.pending);
    }
}

/// An operation that asks before the handshake is acknowledged is told to
/// wait, never refused, and changes nothing: before the handshake response
/// arrives, and after it until `initialized` is written. Once it is, the
/// same request is sent.
pub proof fn lemma_readiness_gating(v: SessionView, method: String)
    requires
        session_wf(v),
        v.phase == Phase::Initializing,
        v.pending.contains_key(v.handshake_id as u64),
    ensures
        call_step(v, method) == (v, Admission::Wait),
        reply_step(v, v.handshake_id as int, true).1 == Routing::HandshakeDone,
        reply_step(v, v.handshake_id as int, true).0.phase == Phase::Answered,
        call_step(reply_step(v, v.handshake_id as int, true).0, method) == (
            reply_step(v, v.handshake_id as int, true).0,
            Admission::Wait,
        ),
        acknowledge_step(reply_step(v, v.handshake_id as int, true).0).1,
        acknowledge_step(reply_step(v, v.handshake_id as int, true).0).0.ready,
        v.next_id < u64::MAX ==> call_step(
            acknowledge_step(reply_step(v, v.handshake_id as int, true).0).0,
            method,
        ).1 == Admission::Sent(v.next_id as u64),
{
}

/// Readiness changes once: only the acknowledgement sets it, nothing
/// clears it, closing included.
pub proof fn lemma_ready_once(v: SessionView, method: String, id: int, ok: bool, key: u64, path: Seq<
    char,
>)
    ensures
        call_step(v, method).0.ready == v.ready,
        reply_step(v, id, ok).0.ready == v.ready,
        timeout_step(v, key).0.ready == v.ready,
        open_step(v, path).ready == v.ready,
        close_step(v).ready == v.ready,
        begin_step(v, method).ready == v.ready,
        v.ready ==> acknowledge_step(v).0.ready,
        !v.ready && acknowledge_step(v).0.ready ==> acknowledge_step(v).1,
{
}

/// Announcing a document twice is the same as announcing it once, and does
/// not change what any request does.
pub proof fn lemma_open_idempotent(v: SessionView, path: Seq<char>, method: String)
    ensures
        open_step(open_step(v, path), path) == open_step(v, path),
        call_step(open_step(v, path), method).1 == call_step(v, method).1,
        call_step(open_step(v, path), method).0 == open_step(call_step(v, method).0, path),
{
    assert(open_step(open_step(v, path), path).opened =~= open_step(v, path).opened);
}

/// Giving up one request leaves every other awaited request to be answered
/// as before; a late response to the one given up reaches nobody.
pub proof fn lemma_timeout_isolated(v: SessionView, a: u64, b: u64, ok: bool)
    requires
        v.phase == Phase::Ready,
        a != b,
        v.pending.contains_key(a),
        v.pending.contains_key(b),
    ensures
        timeout_step(v, a).1 == Some(v.pending[a]),
        reply_step(timeout_step(v, a).0, b as int, ok).1 == (Routing::Deliver {
            id: b,
            method: v.pending[b],
        }),
        reply_step(timeout_step(v, a).0, a as int, ok).1 == Routing::Unmatched,
{
    assert(timeout_step(v, a).0.pending[b] == v.pending[b]);
}

} // verus!
