//! Per-session state: the scrollback ring, the attached-client count, and
//! the detach timestamp, with the rules for attach, detach and reaping.

use vstd::prelude::*;
use crate::scrollback::{Scrollback, ring_tail, SCROLLBACK_LIMIT};

verus! {

/// How long a session may stay without clients before it is an orphan.
pub const ORPHAN_TIMEOUT_MS: u64 = 60000;

/// `suf` is a contiguous suffix of `s`.
pub open spec fn is_suffix_of(suf: Seq<u8>, s: Seq<u8>) -> bool {
    &&& suf.len() <= s.len()
    &&& suf == s.skip(s.len() - suf.len())
}

/// The retained ring is always a contiguous suffix of what was appended.
pub proof fn lemma_ring_tail_suffix(s: Seq<u8>)
    ensures
        is_suffix_of(ring_tail(s), s),
{
    if s.len() <= SCROLLBACK_LIMIT {
        assert(ring_tail(s) =~= s.skip(0));
    }
}

/// A suffix of a suffix is a suffix.
pub proof fn lemma_suffix_trans(a: Seq<u8>, b: Seq<u8>, c: Seq<u8>)
    requires
        is_suffix_of(a, b),
        is_suffix_of(b, c),
    ensures
        is_suffix_of(a, c),
{
    assert(a =~= c.skip(c.len() - a.len()));
}

/// Attach atomicity at the seam: a snapshot that is a contiguous suffix of
/// the output produced so far, followed by every byte produced afterwards,
/// is a contiguous suffix of the total output — nothing at the seam is
/// duplicated and nothing is lost.
pub proof fn lemma_attach_atomicity(snapshot: Seq<u8>, produced: Seq<u8>, later: Seq<u8>)
    requires
        is_suffix_of(snapshot, produced),
    ensures
        is_suffix_of(snapshot + later, produced + later),
{
    assert(snapshot + later =~= (produced + later).skip(produced.len() - snapshot.len()));
}

/// One client-side lifecycle operation on a session.
pub enum SessionOp {
    Attach,
    Detach { now_ms: u64 },
}

/// The lifecycle-relevant part of a session's state.
pub struct LifecycleState {
    pub clients: int,
    pub detached_at: Option<u64>,
}

/// The state of a freshly created session: no client yet, no detach recorded.
pub open spec fn lifecycle_init() -> LifecycleState {
    LifecycleState { clients: 0, detached_at: None }
}

/// A detach is only issued by a client that attached earlier.
pub open spec fn op_allowed(s: LifecycleState, op: SessionOp) -> bool {
    match op {
        SessionOp::Attach => true,
        SessionOp::Detach { .. } => s.clients >= 1,
    }
}

/// How one operation changes the lifecycle state: attach counts the client
/// up and clears the detach timestamp; detach counts down and records the
/// time when the last client leaves.
pub open spec fn apply_op(s: LifecycleState, op: SessionOp) -> LifecycleState {
    match op {
        SessionOp::Attach => LifecycleState { clients: s.clients + 1, detached_at: None },
        SessionOp::Detach { now_ms } => LifecycleState {
            clients: s.clients - 1,
            detached_at: if s.clients == 1 {
                Some(now_ms)
            } else {
                s.detached_at
            },
        },
    }
}

/// Every operation in `ops`, run from `s`, is allowed where it occurs.
pub open spec fn ops_allowed(s: LifecycleState, ops: Seq<SessionOp>) -> bool
    decreases ops.len(),
{
    ops.len() == 0 || (op_allowed(s, ops[0]) && ops_allowed(apply_op(s, ops[0]), ops.skip(1)))
}

/// The state after running `ops` from `s`.
pub open spec fn run_ops(s: LifecycleState, ops: Seq<SessionOp>) -> LifecycleState
    decreases ops.len(),
{
    if ops.len() == 0 {
        s
    } else {
        run_ops(apply_op(s, ops[0]), ops.skip(1))
    }
}

/// Holds of every reachable state: the count is non-negative, and a recorded
/// detach time implies no client is attached.
pub open spec fn lifecycle_inv(s: LifecycleState) -> bool {
    &&& s.clients >= 0
    &&& s.clients > 0 ==> s.detached_at is None
}

/// Holds after at least one operation: the detach time is recorded exactly
/// when the count is zero.
pub open spec fn lifecycle_inv_strict(s: LifecycleState) -> bool {
    &&& s.clients >= 0
    &&& s.detached_at is Some <==> s.clients == 0
}

proof fn lemma_lifecycle_aux(s: LifecycleState, ops: Seq<SessionOp>)
    requires
        lifecycle_inv(s),
        ops_allowed(s, ops),
    ensures
        forall|k: int|
            0 <= k <= ops.len() ==> lifecycle_inv(run_ops(s, #[trigger] ops.take(k))),
        forall|k: int|
            1 <= k <= ops.len() ==> lifecycle_inv_strict(run_ops(s, #[trigger] ops.take(k))),
    decreases ops.len(),
{
    assert(ops.take(0) =~= Seq::<SessionOp>::empty());
    if ops.len() > 0 {
        let s1 = apply_op(s, ops[0]);
        assert(lifecycle_inv_strict(s1));
        lemma_lifecycle_aux(s1, ops.skip(1));
        assert forall|k: int| 1 <= k <= ops.len() implies lifecycle_inv_strict(
            run_ops(s, #[trigger] ops.take(k)),
        ) by {
            let pre = ops.take(k);
            assert(pre.len() == k);
            assert(pre[0] == ops[0]);
            assert(pre.skip(1) =~= ops.skip(1).take(k - 1));
            assert(run_ops(s, pre) == run_ops(s1, ops.skip(1).take(k - 1)));
            if k == 1 {
                assert(ops.skip(1).take(0) =~= Seq::<SessionOp>::empty());
            }
        }
        assert forall|k: int| 0 <= k <= ops.len() implies lifecycle_inv(
            run_ops(s, #[trigger] ops.take(k)),
        ) by {
            if k >= 1 {
                assert(lifecycle_inv_strict(run_ops(s, ops.take(k))));
            } else {
                assert(ops.take(0) =~= Seq::<SessionOp>::empty());
            }
        }
    }
}

/// Non-negative client count: under any interleaving of attaches and
/// detaches in which each detach comes from a client that attached, the
/// client count never drops below zero at any point; and from the first
/// operation on, the detach timestamp is recorded exactly while the count
/// is zero.
pub proof fn lemma_client_count(ops: Seq<SessionOp>)
    requires
        ops_allowed(lifecycle_init(), ops),
    ensures
        forall|k: int|
            0 <= k <= ops.len() ==> run_ops(lifecycle_init(), #[trigger] ops.take(k)).clients
                >= 0,
        forall|k: int|
            1 <= k <= ops.len() ==> {
                let s = run_ops(lifecycle_init(), #[trigger] ops.take(k));
                s.detached_at is Some <==> s.clients == 0
            },
{
    lemma_lifecycle_aux(lifecycle_init(), ops);
}

/// One logical session: a shell's retained output plus lifecycle counters.
pub struct Session {
    scrollback: Scrollback,
    clients: usize,
    detached_at: Option<u64>,
    produced: Ghost<Seq<u8>>,
}

impl View for Session {
    type V = Seq<u8>;

    /// The bytes currently retained in scrollback.
    closed spec fn view(&self) -> Seq<u8> {
        self.scrollback@
    }
}

impl Session {
    /// Every byte the scrollback collector has observed from the shell.
    pub closed spec fn produced_bytes(&self) -> Seq<u8> {
        self.produced@
    }

    /// Number of currently attached clients.
    pub closed spec fn spec_clients(&self) -> int {
        self.clients as int
    }

    /// When the last client detached, if none is attached.
    pub closed spec fn spec_detached_at(&self) -> Option<u64> {
        self.detached_at
    }

    /// The lifecycle-relevant part of this session's state.
    pub open spec fn lifecycle(&self) -> LifecycleState {
        LifecycleState { clients: self.spec_clients(), detached_at: self.spec_detached_at() }
    }

    /// Session invariants: bounded scrollback that is a contiguous suffix of
    /// the observed output, and a detach time only while no client is
    /// attached.
    pub open spec fn wf(&self) -> bool {
        &&& self@.len() <= SCROLLBACK_LIMIT
        &&& is_suffix_of(self@, self.produced_bytes())
        &&& self.spec_clients() > 0 ==> self.spec_detached_at() is None
    }

    /// A fresh session: empty scrollback, no client, no detach recorded.
    pub fn new() -> (r: Session)
        ensures
            r.wf(),
            r@ == Seq::<u8>::empty(),
            r.produced_bytes() == Seq::<u8>::empty(),
            r.lifecycle() == lifecycle_init(),
    {
        let r = Session {
            scrollback: Scrollback::new(),
            clients: 0,
            detached_at: None,
            produced: Ghost(Seq::empty()),
        };
        proof {
            assert(r@ =~= r.produced_bytes().skip(0));
        }
        r
    }

    /// The scrollback collector observed `data` from the shell's output
    /// broadcast: append it to the ring, evicting the oldest bytes.
    pub fn note_output(&mut self, data: &[u8])
        requires
            old(self).wf(),
        ensures
            final(self).wf(),
            final(self).produced_bytes() == old(self).produced_bytes() + data@,
            final(self)@ == ring_tail(old(self)@ + data@),
            final(self).lifecycle() == old(self).lifecycle(),
    {
        let ghost sb0 = self@;
        let ghost prod0 = self.produced@;
        self.scrollback.append(data);
        self.produced = Ghost(prod0 + data@);
        proof {
            lemma_ring_tail_suffix(sb0 + data@);
            lemma_attach_atomicity(sb0, prod0, data@);
            lemma_suffix_trans(ring_tail(sb0 + data@), sb0 + data@, prod0 + data@);
        }
    }

    /// Atomic attach: counts the client, clears the detach timestamp, and
    /// returns the scrollback snapshot. The caller creates its live
    /// subscription in the same critical section, so the snapshot meets the
    /// subscription with no gap and no duplicate.
    pub fn attach(&mut self) -> (snapshot: Vec<u8>)
        requires
            old(self).wf(),
            old(self).spec_clients() < usize::MAX,
        ensures
            final(self).wf(),
            snapshot@ == old(self)@,
            is_suffix_of(snapshot@, final(self).produced_bytes()),
            final(self)@ == old(self)@,
            final(self).produced_bytes() == old(self).produced_bytes(),
            final(self).lifecycle() == apply_op(old(self).lifecycle(), SessionOp::Attach),
    {
        self.clients = self.clients + 1;
        self.detached_at = None;
        self.scrollback.snapshot()
    }

    /// Detach: counts the client down; when the last one leaves, records the
    /// time it left.
    pub fn detach(&mut self, now_ms: u64)
        requires
            old(self).wf(),
            old(self).spec_clients() >= 1,
        ensures
            final(self).wf(),
            final(self)@ == old(self)@,
            final(self).produced_bytes() == old(self).produced_bytes(),
            final(self).lifecycle() == apply_op(
                old(self).lifecycle(),
                SessionOp::Detach { now_ms },
            ),
    {
        self.clients = self.clients - 1;
        if self.clients == 0 {
            self.detached_at = Some(now_ms);
        }
    }

    /// A session is an orphan when no client is attached and the last one
    /// left at least the orphan timeout ago.
    pub open spec fn orphaned_spec(&self, now_ms: u64) -> bool {
        &&& self.spec_clients() == 0
        &&& match self.spec_detached_at() {
            Some(t) => now_ms >= t && now_ms - t >= ORPHAN_TIMEOUT_MS,
            None => false,
        }
    }

    pub fn is_orphaned(&self, now_ms: u64) -> (r: bool)
        ensures
            r == self.orphaned_spec(now_ms),
    {
        match self.detached_at {
            Some(t) => self.clients == 0 && now_ms >= t && now_ms - t >= ORPHAN_TIMEOUT_MS,
            None => false,
        }
    }

    /// The reaper removes a session that is an orphan, or whose shell has
    /// exited while no client is attached.
    pub open spec fn should_reap_spec(&self, shell_closed: bool, now_ms: u64) -> bool {
        self.orphaned_spec(now_ms) || (shell_closed && self.spec_clients() == 0)
    }

    pub fn should_reap(&self, shell_closed: bool, now_ms: u64) -> (r: bool)
        ensures
            r == self.should_reap_spec(shell_closed, now_ms),
    {
        self.is_orphaned(now_ms) || (shell_closed && self.clients == 0)
    }

    pub fn client_count(&self) -> (r: usize)
        ensures
            r as int == self.spec_clients(),
    {
        self.clients
    }

    pub fn detached_at_ms(&self) -> (r: Option<u64>)
        ensures
            r == self.spec_detached_at(),
    {
        self.detached_at
    }

    /// Number of bytes currently retained in scrollback.
    pub fn scrollback_len(&self) -> (r: usize)
        ensures
            r == self@.len(),
    {
        self.scrollback.len()
    }
}

/// Lifecycle of a dead session: once the shell has exited, a session with no
/// attached client is chosen for removal by the reaper's test, whatever the
/// clock says.
pub proof fn lemma_dead_detached_is_reaped(s: &Session, now_ms: u64)
    requires
        s.spec_clients() == 0,
    ensures
        s.should_reap_spec(true, now_ms),
{
}

} // verus!
