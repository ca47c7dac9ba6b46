//! The pool core: bounded admission, the idle queue, lazy filling of slots
//! and the check-out / check-in protocol.
//!
//! The pool is a sequential state machine. Whatever cannot be decided here —
//! the wall clock, and the backend work done by a [`Manager`] — enters as a
//! plain value: callers pass the current monotonic time in milliseconds, and
//! the manager's `connect` and `check` results are handled exactly, whatever
//! they are. An asynchronous runtime that wants callers to block for a free
//! slot drives these operations in a loop of its own; every decision the
//! loop needs is taken, and proved, here.

use vstd::prelude::*;
use vstd::pervasive::VecAdditionalExecFns;

use crate::error::Error;
use crate::error::Stage;
use crate::queue::queue_bound;
use crate::queue::queue_new;
use crate::queue::queue_pop;
use crate::queue::queue_push;
use crate::queue::queue_slots;
use crate::status::count_state;
use crate::status::lemma_count_partition;
use crate::status::lemma_count_pos;
use crate::status::lemma_count_update;
use crate::status::SlotState;
use crate::status::State;
use crate::status::Status;

verus! {

/// Backend-specific behaviour plugged into the pool: creating a fresh
/// resource and probing the liveness of an existing one. Implementations
/// decide freely when to fail; the pool is verified against every outcome.
///
/// Both operations take the manager exclusively, so a system that shares
/// one pool serialises its backend calls around it; a front end that wants
/// concurrent connects must shard its managers itself.
pub trait Manager {
    /// The resource type this manager deals with.
    type Connection;

    /// The error type reported by `connect` and `check`.
    type Error;

    /// Attempts to create a new resource.
    fn connect(&mut self) -> Result<Self::Connection, Self::Error>;

    /// Determines whether the resource is still usable at check-out.
    fn check(&mut self, conn: &mut Self::Connection) -> Result<(), Self::Error>;
}

/// One slot record: the owned resource, if any, and the time of the last
/// successful liveness probe (milliseconds on the pool's clock; 0 when the
/// resource was never probed).
struct SlotEntry<C> {
    con: Option<C>,
    time: u64,
}

/// A checked-out slot: the scoped borrow handed to a caller. The caller owns
/// the resource through it and returns the slot with [`Pool::checkin`].
///
/// The fields are open to the caller. Check-in asks that the handle still
/// denote the slot it was granted for; that binds verified callers, while
/// an unverified caller is trusted not to forge one.
pub struct PooledConnection<M: Manager> {
    /// The stable index of the slot this handle was checked out from.
    pub idx: usize,
    /// The resource; `None` once it has been taken out permanently.
    pub con: Option<M::Connection>,
}

impl<M: Manager> PooledConnection<M> {
    /// Takes the resource out of the pool permanently. The emptied handle is
    /// still checked back in; its slot then returns as `Empty`.
    pub fn take(&mut self) -> (c: M::Connection)
        requires
            old(self).con is Some,
        ensures
            final(self).con is None,
            final(self).idx == old(self).idx,
            c == old(self).con->0,
    {
        self.con.take().unwrap()
    }

    /// Whether the resource has been taken out.
    pub fn is_empty(&self) -> (r: bool)
        ensures
            r == (self.con is None),
    {
        self.con.is_none()
    }
}

/// The mathematical model of a pool: every contract below speaks over this
/// view.
#[verifier::ext_equal]
pub struct PoolView<C> {
    /// The fixed number of slots.
    pub maxsize: nat,
    /// Whether the pool has been closed (terminal).
    pub closed: bool,
    /// Available admission permits.
    pub permits: nat,
    /// The check policy: `None` never probes, `Some(0)` probes on every
    /// check-out, `Some(d)` probes when the last probe is at least `d`
    /// milliseconds old.
    pub check: Option<u64>,
    /// The default deadline for `get`, in milliseconds.
    pub timeout: Option<u64>,
    /// The capacity the idle queue was created with.
    pub cap: nat,
    /// The lifecycle state of each slot.
    pub states: Seq<SlotState>,
    /// The slot indices waiting in the idle queue, front first.
    pub idle: Seq<usize>,
    /// The resource held by each slot.
    pub cons: Seq<Option<C>>,
    /// The time of each slot's last successful probe.
    pub times: Seq<u64>,
}

/// Whether slot `i` is in the idle queue.
pub open spec fn slot_queued<C>(v: PoolView<C>, i: int) -> bool {
    exists|k: int| 0 <= k < v.idle.len() && (#[trigger] v.idle[k]) as int == i
}

/// The invariants tying the status table, the idle queue, the permit count
/// and the slot records together. Every public operation of the pool
/// preserves this predicate.
pub open spec fn pool_wf<C>(v: PoolView<C>) -> bool {
    &&& 0 < v.maxsize <= 0xffff_ffffnat
    &&& v.states.len() == v.maxsize
    &&& v.cons.len() == v.maxsize
    &&& v.times.len() == v.maxsize
    &&& v.cap == v.maxsize
    &&& v.idle.len() <= v.maxsize
    &&& v.permits == v.idle.len()
    &&& (!v.closed ==> v.idle.len() + count_state(v.states, SlotState::InUse) + count_state(
        v.states,
        SlotState::InCheck,
    ) == v.maxsize)
    &&& (forall|k: int| 0 <= k < v.idle.len() ==> ((#[trigger] v.idle[k]) as int) < v.maxsize)
    &&& (forall|k1: int, k2: int|
        0 <= k1 < k2 < v.idle.len() ==> #[trigger] v.idle[k1] != #[trigger] v.idle[k2])
    &&& (forall|k: int|
        0 <= k < v.idle.len() ==> ((v.states[(#[trigger] v.idle[k]) as int] is Empty)
            || (v.states[v.idle[k] as int] is Idle)))
    &&& (!v.closed ==> forall|i: int|
        0 <= i < v.states.len() && (((#[trigger] v.states[i]) is Empty) || (v.states[i] is Idle))
            ==> slot_queued(v, i))
    &&& (forall|i: int|
        0 <= i < v.states.len() ==> (((#[trigger] v.states[i]) is Idle) <==> v.cons[i] is Some))
}

/// Nothing but the given slot states, queue contents and permit count
/// changed.
pub open spec fn spec_cfg_kept<C>(v0: PoolView<C>, v1: PoolView<C>) -> bool {
    &&& v1.maxsize == v0.maxsize
    &&& v1.closed == v0.closed
    &&& v1.check == v0.check
    &&& v1.timeout == v0.timeout
    &&& v1.cap == v0.cap
}

/// Whether a liveness probe is due at time `now` for a slot whose resource
/// is fresh (`fresh`) or was last probed at `last`.
pub open spec fn spec_check_due(check_cfg: Option<u64>, fresh: bool, now: u64, last: u64) -> bool {
    match check_cfg {
        None => false,
        Some(d) => fresh || d == 0 || now >= last + d,
    }
}

/// A successful check-out of the slot at the front of the idle queue: the
/// slot becomes `InUse`, leaves the queue with its permit, and its resource
/// moves into the handle. When the slot was idle and no probe was due, the
/// handle carries exactly the resource the slot held, and no probe time
/// changes.
pub open spec fn spec_grant<C>(
    v0: PoolView<C>,
    v1: PoolView<C>,
    idx: usize,
    con: Option<C>,
    now: u64,
) -> bool {
    let j = v0.idle[0] as int;
    let fresh = v0.states[j] is Empty;
    let due = spec_check_due(v0.check, fresh, now, v0.times[j]);
    &&& idx == v0.idle[0]
    &&& con is Some
    &&& v1.states == v0.states.update(j, SlotState::InUse)
    &&& v1.idle == v0.idle.drop_first()
    &&& v1.permits == v0.permits - 1
    &&& v1.cons == v0.cons.update(j, None::<C>)
    &&& (due ==> v1.times == v0.times.update(j, now))
    &&& (!due ==> v1.times == v0.times)
    &&& (!fresh && !due ==> con == v0.cons[j])
}

/// A failed fill of the slot at the front of the idle queue: the resource is
/// dropped, the slot returns to the queue as `Empty`, and the permit is
/// released, so a later caller will attempt `connect` again.
pub open spec fn spec_recycle<C>(v0: PoolView<C>, v1: PoolView<C>) -> bool {
    let j = v0.idle[0] as int;
    &&& v1.states == v0.states.update(j, SlotState::Empty)
    &&& v1.idle == v0.idle.drop_first().push(v0.idle[0])
    &&& v1.permits == v0.permits
    &&& v1.cons == v0.cons.update(j, None::<C>)
    &&& v1.times == v0.times
}

/// What prewarming did to slot `i`: an empty slot gained a fresh resource
/// and became idle — with its probe time set when the policy probes at all —
/// and every other slot is untouched.
pub open spec fn warmed_at<C>(v0: PoolView<C>, v1: PoolView<C>, i: int, now: u64) -> bool {
    &&& v1.states[i] == (if v0.states[i] is Empty {
        SlotState::Idle
    } else {
        v0.states[i]
    })
    &&& (v0.states[i] is Empty ==> v1.cons[i] is Some)
    &&& (!(v0.states[i] is Empty) ==> v1.cons[i] == v0.cons[i])
    &&& v1.times[i] == (if v0.states[i] is Empty && v0.check is Some {
        now
    } else {
        v0.times[i]
    })
}

/// Prewarming filled every empty slot and touched nothing else.
pub open spec fn spec_warmed<C>(v0: PoolView<C>, v1: PoolView<C>, now: u64) -> bool {
    forall|i: int| 0 <= i < v0.states.len() ==> #[trigger] warmed_at(v0, v1, i, now)
}

/// Slot `i` is exactly as it was.
pub open spec fn unchanged_at<C>(v0: PoolView<C>, v1: PoolView<C>, i: int) -> bool {
    &&& v1.states[i] == v0.states[i]
    &&& v1.cons[i] == v0.cons[i]
    &&& v1.times[i] == v0.times[i]
}

/// Validated configuration for a pool.
#[derive(Clone, Debug)]
pub struct Builder {
    maxsize: usize,
    check: Option<u64>,
    timeout: Option<u64>,
}

impl Builder {
    /// The configured number of slots.
    pub closed spec fn spec_maxsize(&self) -> usize {
        self.maxsize
    }

    /// The configured check policy.
    pub closed spec fn spec_check(&self) -> Option<u64> {
        self.check
    }

    /// The configured default deadline.
    pub closed spec fn spec_timeout(&self) -> Option<u64> {
        self.timeout
    }

    /// Sets the number of slots. Zero is a configuration error and is
    /// excluded.
    pub fn maxsize(self, maxsize: usize) -> (r: Builder)
        requires
            0 < maxsize <= 0xffff_ffffusize,
        ensures
            r.spec_maxsize() == maxsize,
            r.spec_check() == self.spec_check(),
            r.spec_timeout() == self.spec_timeout(),
    {
        Builder { maxsize, check: self.check, timeout: self.timeout }
    }

    /// Sets the check policy: `None` never probes, `Some(0)` probes on every
    /// check-out, `Some(d)` probes when the last probe is at least `d`
    /// milliseconds old.
    pub fn check(self, check_duration: Option<u64>) -> (r: Builder)
        ensures
            r.spec_maxsize() == self.spec_maxsize(),
            r.spec_check() == check_duration,
            r.spec_timeout() == self.spec_timeout(),
    {
        Builder { maxsize: self.maxsize, check: check_duration, timeout: self.timeout }
    }

    /// Sets the default deadline for taking a resource from the pool, in
    /// milliseconds; `None` means no deadline.
    pub fn timeout(self, timeout: Option<u64>) -> (r: Builder)
        ensures
            r.spec_maxsize() == self.spec_maxsize(),
            r.spec_check() == self.spec_check(),
            r.spec_timeout() == timeout,
    {
        Builder { maxsize: self.maxsize, check: self.check, timeout }
    }

    /// Builds the pool: `maxsize` empty slots, all waiting in the idle
    /// queue, and every admission permit available.
    pub fn build<M: Manager>(self, manager: M) -> (p: Pool<M>)
        requires
            0 < self.spec_maxsize() <= 0xffff_ffffusize,
        ensures
            pool_wf(p@),
            !p@.closed,
            p@.maxsize == self.spec_maxsize(),
            p@.check == self.spec_check(),
            p@.timeout == self.spec_timeout(),
            p@.permits == p@.maxsize,
            p@.idle.len() == p@.maxsize,
            forall|k: int| 0 <= k < p@.maxsize ==> (#[trigger] p@.idle[k]) as int == k,
            forall|i: int| 0 <= i < p@.maxsize ==> (#[trigger] p@.states[i]) is Empty,
            forall|i: int| 0 <= i < p@.maxsize ==> (#[trigger] p@.cons[i]) is None,
            forall|i: int| 0 <= i < p@.maxsize ==> (#[trigger] p@.times[i]) == 0,
            p.spec_manager() == manager,
    {
        let maxsize = self.maxsize;
        let status = Status::new(maxsize);
        let mut queue = queue_new(maxsize);
        let mut slots: Vec<SlotEntry<M::Connection>> = Vec::new();
        let mut idx: usize = 0;
        while idx < maxsize
            invariant
                idx <= maxsize,
                maxsize <= 0xffff_ffffusize,
                queue_bound(queue) == maxsize,
                queue_slots(queue).len() == idx,
                forall|k: int| 0 <= k < idx ==> (#[trigger] queue_slots(queue)[k]) as int == k,
                slots@.len() == idx,
                forall|i: int| 0 <= i < idx ==> (#[trigger] slots@[i]).con is None,
                forall|i: int| 0 <= i < idx ==> (#[trigger] slots@[i]).time == 0,
            decreases maxsize - idx,
        {
            slots.push(SlotEntry { con: None, time: 0 });
            let pushed = queue_push(&mut queue, idx);
            proof {
                assert(pushed is Ok);
            }
            idx += 1;
        }
        let p = Pool {
            cfg: self,
            manager,
            status,
            slots,
            queue,
            permits: maxsize,
            closed: false,
        };
        proof {
            assert(p@.cons =~= Seq::new(maxsize as nat, |i: int| None::<M::Connection>));
            assert(p@.times =~= Seq::new(maxsize as nat, |i: int| 0u64));
            lemma_count_absent(p@.states, SlotState::InUse);
            lemma_count_absent(p@.states, SlotState::InCheck);
            assert forall|i: int|
                0 <= i < p@.states.len() && (((#[trigger] p@.states[i]) is Empty) || (p@.states[i]
                    is Idle)) implies slot_queued(p@, i) by {
                assert(p@.idle[i] as int == i);
            }
        }
        p
    }
}

impl Default for Builder {
    /// The default configuration: 20 slots, a 5 second deadline, and a probe
    /// on every check-out.
    fn default() -> (r: Builder)
        ensures
            r.spec_maxsize() == 20,
            r.spec_check() == Some(0u64),
            r.spec_timeout() == Some(5000u64),
    {
        Builder { maxsize: 20, check: Some(0), timeout: Some(5000) }
    }
}

/// A tally of a state no entry is in is zero.
proof fn lemma_count_absent(s: Seq<SlotState>, t: SlotState)
    requires
        forall|i: int| 0 <= i < s.len() ==> (#[trigger] s[i]) != t,
    ensures
        count_state(s, t) == 0,
    decreases s.len(),
{
    if s.len() > 0 {
        lemma_count_absent(s.drop_last(), t);
    }
}

/// The pool: a bounded set of slots, their status table, the idle queue and
/// the admission permits.
pub struct Pool<M: Manager> {
    cfg: Builder,
    manager: M,
    status: Status,
    slots: Vec<SlotEntry<M::Connection>>,
    queue: crossbeam_queue::ArrayQueue<usize>,
    permits: usize,
    closed: bool,
}

impl<M: Manager> View for Pool<M> {
    type V = PoolView<M::Connection>;

    closed spec fn view(&self) -> PoolView<M::Connection> {
        PoolView {
            maxsize: self.cfg.maxsize as nat,
            closed: self.closed,
            permits: self.permits as nat,
            check: self.cfg.check,
            timeout: self.cfg.timeout,
            cap: queue_bound(self.queue),
            states: self.status@,
            idle: queue_slots(self.queue),
            cons: Seq::new(self.slots@.len(), |i: int| self.slots@[i].con),
            times: Seq::new(self.slots@.len(), |i: int| self.slots@[i].time),
        }
    }
}

impl<M: Manager> Pool<M> {
    /// The manager the pool was built with.
    pub closed spec fn spec_manager(&self) -> M {
        self.manager
    }

    /// A pool over the given manager with the default configuration, just
    /// as `Pool::builder().build(manager)` yields it.
    pub fn new(manager: M) -> (p: Pool<M>)
        ensures
            pool_wf(p@),
            !p@.closed,
            p@.maxsize == 20,
            p@.check == Some(0u64),
            p@.timeout == Some(5000u64),
            p@.permits == p@.maxsize,
            p@.idle.len() == p@.maxsize,
            forall|k: int| 0 <= k < p@.maxsize ==> (#[trigger] p@.idle[k]) as int == k,
            forall|i: int| 0 <= i < p@.maxsize ==> (#[trigger] p@.states[i]) is Empty,
            forall|i: int| 0 <= i < p@.maxsize ==> (#[trigger] p@.cons[i]) is None,
            forall|i: int| 0 <= i < p@.maxsize ==> (#[trigger] p@.times[i]) == 0,
            p.spec_manager() == manager,
    {
        let cfg = Self::builder();
        cfg.build(manager)
    }

    /// A configuration with the defaults filled in.
    pub fn builder() -> (r: Builder)
        ensures
            r.spec_maxsize() == 20,
            r.spec_check() == Some(0u64),
            r.spec_timeout() == Some(5000u64),
    {
        Builder::default()
    }

    /// An advisory snapshot of the slot states. The four per-state counters
    /// partition `maxsize`, and `size` counts the slots holding an
    /// established resource.
    pub fn state(&self) -> (r: State)
        requires
            pool_wf(self@),
        ensures
            r.maxsize as nat == self@.maxsize,
            r.empty as nat == count_state(self@.states, SlotState::Empty),
            r.incheck as nat == count_state(self@.states, SlotState::InCheck),
            r.inuse as nat == count_state(self@.states, SlotState::InUse),
            r.idle as nat == count_state(self@.states, SlotState::Idle),
            r.size == r.inuse as int + r.idle as int + r.incheck as int,
            r.maxsize == r.size as int + r.empty as int,
            r.empty as int + r.idle as int + r.inuse as int + r.incheck as int == r.maxsize as int,
            r.wait == 0,
    {
        self.status.state()
    }

    /// The manager the pool was built with.
    pub fn manager(&self) -> (r: &M)
        ensures
            *r == self.spec_manager(),
    {
        &self.manager
    }

    /// The configuration the pool was built with.
    pub fn config(&self) -> (r: &Builder)
        ensures
            r.spec_maxsize() as nat == self@.maxsize,
            r.spec_check() == self@.check,
            r.spec_timeout() == self@.timeout,
    {
        &self.cfg
    }

    /// Closes the pool permanently: every later attempt to take a resource
    /// fails with `Closed`, and slots checked in from now on are retired
    /// instead of queued.
    pub fn close(&mut self)
        requires
            pool_wf(old(self)@),
        ensures
            pool_wf(final(self)@),
            final(self)@ == (PoolView { closed: true, ..old(self)@ }),
    {
        self.closed = true;
    }

    /// One full check-out attempt on the slot at the front of the idle
    /// queue: take the permit, pop the slot, connect if it is empty, probe
    /// if a probe is due, and hand the slot off — or recycle it when the
    /// manager fails. With a permit in hand the idle queue is provably
    /// non-empty — the queue holds exactly one index per available permit —
    /// so the pop cannot miss.
    fn checkout(&mut self, now_ms: u64) -> (r: Result<PooledConnection<M>, Error<M::Error>>)
        requires
            pool_wf(old(self)@),
            !old(self)@.closed,
            old(self)@.permits > 0,
        ensures
            pool_wf(final(self)@),
            spec_cfg_kept(old(self)@, final(self)@),
            r matches Ok(h) ==> spec_grant(old(self)@, final(self)@, h.idx, h.con, now_ms),
            r matches Err(e) ==> e is Inner && spec_recycle(old(self)@, final(self)@),
            old(self)@.states[old(self)@.idle[0] as int] is Idle && !spec_check_due(old(self)@.check, false, now_ms, old(self)@.times[old(self)@.idle[0] as int]) ==> r is Ok,
    {
        let ghost v0 = self@;
        let popped = queue_pop(&mut self.queue);
        let j = popped.unwrap();
        let ghost jj = j as int;
        proof {
            assert(jj < v0.maxsize);
            assert((v0.states[jj] is Empty) || (v0.states[jj] is Idle));
        }
        self.permits = self.permits - 1;
        let mut entry = SlotEntry { con: None, time: 0 };
        self.slots.set_and_swap(j, &mut entry);
        proof {
            assert(entry.con == v0.cons[jj]);
            assert(entry.time == v0.times[jj]);
        }
        let fresh = entry.con.is_none();
        proof {
            assert(fresh == (v0.states[jj] is Empty));
        }
        let mut con: Option<M::Connection> = entry.con;
        let t0 = entry.time;
        if fresh {
            match self.manager.connect() {
                Ok(c) => {
                    con = Some(c);
                },
                Err(e) => {
                    self.slots.set(j, SlotEntry { con: None, time: t0 });
                    self.status.set_empty(j);
                    let pushed = queue_push(&mut self.queue, j);
                    proof {
                        assert(pushed is Ok);
                    }
                    self.permits = self.permits + 1;
                    proof {
                        assert(self@.cons =~= v0.cons.update(jj, None::<M::Connection>));
                        assert(self@.times =~= v0.times);
                        lemma_wf_after_recycle(v0, self@);
                    }
                    return Err(Error::Inner(e));
                },
            }
        }
        let due = check_due(self.cfg.check, fresh, now_ms, t0);
        let mut tnew = t0;
        if due {
            self.status.set_incheck(j);
            let mut c = con.unwrap();
            match self.manager.check(&mut c) {
                Ok(_) => {
                    con = Some(c);
                    tnew = now_ms;
                },
                Err(e) => {
                    self.slots.set(j, SlotEntry { con: None, time: t0 });
                    self.status.set_empty(j);
                    let pushed = queue_push(&mut self.queue, j);
                    proof {
                        assert(pushed is Ok);
                    }
                    self.permits = self.permits + 1;
                    proof {
                        assert(self@.states =~= v0.states.update(jj, SlotState::Empty));
                        assert(self@.cons =~= v0.cons.update(jj, None::<M::Connection>));
                        assert(self@.times =~= v0.times);
                        lemma_wf_after_recycle(v0, self@);
                    }
                    return Err(Error::Inner(e));
                },
            }
        }
        self.slots.set(j, SlotEntry { con: None, time: tnew });
        self.status.set_inuse(j);
        proof {
            assert(self@.states =~= v0.states.update(jj, SlotState::InUse));
            assert(self@.cons =~= v0.cons.update(jj, None::<M::Connection>));
            if spec_check_due(v0.check, v0.states[jj] is Empty, now_ms, v0.times[jj]) {
                assert(self@.times =~= v0.times.update(jj, now_ms));
            } else {
                assert(self@.times =~= v0.times);
            }
            lemma_wf_after_grant(v0, self@);
        }
        Ok(PooledConnection { idx: j, con })
    }

    /// Takes a resource under the pool's configured deadline. See
    /// [`Pool::get_timeout`].
    pub fn get(&mut self, now_ms: u64) -> (r: Result<PooledConnection<M>, Error<M::Error>>)
        requires
            pool_wf(old(self)@),
            old(self)@.closed || old(self)@.permits > 0 || old(self)@.timeout is Some,
        ensures
            pool_wf(final(self)@),
            old(self)@.closed ==> final(self)@ == old(self)@ && (r matches Err(e) && e is Closed),
            !old(self)@.closed && old(self)@.permits == 0 ==> final(self)@ == old(self)@ && (r matches Err(e) && e == Error::<M::Error>::Timeout(Stage::Wait)),
            !old(self)@.closed && old(self)@.permits > 0 ==> spec_cfg_kept(old(self)@, final(self)@) && (r matches Ok(h) ==> spec_grant(old(self)@, final(self)@, h.idx, h.con, now_ms)) && (r matches Err(e) ==> e is Inner && spec_recycle(old(self)@, final(self)@)),
            !old(self)@.closed && old(self)@.permits > 0 && old(self)@.states[old(self)@.idle[0] as int] is Idle && !spec_check_due(old(self)@.check, false, now_ms, old(self)@.times[old(self)@.idle[0] as int]) ==> r is Ok,
    {
        let timeout_ms = self.cfg.timeout;
        self.get_timeout(timeout_ms, now_ms)
    }

    /// Takes a resource: on a closed pool fails with `Closed`; when no
    /// permit is free, waiting cannot end here (the caller is the only
    /// task), so the deadline — which the precondition demands in that case
    /// — expires with `Timeout` at the `Wait` stage. Otherwise the front
    /// idle slot is filled and handed off, or recycled with `Inner` when the
    /// manager fails. `now_ms` is the current time on the pool's monotonic
    /// clock, in milliseconds.
    pub fn get_timeout(&mut self, timeout_ms: Option<u64>, now_ms: u64) -> (r: Result<PooledConnection<M>, Error<M::Error>>)
        requires
            pool_wf(old(self)@),
            old(self)@.closed || old(self)@.permits > 0 || timeout_ms is Some,
        ensures
            pool_wf(final(self)@),
            old(self)@.closed ==> final(self)@ == old(self)@ && (r matches Err(e) && e is Closed),
            !old(self)@.closed && old(self)@.permits == 0 ==> final(self)@ == old(self)@ && (r matches Err(e) && e == Error::<M::Error>::Timeout(Stage::Wait)),
            !old(self)@.closed && old(self)@.permits > 0 ==> spec_cfg_kept(old(self)@, final(self)@) && (r matches Ok(h) ==> spec_grant(old(self)@, final(self)@, h.idx, h.con, now_ms)) && (r matches Err(e) ==> e is Inner && spec_recycle(old(self)@, final(self)@)),
            !old(self)@.closed && old(self)@.permits > 0 && old(self)@.states[old(self)@.idle[0] as int] is Idle && !spec_check_due(old(self)@.check, false, now_ms, old(self)@.times[old(self)@.idle[0] as int]) ==> r is Ok,
    {
        if self.closed {
            return Err(Error::Closed);
        }
        if self.permits == 0 {
            return Err(Error::Timeout(Stage::Wait));
        }
        self.checkout(now_ms)
    }

    /// Like [`Pool::try_get_timeout`], under the pool's configured deadline.
    pub fn try_get(&mut self, now_ms: u64) -> (r: Result<Option<PooledConnection<M>>, Error<M::Error>>)
        requires
            pool_wf(old(self)@),
        ensures
            pool_wf(final(self)@),
            old(self)@.closed ==> final(self)@ == old(self)@ && (r matches Err(e) && e is Closed),
            !old(self)@.closed && old(self)@.permits == 0 ==> final(self)@ == old(self)@ && (r matches Ok(o) && o is None),
            !old(self)@.closed && old(self)@.permits > 0 ==> spec_cfg_kept(old(self)@, final(self)@) && (r matches Ok(o) ==> o matches Some(h) && spec_grant(old(self)@, final(self)@, h.idx, h.con, now_ms)) && (r matches Err(e) ==> e is Inner && spec_recycle(old(self)@, final(self)@)),
            !old(self)@.closed && old(self)@.permits > 0 && old(self)@.states[old(self)@.idle[0] as int] is Idle && !spec_check_due(old(self)@.check, false, now_ms, old(self)@.times[old(self)@.idle[0] as int]) ==> r is Ok,
    {
        let timeout_ms = self.cfg.timeout;
        self.try_get_timeout(timeout_ms, now_ms)
    }

    /// Takes a resource without waiting: `Ok(None)` when no permit is free,
    /// `Closed` on a closed pool, otherwise as [`Pool::get_timeout`]. The
    /// deadline parameter bounds only the manager's work, which runs to
    /// completion within this call, so it does not influence the result
    /// here.
    pub fn try_get_timeout(&mut self, timeout_ms: Option<u64>, now_ms: u64) -> (r: Result<Option<PooledConnection<M>>, Error<M::Error>>)
        requires
            pool_wf(old(self)@),
        ensures
            pool_wf(final(self)@),
            old(self)@.closed ==> final(self)@ == old(self)@ && (r matches Err(e) && e is Closed),
            !old(self)@.closed && old(self)@.permits == 0 ==> final(self)@ == old(self)@ && (r matches Ok(o) && o is None),
            !old(self)@.closed && old(self)@.permits > 0 ==> spec_cfg_kept(old(self)@, final(self)@) && (r matches Ok(o) ==> o matches Some(h) && spec_grant(old(self)@, final(self)@, h.idx, h.con, now_ms)) && (r matches Err(e) ==> e is Inner && spec_recycle(old(self)@, final(self)@)),
            !old(self)@.closed && old(self)@.permits > 0 && old(self)@.states[old(self)@.idle[0] as int] is Idle && !spec_check_due(old(self)@.check, false, now_ms, old(self)@.times[old(self)@.idle[0] as int]) ==> r is Ok,
    {
        if self.closed {
            return Err(Error::Closed);
        }
        if self.permits == 0 {
            return Ok(None);
        }
        match self.checkout(now_ms) {
            Ok(h) => Ok(Some(h)),
            Err(e) => Err(e),
        }
    }

    /// Checks a slot back in: the scope-exit discipline of a handle. The
    /// slot's state is written from what the handle still holds — `Idle`
    /// with its resource, `Empty` when the resource was taken out — and on
    /// an open pool the slot re-enters the idle queue and its admission
    /// permit is released. On a closed pool the slot is retired instead.
    pub fn checkin(&mut self, conn: PooledConnection<M>)
        requires
            pool_wf(old(self)@),
            (conn.idx as int) < old(self)@.maxsize,
            (old(self)@.states[conn.idx as int] is InUse) || (old(self)@.states[conn.idx as int] is InCheck),
        ensures
            pool_wf(final(self)@),
            spec_cfg_kept(old(self)@, final(self)@),
            final(self)@.states == old(self)@.states.update(conn.idx as int, if conn.con is Some { SlotState::Idle } else { SlotState::Empty }),
            final(self)@.cons == old(self)@.cons.update(conn.idx as int, conn.con),
            final(self)@.times == old(self)@.times,
            !old(self)@.closed ==> final(self)@.idle == old(self)@.idle.push(conn.idx) && final(self)@.permits == old(self)@.permits + 1,
            old(self)@.closed ==> final(self)@.idle == old(self)@.idle && final(self)@.permits == old(self)@.permits,
    {
        let ghost v0 = self@;
        let j = conn.idx;
        let ghost jj = j as int;
        let has = conn.con.is_some();
        let t = self.slots[j].time;
        self.slots.set(j, SlotEntry { con: conn.con, time: t });
        if has {
            self.status.set_idle(j);
        } else {
            self.status.set_empty(j);
        }
        proof {
            assert(self@.cons =~= v0.cons.update(jj, conn.con));
            assert(self@.times =~= v0.times);
            lemma_unqueued(v0, j);
        }
        if !self.closed {
            let pushed = queue_push(&mut self.queue, j);
            proof {
                lemma_count_pos(v0.states, jj);
                assert(pushed is Ok);
            }
            self.permits = self.permits + 1;
            proof {
                lemma_wf_after_checkin(v0, self@, j, conn.con);
            }
        } else {
            proof {
                lemma_wf_after_checkin_closed(v0, self@, j, conn.con);
            }
        }
    }

    /// Eagerly fills every empty slot: connects, probes when the check
    /// policy probes at all, and releases the slot as `Idle`, so that first
    /// requests need not pay connection latency. The manager's first
    /// failure is surfaced as `Inner` and stops the warm-up; the failing
    /// slot stays `Empty`, the slots already warmed stay warm, and the
    /// rest are untouched. With no empty slot there is nothing the manager
    /// could refuse, and the call succeeds.
    pub fn start_connections(&mut self, now_ms: u64) -> (r: Result<(), Error<M::Error>>)
        requires
            pool_wf(old(self)@),
        ensures
            pool_wf(final(self)@),
            spec_cfg_kept(old(self)@, final(self)@),
            final(self)@.idle == old(self)@.idle,
            final(self)@.permits == old(self)@.permits,
            old(self)@.closed ==> final(self)@ == old(self)@ && (r matches Err(e) && e is Closed),
            !old(self)@.closed ==> (r matches Err(e) ==> e is Inner),
            !old(self)@.closed && r is Ok ==> spec_warmed(old(self)@, final(self)@, now_ms),
            !old(self)@.closed && (forall|i: int| 0 <= i < old(self)@.states.len() ==> !((#[trigger] old(self)@.states[i]) is Empty)) ==> r is Ok,
            r is Err ==> forall|i: int| 0 <= i < old(self)@.states.len() ==> (#[trigger] warmed_at(old(self)@, final(self)@, i, now_ms)) || unchanged_at(old(self)@, final(self)@, i),
            !old(self)@.closed && r is Err ==> exists|c: int| 0 <= c < old(self)@.states.len() && ((#[trigger] old(self)@.states[c]) is Empty) && unchanged_at(old(self)@, final(self)@, c) && (forall|t: int| 0 <= t < c ==> warmed_at(old(self)@, final(self)@, t, now_ms)) && (forall|t: int| c <= t < old(self)@.states.len() ==> unchanged_at(old(self)@, final(self)@, t)),
    {
        if self.closed {
            return Err(Error::Closed);
        }
        let ghost v0 = self@;
        let maxsize = self.cfg.maxsize;
        let mut i: usize = 0;
        while i < maxsize
            invariant
                v0 == old(self)@,
                pool_wf(self@),
                !self@.closed,
                spec_cfg_kept(v0, self@),
                maxsize == v0.maxsize,
                v0.states.len() == maxsize,
                self@.idle == v0.idle,
                self@.permits == v0.permits,
                i <= maxsize,
                forall|t: int| 0 <= t < i ==> #[trigger] warmed_at(v0, self@, t, now_ms),
                forall|t: int| i <= t < maxsize ==> #[trigger] unchanged_at(v0, self@, t),
            decreases maxsize - i,
        {
            let ghost vpre = self@;
            let st = self.status.load(i);
            match st {
                SlotState::Empty => {
                    match self.manager.connect() {
                        Err(e) => {
                            proof {
                                assert(unchanged_at(v0, self@, i as int));
                                assert(v0.states[i as int] is Empty);
                                assert forall|t: int| 0 <= t < v0.states.len() implies (#[trigger] warmed_at(v0, self@, t, now_ms)) || unchanged_at(v0, self@, t) by {
                                    if t < i as int {
                                        assert(warmed_at(v0, self@, t, now_ms));
                                    } else {
                                        assert(unchanged_at(v0, self@, t));
                                    }
                                }
                                assert(0 <= (i as int) && ((i as int) < v0.states.len()) && (v0.states[i as int] is Empty) && unchanged_at(v0, self@, i as int) && (forall|t: int| 0 <= t < i as int ==> #[trigger] warmed_at(v0, self@, t, now_ms)) && (forall|t: int| i as int <= t < v0.states.len() ==> #[trigger] unchanged_at(v0, self@, t)));
                            }
                            return Err(Error::Inner(e));
                        },
                        Ok(c) => {
                            let mut c = c;
                            if self.cfg.check.is_some() {
                                self.status.set_incheck(i);
                                match self.manager.check(&mut c) {
                                    Ok(_) => {
                                        self.slots.set(i, SlotEntry { con: Some(c), time: now_ms });
                                        self.status.set_idle(i);
                                        proof {
                                            assert(self@.states =~= vpre.states.update(i as int, SlotState::Idle));
                                            assert(self@.cons =~= vpre.cons.update(i as int, Some(c)));
                                            assert(self@.times =~= vpre.times.update(i as int, now_ms));
                                            lemma_wf_after_warm(vpre, self@, i);
                                            assert(unchanged_at(v0, vpre, i as int));
                                            assert(warmed_at(v0, self@, i as int, now_ms));
                                            assert forall|t: int| 0 <= t < i as int implies #[trigger] warmed_at(v0, self@, t, now_ms) by {
                                                assert(warmed_at(v0, vpre, t, now_ms));
                                            }
                                            assert forall|t: int| i as int + 1 <= t < maxsize implies #[trigger] unchanged_at(v0, self@, t) by {
                                                assert(unchanged_at(v0, vpre, t));
                                            }
                                        }
                                    },
                                    Err(e) => {
                                        self.status.set_empty(i);
                                        proof {
                                            assert(self@.states =~= vpre.states);
                                            assert(self@ =~= vpre);
                                            assert(unchanged_at(v0, self@, i as int));
                                            assert(v0.states[i as int] is Empty);
                                            assert forall|t: int| 0 <= t < v0.states.len() implies (#[trigger] warmed_at(v0, self@, t, now_ms)) || unchanged_at(v0, self@, t) by {
                                                if t < i as int {
                                                    assert(warmed_at(v0, self@, t, now_ms));
                                                } else {
                                                    assert(unchanged_at(v0, self@, t));
                                                }
                                            }
                                        assert(0 <= (i as int) && ((i as int) < v0.states.len()) && (v0.states[i as int] is Empty) && unchanged_at(v0, self@, i as int) && (forall|t: int| 0 <= t < i as int ==> #[trigger] warmed_at(v0, self@, t, now_ms)) && (forall|t: int| i as int <= t < v0.states.len() ==> #[trigger] unchanged_at(v0, self@, t)));
                                        }
                                        return Err(Error::Inner(e));
                                    },
                                }
                            } else {
                                let t = self.slots[i].time;
                                self.slots.set(i, SlotEntry { con: Some(c), time: t });
                                self.status.set_idle(i);
                                proof {
                                    assert(self@.states =~= vpre.states.update(i as int, SlotState::Idle));
                                    assert(self@.cons =~= vpre.cons.update(i as int, Some(c)));
                                    assert(self@.times =~= vpre.times);
                                    lemma_wf_after_warm(vpre, self@, i);
                                    assert(unchanged_at(v0, vpre, i as int));
                                    assert(warmed_at(v0, self@, i as int, now_ms));
                                    assert forall|t2: int| 0 <= t2 < i as int implies #[trigger] warmed_at(v0, self@, t2, now_ms) by {
                                        assert(warmed_at(v0, vpre, t2, now_ms));
                                    }
                                    assert forall|t2: int| i as int + 1 <= t2 < maxsize implies #[trigger] unchanged_at(v0, self@, t2) by {
                                        assert(unchanged_at(v0, vpre, t2));
                                    }
                                }
                            }
                        },
                    }
                },
                _ => {
                    proof {
                        assert(unchanged_at(v0, self@, i as int));
                        assert(warmed_at(v0, self@, i as int, now_ms));
                    }
                },
            }
            i += 1;
        }
        Ok(())
    }
}

/// Whether a liveness probe is due, executably.
fn check_due(check_cfg: Option<u64>, fresh: bool, now: u64, last: u64) -> (r: bool)
    ensures
        r == spec_check_due(check_cfg, fresh, now, last),
{
    match check_cfg {
        None => false,
        Some(d) => fresh || d == 0 || (now >= last && now - last >= d),
    }
}

/// Handing the front idle slot off as `InUse` preserves the pool
/// invariants.
proof fn lemma_wf_after_grant<C>(v0: PoolView<C>, v1: PoolView<C>)
    requires
        pool_wf(v0),
        !v0.closed,
        v0.idle.len() > 0,
        v1.maxsize == v0.maxsize,
        v1.cap == v0.cap,
        v1.closed == v0.closed,
        v1.permits == v0.permits - 1,
        v1.states == v0.states.update(v0.idle[0] as int, SlotState::InUse),
        v1.idle == v0.idle.drop_first(),
        v1.cons == v0.cons.update(v0.idle[0] as int, None::<C>),
        v1.times.len() == v0.times.len(),
    ensures
        pool_wf(v1),
{
    let j = v0.idle[0] as int;
    assert((v0.states[j] is Empty) || (v0.states[j] is Idle));
    lemma_count_update(v0.states, j, SlotState::InUse, SlotState::InUse);
    lemma_count_update(v0.states, j, SlotState::InUse, SlotState::InCheck);
    assert forall|k: int| 0 <= k < v1.idle.len() implies ((#[trigger] v1.idle[k]) as int)
        < v1.maxsize by {
        assert(v1.idle[k] == v0.idle[k + 1]);
    }
    assert forall|k1: int, k2: int| 0 <= k1 < k2 < v1.idle.len() implies #[trigger] v1.idle[k1]
        != #[trigger] v1.idle[k2] by {
        assert(v1.idle[k1] == v0.idle[k1 + 1]);
        assert(v1.idle[k2] == v0.idle[k2 + 1]);
    }
    assert forall|k: int| 0 <= k < v1.idle.len() implies ((v1.states[(#[trigger] v1.idle[k]) as int]
        is Empty) || (v1.states[v1.idle[k] as int] is Idle)) by {
        assert(v1.idle[k] == v0.idle[k + 1]);
        assert(v0.idle[k + 1] != v0.idle[0]);
        assert((v0.states[v0.idle[k + 1] as int] is Empty) || (v0.states[v0.idle[k + 1] as int]
            is Idle));
    }
    assert forall|i: int| 0 <= i < v1.states.len() && (((#[trigger] v1.states[i]) is Empty)
        || (v1.states[i] is Idle)) implies slot_queued(v1, i) by {
        assert(i != j);
        assert((v0.states[i] is Empty) || (v0.states[i] is Idle));
        assert(slot_queued(v0, i));
        let k = choose|k: int| 0 <= k < v0.idle.len() && (#[trigger] v0.idle[k]) as int == i;
        assert(k != 0);
        assert(v1.idle[k - 1] == v0.idle[k]);
        assert(0 <= k - 1 < v1.idle.len() && v1.idle[k - 1] as int == i);
    }
}

/// Returning the front idle slot as `Empty` — resource dropped, slot
/// re-queued, permit released — preserves the pool invariants.
proof fn lemma_wf_after_recycle<C>(v0: PoolView<C>, v1: PoolView<C>)
    requires
        pool_wf(v0),
        !v0.closed,
        v0.idle.len() > 0,
        v1.maxsize == v0.maxsize,
        v1.cap == v0.cap,
        v1.closed == v0.closed,
        v1.permits == v0.permits,
        v1.states == v0.states.update(v0.idle[0] as int, SlotState::Empty),
        v1.idle == v0.idle.drop_first().push(v0.idle[0]),
        v1.cons == v0.cons.update(v0.idle[0] as int, None::<C>),
        v1.times.len() == v0.times.len(),
    ensures
        pool_wf(v1),
{
    let j = v0.idle[0] as int;
    let last = v1.idle.len() - 1;
    assert((v0.states[j] is Empty) || (v0.states[j] is Idle));
    lemma_count_update(v0.states, j, SlotState::Empty, SlotState::InUse);
    lemma_count_update(v0.states, j, SlotState::Empty, SlotState::InCheck);
    assert(v1.idle[last] == v0.idle[0]);
    assert forall|k: int| 0 <= k < last implies #[trigger] v1.idle[k] == v0.idle[k + 1] by {}
    assert forall|k: int| 0 <= k < v1.idle.len() implies ((#[trigger] v1.idle[k]) as int)
        < v1.maxsize by {
        if k < last {
            assert(v1.idle[k] == v0.idle[k + 1]);
        }
    }
    assert forall|k1: int, k2: int| 0 <= k1 < k2 < v1.idle.len() implies #[trigger] v1.idle[k1]
        != #[trigger] v1.idle[k2] by {
        assert(v1.idle[k1] == v0.idle[k1 + 1]);
        if k2 < last {
            assert(v1.idle[k2] == v0.idle[k2 + 1]);
        }
    }
    assert forall|k: int| 0 <= k < v1.idle.len() implies ((v1.states[(#[trigger] v1.idle[k]) as int]
        is Empty) || (v1.states[v1.idle[k] as int] is Idle)) by {
        if k < last {
            assert(v1.idle[k] == v0.idle[k + 1]);
            assert(v0.idle[k + 1] != v0.idle[0]);
            assert((v0.states[v0.idle[k + 1] as int] is Empty) || (v0.states[v0.idle[k + 1] as int]
                is Idle));
        }
    }
    assert forall|i: int| 0 <= i < v1.states.len() && (((#[trigger] v1.states[i]) is Empty)
        || (v1.states[i] is Idle)) implies slot_queued(v1, i) by {
        if i == j {
            assert(v1.idle[last] as int == i);
        } else {
            assert((v0.states[i] is Empty) || (v0.states[i] is Idle));
            assert(slot_queued(v0, i));
            let k = choose|k: int| 0 <= k < v0.idle.len() && (#[trigger] v0.idle[k]) as int == i;
            assert(k != 0);
            assert(v1.idle[k - 1] == v0.idle[k]);
            assert(0 <= k - 1 < v1.idle.len() && v1.idle[k - 1] as int == i);
        }
    }
}

/// A checked-out slot is never in the idle queue.
proof fn lemma_unqueued<C>(v0: PoolView<C>, ju: usize)
    requires
        pool_wf(v0),
        (ju as int) < v0.maxsize,
        (v0.states[ju as int] is InUse) || (v0.states[ju as int] is InCheck),
    ensures
        forall|k: int| 0 <= k < v0.idle.len() ==> #[trigger] v0.idle[k] != ju,
{
    assert forall|k: int| 0 <= k < v0.idle.len() implies #[trigger] v0.idle[k] != ju by {
        assert((v0.states[v0.idle[k] as int] is Empty) || (v0.states[v0.idle[k] as int] is Idle));
    }
}

/// Checking a slot back in to an open pool — state written, slot queued,
/// permit released — preserves the pool invariants.
proof fn lemma_wf_after_checkin<C>(v0: PoolView<C>, v1: PoolView<C>, ju: usize, c: Option<C>)
    requires
        pool_wf(v0),
        !v0.closed,
        (ju as int) < v0.maxsize,
        (v0.states[ju as int] is InUse) || (v0.states[ju as int] is InCheck),
        v1.maxsize == v0.maxsize,
        v1.cap == v0.cap,
        v1.closed == v0.closed,
        v1.permits == v0.permits + 1,
        v1.states == v0.states.update(ju as int, if c is Some { SlotState::Idle } else { SlotState::Empty }),
        v1.idle == v0.idle.push(ju),
        v1.cons == v0.cons.update(ju as int, c),
        v1.times.len() == v0.times.len(),
    ensures
        pool_wf(v1),
{
    let j = ju as int;
    let w = if c is Some {
        SlotState::Idle
    } else {
        SlotState::Empty
    };
    let last = v0.idle.len() as int;
    lemma_unqueued(v0, ju);
    lemma_count_pos(v0.states, j);
    lemma_count_update(v0.states, j, w, SlotState::InUse);
    lemma_count_update(v0.states, j, w, SlotState::InCheck);
    assert(v1.idle[last] == ju);
    assert forall|k: int| 0 <= k < v1.idle.len() implies ((#[trigger] v1.idle[k]) as int)
        < v1.maxsize by {
        if k < last {
            assert(v1.idle[k] == v0.idle[k]);
        }
    }
    assert forall|k1: int, k2: int| 0 <= k1 < k2 < v1.idle.len() implies #[trigger] v1.idle[k1]
        != #[trigger] v1.idle[k2] by {
        assert(v1.idle[k1] == v0.idle[k1]);
        if k2 < last {
            assert(v1.idle[k2] == v0.idle[k2]);
        } else {
            assert(v1.idle[k2] == ju);
            assert(v0.idle[k1] != ju);
        }
    }
    assert forall|k: int| 0 <= k < v1.idle.len() implies ((v1.states[(#[trigger] v1.idle[k]) as int]
        is Empty) || (v1.states[v1.idle[k] as int] is Idle)) by {
        if k < last {
            assert(v1.idle[k] == v0.idle[k]);
            assert(v0.idle[k] != ju);
            assert((v0.states[v0.idle[k] as int] is Empty) || (v0.states[v0.idle[k] as int]
                is Idle));
        } else {
            assert(v1.states[j] == w);
        }
    }
    assert forall|i: int| 0 <= i < v1.states.len() && (((#[trigger] v1.states[i]) is Empty)
        || (v1.states[i] is Idle)) implies slot_queued(v1, i) by {
        if i == j {
            assert(v1.idle[last] as int == i);
        } else {
            assert((v0.states[i] is Empty) || (v0.states[i] is Idle));
            assert(slot_queued(v0, i));
            let k = choose|k: int| 0 <= k < v0.idle.len() && (#[trigger] v0.idle[k]) as int == i;
            assert(v1.idle[k] == v0.idle[k]);
            assert(0 <= k < v1.idle.len() && v1.idle[k] as int == i);
        }
    }
}

/// Checking a slot back in to a closed pool — state written, slot retired,
/// queue and permits untouched — preserves the pool invariants.
proof fn lemma_wf_after_checkin_closed<C>(v0: PoolView<C>, v1: PoolView<C>, ju: usize, c: Option<C>)
    requires
        pool_wf(v0),
        v0.closed,
        (ju as int) < v0.maxsize,
        (v0.states[ju as int] is InUse) || (v0.states[ju as int] is InCheck),
        v1.maxsize == v0.maxsize,
        v1.cap == v0.cap,
        v1.closed == v0.closed,
        v1.permits == v0.permits,
        v1.states == v0.states.update(ju as int, if c is Some { SlotState::Idle } else { SlotState::Empty }),
        v1.idle == v0.idle,
        v1.cons == v0.cons.update(ju as int, c),
        v1.times.len() == v0.times.len(),
    ensures
        pool_wf(v1),
{
    let j = ju as int;
    lemma_unqueued(v0, ju);
    assert forall|k: int| 0 <= k < v1.idle.len() implies ((v1.states[(#[trigger] v1.idle[k]) as int]
        is Empty) || (v1.states[v1.idle[k] as int] is Idle)) by {
        assert(v1.idle[k] == v0.idle[k]);
        assert(v0.idle[k] != ju);
        assert((v0.states[v0.idle[k] as int] is Empty) || (v0.states[v0.idle[k] as int] is Idle));
    }
}

/// Filling an empty slot in place — it becomes `Idle` with a resource, the
/// queue untouched — preserves the pool invariants.
proof fn lemma_wf_after_warm<C>(v0: PoolView<C>, v1: PoolView<C>, iu: usize)
    requires
        pool_wf(v0),
        !v0.closed,
        (iu as int) < v0.maxsize,
        v0.states[iu as int] is Empty,
        v1.maxsize == v0.maxsize,
        v1.cap == v0.cap,
        v1.closed == v0.closed,
        v1.permits == v0.permits,
        v1.idle == v0.idle,
        v1.states == v0.states.update(iu as int, SlotState::Idle),
        v1.cons.len() == v0.cons.len(),
        v1.cons[iu as int] is Some,
        forall|t: int| 0 <= t < v0.cons.len() && t != iu as int ==> v1.cons[t] == v0.cons[t],
        v1.times.len() == v0.times.len(),
    ensures
        pool_wf(v1),
{
    let j = iu as int;
    lemma_count_update(v0.states, j, SlotState::Idle, SlotState::InUse);
    lemma_count_update(v0.states, j, SlotState::Idle, SlotState::InCheck);
    assert forall|k: int| 0 <= k < v1.idle.len() implies ((v1.states[(#[trigger] v1.idle[k]) as int]
        is Empty) || (v1.states[v1.idle[k] as int] is Idle)) by {
        assert((v0.states[v0.idle[k] as int] is Empty) || (v0.states[v0.idle[k] as int] is Idle));
    }
    assert forall|i: int| 0 <= i < v1.states.len() && (((#[trigger] v1.states[i]) is Empty)
        || (v1.states[i] is Idle)) implies slot_queued(v1, i) by {
        assert((v0.states[i] is Empty) || (v0.states[i] is Idle));
        assert(slot_queued(v0, i));
        let k = choose|k: int| 0 <= k < v0.idle.len() && (#[trigger] v0.idle[k]) as int == i;
        assert(0 <= k < v1.idle.len() && v1.idle[k] as int == i);
    }
}

/// The handles that can be live never outnumber the slots: the checked-out
/// slots and the available permits always account for exactly `maxsize`,
/// so at most `maxsize` slots are checked out at any reachable state.
pub proof fn lemma_handles_bounded<C>(v: PoolView<C>)
    requires
        pool_wf(v),
        !v.closed,
    ensures
        count_state(v.states, SlotState::InUse) + count_state(v.states, SlotState::InCheck)
            == v.maxsize - v.permits,
        count_state(v.states, SlotState::InUse) + count_state(v.states, SlotState::InCheck)
            <= v.maxsize,
{
}

/// Once no slot is checked out, the idle and empty slots together are the
/// whole pool again: after any sequence of check-outs and check-ins that
/// has quiesced, `idle + empty` returns to `maxsize`.
pub proof fn lemma_quiescent_full<C>(v: PoolView<C>)
    requires
        pool_wf(v),
        count_state(v.states, SlotState::InUse) == 0,
        count_state(v.states, SlotState::InCheck) == 0,
    ensures
        count_state(v.states, SlotState::Idle) + count_state(v.states, SlotState::Empty)
            == v.maxsize,
{
    lemma_count_partition(v.states);
}

/// A successful check-out moves exactly one slot — the granted one — from
/// the idle-or-empty side of the pool to `InUse`, and touches no other
/// tally.
pub proof fn lemma_grant_counts<C>(
    v0: PoolView<C>,
    v1: PoolView<C>,
    idx: usize,
    con: Option<C>,
    now: u64,
)
    requires
        pool_wf(v0),
        v0.idle.len() > 0,
        spec_grant(v0, v1, idx, con, now),
    ensures
        count_state(v1.states, SlotState::InUse) == count_state(v0.states, SlotState::InUse) + 1,
        count_state(v1.states, SlotState::InCheck) == count_state(v0.states, SlotState::InCheck),
        count_state(v1.states, SlotState::Idle) + count_state(v1.states, SlotState::Empty) + 1
            == count_state(v0.states, SlotState::Idle) + count_state(v0.states, SlotState::Empty),
{
    let j = v0.idle[0] as int;
    assert((v0.states[j] is Empty) || (v0.states[j] is Idle));
    lemma_count_update(v0.states, j, SlotState::InUse, SlotState::InUse);
    lemma_count_update(v0.states, j, SlotState::InUse, SlotState::InCheck);
    lemma_count_update(v0.states, j, SlotState::InUse, SlotState::Idle);
    lemma_count_update(v0.states, j, SlotState::InUse, SlotState::Empty);
}

/// A check-in moves exactly one slot — the returned one — from the
/// checked-out side back to `Idle` or `Empty`; the empty tally grows by
/// exactly one precisely when the handle came back without its resource,
/// as it does after `take`.
pub proof fn lemma_checkin_counts<C>(v0: PoolView<C>, v1: PoolView<C>, j: int, con: Option<C>)
    requires
        0 <= j < v0.states.len(),
        (v0.states[j] is InUse) || (v0.states[j] is InCheck),
        v1.states == v0.states.update(j, if con is Some { SlotState::Idle } else { SlotState::Empty }),
    ensures
        count_state(v1.states, SlotState::InUse) + count_state(v1.states, SlotState::InCheck) + 1
            == count_state(v0.states, SlotState::InUse) + count_state(v0.states, SlotState::InCheck),
        count_state(v1.states, SlotState::Idle) + count_state(v1.states, SlotState::Empty)
            == count_state(v0.states, SlotState::Idle) + count_state(v0.states, SlotState::Empty) + 1,
        con is None ==> count_state(v1.states, SlotState::Empty) == count_state(v0.states, SlotState::Empty) + 1,
        con is Some ==> count_state(v1.states, SlotState::Empty) == count_state(v0.states, SlotState::Empty),
{
    let w = if con is Some {
        SlotState::Idle
    } else {
        SlotState::Empty
    };
    lemma_count_update(v0.states, j, w, SlotState::InUse);
    lemma_count_update(v0.states, j, w, SlotState::InCheck);
    lemma_count_update(v0.states, j, w, SlotState::Idle);
    lemma_count_update(v0.states, j, w, SlotState::Empty);
}

/// With a zero check interval, a probe is due on every check-out.
pub proof fn lemma_check_every_time(fresh: bool, now: u64, last: u64)
    ensures
        spec_check_due(Some(0u64), fresh, now, last),
{
}

/// With a positive check interval, a check-out within the interval of the
/// last successful probe does not probe again.
pub proof fn lemma_check_within_interval(d: u64, now: u64, last: u64)
    requires
        d > 0,
        now < last + d,
    ensures
        !spec_check_due(Some(d), false, now, last),
{
}

} // verus!
