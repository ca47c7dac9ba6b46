//! The slot status table and the aggregate `State` snapshot.
//!
//! Every slot of the pool is always in exactly one of four states; the table
//! records the state per slot index, and [`Status::state`] tallies the table
//! into a [`State`] report whose four counters provably partition `maxsize`.

use vstd::prelude::*;

verus! {

/// The lifecycle state of one slot.
#[derive(Clone, Copy, Debug, PartialEq, Eq, Structural)]
pub enum SlotState {
    /// No resource is installed in the slot.
    Empty,
    /// The slot is checked out and its resource is being probed.
    InCheck,
    /// The slot is checked out by a live handle.
    InUse,
    /// The slot holds a ready resource and waits in the idle queue.
    Idle,
}

/// How many entries of `s` are in state `t`.
pub open spec fn count_state(s: Seq<SlotState>, t: SlotState) -> nat
    decreases s.len(),
{
    if s.len() == 0 {
        0
    } else {
        count_state(s.drop_last(), t) + if s.last() == t {
            1nat
        } else {
            0nat
        }
    }
}

/// A tally never exceeds the number of entries.
pub proof fn lemma_count_le_len(s: Seq<SlotState>, t: SlotState)
    ensures
        count_state(s, t) <= s.len(),
    decreases s.len(),
{
    if s.len() > 0 {
        lemma_count_le_len(s.drop_last(), t);
    }
}

/// Every slot is in exactly one state, so the four tallies partition the
/// table: `empty + incheck + inuse + idle` equals the number of slots.
pub proof fn lemma_count_partition(s: Seq<SlotState>)
    ensures
        count_state(s, SlotState::Empty) + count_state(s, SlotState::InCheck) + count_state(
            s,
            SlotState::InUse,
        ) + count_state(s, SlotState::Idle) == s.len(),
    decreases s.len(),
{
    if s.len() > 0 {
        lemma_count_partition(s.drop_last());
    }
}

/// Writing one entry moves at most one unit of tally between two states.
pub proof fn lemma_count_update(s: Seq<SlotState>, i: int, v: SlotState, t: SlotState)
    requires
        0 <= i < s.len(),
    ensures
        count_state(s.update(i, v), t) == count_state(s, t) - (if s[i] == t {
            1int
        } else {
            0int
        }) + (if v == t {
            1int
        } else {
            0int
        }),
    decreases s.len(),
{
    let s2 = s.update(i, v);
    assert(s2.len() == s.len());
    if i == s.len() - 1 {
        assert(s2.drop_last() =~= s.drop_last());
    } else {
        assert(s2.drop_last() =~= s.drop_last().update(i, v));
        lemma_count_update(s.drop_last(), i, v, t);
        assert(s2.last() == s.last());
    }
}

/// An entry in state `t` contributes to the tally of `t`.
pub proof fn lemma_count_pos(s: Seq<SlotState>, i: int)
    requires
        0 <= i < s.len(),
    ensures
        count_state(s, s[i]) >= 1,
    decreases s.len(),
{
    if i < s.len() - 1 {
        lemma_count_pos(s.drop_last(), i);
        assert(s.drop_last()[i] == s[i]);
    }
}

/// The per-slot state table.
#[derive(Clone, Debug)]
pub struct Status {
    states: Vec<SlotState>,
}

impl View for Status {
    type V = Seq<SlotState>;

    closed spec fn view(&self) -> Seq<SlotState> {
        self.states@
    }
}

impl Status {
    /// A table of `maxsize` slots, all `Empty`.
    pub fn new(maxsize: usize) -> (s: Status)
        ensures
            s@.len() == maxsize,
            forall|i: int| 0 <= i < maxsize ==> s@[i] == SlotState::Empty,
    {
        let mut states: Vec<SlotState> = Vec::new();
        let mut i: usize = 0;
        while i < maxsize
            invariant
                i <= maxsize,
                states@.len() == i,
                forall|j: int| 0 <= j < i ==> states@[j] == SlotState::Empty,
            decreases maxsize - i,
        {
            states.push(SlotState::Empty);
            i += 1;
        }
        Status { states }
    }

    /// Marks the slot as holding no resource.
    pub fn set_empty(&mut self, idx: usize)
        requires
            idx < old(self)@.len(),
        ensures
            final(self)@ == old(self)@.update(idx as int, SlotState::Empty),
    {
        self.states.set(idx, SlotState::Empty);
    }

    /// Marks the slot as checked out and under a liveness probe.
    pub fn set_incheck(&mut self, idx: usize)
        requires
            idx < old(self)@.len(),
        ensures
            final(self)@ == old(self)@.update(idx as int, SlotState::InCheck),
    {
        self.states.set(idx, SlotState::InCheck);
    }

    /// Whether the slot is currently under a liveness probe.
    pub fn is_incheck(&self, idx: usize) -> (r: bool)
        requires
            idx < self@.len(),
        ensures
            r == (self@[idx as int] is InCheck),
    {
        match self.states[idx] {
            SlotState::InCheck => true,
            _ => false,
        }
    }

    /// Reads the state of one slot.
    pub fn load(&self, idx: usize) -> (s: SlotState)
        requires
            idx < self@.len(),
        ensures
            s == self@[idx as int],
    {
        self.states[idx]
    }

    /// Marks the slot as checked out by a handle.
    pub fn set_inuse(&mut self, idx: usize)
        requires
            idx < old(self)@.len(),
        ensures
            final(self)@ == old(self)@.update(idx as int, SlotState::InUse),
    {
        self.states.set(idx, SlotState::InUse);
    }

    /// Marks the slot as idle, with a ready resource.
    pub fn set_idle(&mut self, idx: usize)
        requires
            idx < old(self)@.len(),
        ensures
            final(self)@ == old(self)@.update(idx as int, SlotState::Idle),
    {
        self.states.set(idx, SlotState::Idle);
    }

    /// Walks the table once and tallies the slots per state.
    ///
    /// The report partitions the table: `empty + incheck + inuse + idle`
    /// always equals `maxsize`, and `size` counts the slots that hold an
    /// established resource. `wait` is the number of callers blocked on
    /// admission, which is zero whenever the table can be observed here,
    /// since observation requires that no call is in flight.
    pub fn state(&self) -> (r: State)
        requires
            self@.len() <= 0xffff_ffffusize,
        ensures
            r.maxsize as nat == self@.len(),
            r.empty as nat == count_state(self@, SlotState::Empty),
            r.incheck as nat == count_state(self@, SlotState::InCheck),
            r.inuse as nat == count_state(self@, SlotState::InUse),
            r.idle as nat == count_state(self@, SlotState::Idle),
            r.size == r.inuse as int + r.idle as int + r.incheck as int,
            r.maxsize == r.size as int + r.empty as int,
            r.empty as int + r.idle as int + r.inuse as int + r.incheck as int == r.maxsize as int,
            r.wait == 0,
    {
        let n = self.states.len();
        let mut empty: u32 = 0;
        let mut incheck: u32 = 0;
        let mut inuse: u32 = 0;
        let mut idle: u32 = 0;
        let mut i: usize = 0;
        while i < n
            invariant
                n == self@.len(),
                n <= 0xffff_ffffusize,
                i <= n,
                empty as nat == count_state(self@.take(i as int), SlotState::Empty),
                incheck as nat == count_state(self@.take(i as int), SlotState::InCheck),
                inuse as nat == count_state(self@.take(i as int), SlotState::InUse),
                idle as nat == count_state(self@.take(i as int), SlotState::Idle),
            decreases n - i,
        {
            proof {
                assert(self@.take(i as int + 1).drop_last() =~= self@.take(i as int));
                assert(self@.take(i as int + 1).last() == self@[i as int]);
                lemma_count_le_len(self@.take(i as int), SlotState::Empty);
                lemma_count_le_len(self@.take(i as int), SlotState::InCheck);
                lemma_count_le_len(self@.take(i as int), SlotState::InUse);
                lemma_count_le_len(self@.take(i as int), SlotState::Idle);
            }
            match self.states[i] {
                SlotState::Empty => {
                    empty = empty + 1;
                },
                SlotState::InCheck => {
                    incheck = incheck + 1;
                },
                SlotState::InUse => {
                    inuse = inuse + 1;
                },
                SlotState::Idle => {
                    idle = idle + 1;
                },
            }
            i += 1;
        }
        proof {
            assert(self@.take(n as int) =~= self@);
            lemma_count_partition(self@);
        }
        let size = inuse + idle + incheck;
        State { maxsize: size + empty, empty, size, inuse, idle, incheck, wait: 0 }
    }
}

/// Information about the state of a pool: how many of its slots are in each
/// lifecycle state, plus how many callers wait for admission.
#[derive(Default, Clone, Debug, PartialEq, Eq, Structural)]
pub struct State {
    /// The fixed number of slots.
    pub maxsize: u32,
    /// Slots without a resource.
    pub empty: u32,
    /// Slots with an established resource: in use, in check or idle.
    pub size: u32,
    /// Slots checked out by a live handle.
    pub inuse: u32,
    /// Slots waiting in the idle queue with a ready resource.
    pub idle: u32,
    /// Slots whose resource is being probed.
    pub incheck: u32,
    /// Callers currently blocked on admission.
    pub wait: u32,
}

/// One counter as four big-endian bytes.
pub open spec fn spec_encode_u32(x: u32) -> Seq<u8> {
    seq![
        ((x >> 24) & 0xff) as u8,
        ((x >> 16) & 0xff) as u8,
        ((x >> 8) & 0xff) as u8,
        (x & 0xff) as u8,
    ]
}

/// The counter back from its four big-endian bytes.
pub open spec fn spec_decode_u32(b: Seq<u8>) -> u32
    recommends
        b.len() == 4,
{
    ((b[0] as u32) << 24) | ((b[1] as u32) << 16) | ((b[2] as u32) << 8) | (b[3] as u32)
}

/// A snapshot as 28 bytes: the seven counters, each big-endian, in field
/// order.
pub open spec fn spec_encode_state(s: State) -> Seq<u8> {
    spec_encode_u32(s.maxsize) + spec_encode_u32(s.empty) + spec_encode_u32(s.size)
        + spec_encode_u32(s.inuse) + spec_encode_u32(s.idle) + spec_encode_u32(s.incheck)
        + spec_encode_u32(s.wait)
}

/// The snapshot back from its 28 bytes, or `None` when the length is wrong.
pub open spec fn spec_decode_state(b: Seq<u8>) -> Option<State> {
    if b.len() == 28 {
        Some(
            State {
                maxsize: spec_decode_u32(b.subrange(0, 4)),
                empty: spec_decode_u32(b.subrange(4, 8)),
                size: spec_decode_u32(b.subrange(8, 12)),
                inuse: spec_decode_u32(b.subrange(12, 16)),
                idle: spec_decode_u32(b.subrange(16, 20)),
                incheck: spec_decode_u32(b.subrange(20, 24)),
                wait: spec_decode_u32(b.subrange(24, 28)),
            },
        )
    } else {
        None
    }
}

/// Splitting a counter into bytes and reassembling them gives the counter
/// back.
pub proof fn lemma_u32_codec_roundtrip(x: u32)
    ensures
        spec_decode_u32(spec_encode_u32(x)) == x,
{
    assert((x >> 24) & 0xff < 256) by (bit_vector);
    assert((x >> 16) & 0xff < 256) by (bit_vector);
    assert((x >> 8) & 0xff < 256) by (bit_vector);
    assert(x & 0xff < 256) by (bit_vector);
    assert((((x >> 24) & 0xff) << 24) | (((x >> 16) & 0xff) << 16) | (((x >> 8) & 0xff) << 8) | (x
        & 0xff) == x) by (bit_vector);
}

/// Serialising a snapshot and parsing it back yields identical field values.
pub proof fn lemma_state_codec_roundtrip(s: State)
    ensures
        spec_decode_state(spec_encode_state(s)) == Some(s),
{
    let b = spec_encode_state(s);
    assert(b.len() == 28);
    assert(b.subrange(0, 4) =~= spec_encode_u32(s.maxsize));
    assert(b.subrange(4, 8) =~= spec_encode_u32(s.empty));
    assert(b.subrange(8, 12) =~= spec_encode_u32(s.size));
    assert(b.subrange(12, 16) =~= spec_encode_u32(s.inuse));
    assert(b.subrange(16, 20) =~= spec_encode_u32(s.idle));
    assert(b.subrange(20, 24) =~= spec_encode_u32(s.incheck));
    assert(b.subrange(24, 28) =~= spec_encode_u32(s.wait));
    lemma_u32_codec_roundtrip(s.maxsize);
    lemma_u32_codec_roundtrip(s.empty);
    lemma_u32_codec_roundtrip(s.size);
    lemma_u32_codec_roundtrip(s.inuse);
    lemma_u32_codec_roundtrip(s.idle);
    lemma_u32_codec_roundtrip(s.incheck);
    lemma_u32_codec_roundtrip(s.wait);
}

impl State {
    /// The snapshot as 28 big-endian bytes, for callers that serialise it.
    pub fn encode(&self) -> (out: Vec<u8>)
        ensures
            out@ == spec_encode_state(*self),
    {
        let mut out: Vec<u8> = Vec::new();
        push_u32(&mut out, self.maxsize);
        push_u32(&mut out, self.empty);
        push_u32(&mut out, self.size);
        push_u32(&mut out, self.inuse);
        push_u32(&mut out, self.idle);
        push_u32(&mut out, self.incheck);
        push_u32(&mut out, self.wait);
        proof {
            assert(out@ =~= spec_encode_state(*self));
        }
        out
    }

    /// The snapshot back from bytes written by `encode`; `None` when the
    /// input is not exactly 28 bytes long.
    pub fn decode(bytes: &Vec<u8>) -> (r: Option<State>)
        ensures
            r == spec_decode_state(bytes@),
    {
        if bytes.len() != 28 {
            return None;
        }
        let s = State {
            maxsize: read_u32(bytes, 0),
            empty: read_u32(bytes, 4),
            size: read_u32(bytes, 8),
            inuse: read_u32(bytes, 12),
            idle: read_u32(bytes, 16),
            incheck: read_u32(bytes, 20),
            wait: read_u32(bytes, 24),
        };
        Some(s)
    }
}

/// Appends one counter, big-endian.
fn push_u32(out: &mut Vec<u8>, x: u32)
    ensures
        final(out)@ == old(out)@ + spec_encode_u32(x),
{
    out.push(((x >> 24) & 0xff) as u8);
    out.push(((x >> 16) & 0xff) as u8);
    out.push(((x >> 8) & 0xff) as u8);
    out.push((x & 0xff) as u8);
    proof {
        assert(out@ =~= old(out)@ + spec_encode_u32(x));
    }
}

/// Reads one big-endian counter at the given offset.
fn read_u32(bytes: &Vec<u8>, off: usize) -> (x: u32)
    requires
        off + 4 <= bytes@.len(),
    ensures
        x == spec_decode_u32(bytes@.subrange(off as int, off as int + 4)),
{
    let n = bytes.len();
    proof {
        assert(off + 4 <= n);
    }
    let b0 = bytes[off];
    let b1 = bytes[off + 1];
    let b2 = bytes[off + 2];
    let b3 = bytes[off + 3];
    let x = ((b0 as u32) << 24) | ((b1 as u32) << 16) | ((b2 as u32) << 8) | (b3 as u32);
    proof {
        let sub = bytes@.subrange(off as int, off as int + 4);
        assert(sub[0] == b0 && sub[1] == b1 && sub[2] == b2 && sub[3] == b3);
    }
    x
}

} // verus!
