//! The packed atomic state word of one task: a small reference count and a
//! flag set, both carried in a single 64-bit word so that every life-cycle
//! transition is one load/store — one compare-and-swap under concurrent
//! access.

use vstd::prelude::*;

verus! {

/// A task's unpacked state: how many runnable references are outstanding and
/// which life-cycle flags are set (see `flags`).
#[derive(Clone, Copy, Debug, PartialEq, Eq, Structural)]
pub struct State {
    pub reference_count: u32,
    pub flags: u32,
}

impl State {
    /// The word that packs this state: the reference count in the low half,
    /// the flags in the high half.
    pub open spec fn spec_as_u64(self) -> u64 {
        (self.reference_count + self.flags * 0x1_0000_0000) as u64
    }

    /// The state a packed word decodes to.
    pub open spec fn spec_from_u64(raw: u64) -> State {
        State { reference_count: (raw % 0x1_0000_0000) as u32, flags: (raw / 0x1_0000_0000) as u32 }
    }

    /// Packs the state into one word.
    pub fn as_usize(self) -> (r: u64)
        ensures
            r == self.spec_as_u64(),
    {
        let r = (self.reference_count as u64) | ((self.flags as u64) << 32u64);
        proof {
            let c = self.reference_count as u64;
            let f = self.flags as u64;
            assert(c | (f << 32u64) == c + f * 0x1_0000_0000) by (bit_vector)
                requires
                    c < 0x1_0000_0000,
                    f < 0x1_0000_0000,
            ;
        }
        r
    }

    /// Unpacks a word into a state.
    pub fn from_usize(raw: u64) -> (r: State)
        ensures
            r == State::spec_from_u64(raw),
    {
        proof {
            assert(raw & 0xffff_ffffu64 == raw % 0x1_0000_0000 && raw >> 32u64 == raw
                / 0x1_0000_0000) by (bit_vector);
        }
        State { reference_count: (raw & 0xffff_ffffu64) as u32, flags: (raw >> 32u64) as u32 }
    }

    /// Adds one outstanding reference.  Under concurrent access the runtime
    /// aborts the process on counter overflow; here the saturated count is excluded up
    /// front, which the runtime's invariant (the count never exceeds one
    /// runnable reference) satisfies trivially.
    pub fn increment_reference_count(self) -> (r: State)
        requires
            self.reference_count < u32::MAX,
        ensures
            r.reference_count == self.reference_count + 1,
            r.flags == self.flags,
    {
        State { reference_count: self.reference_count + 1, flags: self.flags }
    }

    /// Releases one outstanding reference.
    pub fn decrement_reference_count(self) -> (r: State)
        requires
            self.reference_count > 0,
        ensures
            r.reference_count == self.reference_count - 1,
            r.flags == self.flags,
    {
        State { reference_count: self.reference_count - 1, flags: self.flags }
    }

    /// Sets the given flag bits.
    pub fn set_flag(self, flag: u32) -> (r: State)
        ensures
            r.flags == self.flags | flag,
            r.reference_count == self.reference_count,
    {
        State { reference_count: self.reference_count, flags: self.flags | flag }
    }

    /// Whether any of the given flag bits is set.
    pub fn has_flag_set(&self, flag: u32) -> (r: bool)
        ensures
            r == (self.flags & flag != 0),
    {
        (self.flags & flag) != 0
    }

    /// Clears the given flag bits.
    pub fn clear_flag(self, flag: u32) -> (r: State)
        ensures
            r.flags == self.flags & !flag,
            r.reference_count == self.reference_count,
    {
        State { reference_count: self.reference_count, flags: self.flags & !flag }
    }
}

/// Packing then unpacking a state gives the state back; the packed word is a
/// faithful carrier of both halves.
pub proof fn lemma_state_pack_round_trip(s: State)
    ensures
        State::spec_from_u64(s.spec_as_u64()) == s,
{
    let c = s.reference_count as int;
    let f = s.flags as int;
    assert((c + f * 0x1_0000_0000) % 0x1_0000_0000 == c && (c + f * 0x1_0000_0000)
        / 0x1_0000_0000 == f) by (nonlinear_arith)
        requires
            0 <= c < 0x1_0000_0000,
            0 <= f < 0x1_0000_0000,
    ;
}

/// The packed state word, held behind a single-word cell.  Concurrent use
/// would wrap an `AtomicU64`; all orderings collapse in this sequential
/// model, so the cell exposes plain load/store plus the compare-exchange
/// shape the transitions are written against.
pub struct AtomicState {
    value: u64,
}

impl AtomicState {
    /// The state the stored word decodes to.
    pub closed spec fn view(&self) -> State {
        State::spec_from_u64(self.value)
    }

    /// Makes a cell holding the given initial state.
    pub fn new(initial_state: State) -> (r: AtomicState)
        ensures
            r@ == initial_state,
    {
        proof {
            lemma_state_pack_round_trip(initial_state);
        }
        AtomicState { value: initial_state.as_usize() }
    }

    /// Reads the current state.
    pub fn load(&self) -> (r: State)
        ensures
            r == self@,
    {
        State::from_usize(self.value)
    }

    /// Overwrites the state.
    pub fn store(&mut self, state: State)
        ensures
            final (self)@ == state,
    {
        proof {
            lemma_state_pack_round_trip(state);
        }
        self.value = state.as_usize();
    }

    /// Applies `f` to the current state and stores the state it returns,
    /// handing `f`'s second result back; the load/store pair that concurrent
    /// use parameterises by memory orderings.
    pub fn with<R, F: FnOnce(State) -> (State, R)>(&mut self, f: F) -> (r: R)
        requires
            call_requires(f, (old(self)@,)),
        ensures
            call_ensures(f, (old(self)@,), (final (self)@, r)),
    {
        let s = self.load();
        let (s2, r) = f(s);
        self.store(s2);
        r
    }

    /// `with` under acquire/release ordering; the sequential model makes no
    /// distinction between orderings.
    pub fn with_acquire_release<R, F: FnOnce(State) -> (State, R)>(&mut self, f: F) -> (r: R)
        requires
            call_requires(f, (old(self)@,)),
        ensures
            call_ensures(f, (old(self)@,), (final (self)@, r)),
    {
        self.with(f)
    }

    /// Stores `new` exactly when the current state equals `old_state`,
    /// returning the state read either way: `Ok` on success, `Err` with the
    /// conflicting state on failure.  The sequential model never fails
    /// spuriously.
    pub fn compare_exchange_weak(&mut self, old_state: State, new: State) -> (r: Result<
        State,
        State,
    >)
        ensures
            old(self)@ == old_state ==> r == Ok::<State, State>(old_state) && final (self)@ == new,
            old(self)@ != old_state ==> r == Err::<State, State>(old(self)@) && final (self)@ == old(
                self,
            )@,
    {
        let current = self.load();
        if current.reference_count == old_state.reference_count && current.flags
            == old_state.flags {
            self.store(new);
            Ok(current)
        } else {
            Err(current)
        }
    }
}

} // verus!
