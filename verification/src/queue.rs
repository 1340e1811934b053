//! The unbounded FIFO segment queue: linked fixed-size blocks of slots,
//! a pair of monotonically increasing positions, and a one-way close mark.
//!
//! Indices carry a mark bit in their lowest bit (closed for the tail,
//! spans-multiple-blocks for the head) and count slot sequence numbers above
//! it: sequence number `s` sits at offset `s % 32` of the block for lap
//! `s / 32`, and the last offset of every lap is the block-chaining
//! continuation, not a live element.  These constants are load-bearing for
//! the lap/offset arithmetic and are kept verbatim.
//!
//! Under concurrent access slots are claimed by compare-and-swap and blocks
//! freed through a cooperative destroy protocol; under exclusive access each
//! claim succeeds at once and a finished block is dropped by the consumer
//! that reads its last slot.

use vstd::arithmetic::div_mod::{
    lemma_div_is_ordered,
    lemma_div_is_ordered_by_denominator,
    lemma_fundamental_div_mod,
    lemma_fundamental_div_mod_converse,
};
use vstd::prelude::*;
use vstd::seq_lib::lemma_multiset_commutative;

verus! {

/// Slot state bit: a value has been written into the slot.
pub(crate) const WRITE: usize = 1;

/// Slot state bit: the slot's value has been consumed.
pub(crate) const READ: usize = 2;

/// One lap: a block's capacity plus its continuation slot.
pub(crate) const LAP: usize = 32;

/// Live slots per block.
pub(crate) const BLOCK_CAP: usize = 31;

/// How far the sequence number is shifted above the mark bit.
pub(crate) const SHIFT: usize = 1;

/// The mark bit: closed on the tail index, spanning on the head index.
pub(crate) const MARK_BIT: usize = 1;

/// Why a push was refused.  `Closed` hands the value back after `close`;
/// `Full` exists because the error type is shared with a bounded sibling and
/// here means only that the index word itself is exhausted, which no
/// feasible execution reaches.
#[derive(Debug)]
pub enum PushError<T> {
    Closed(T),
    Full(T),
}

/// Why a pop returned no value: the queue is drained and closed, or merely
/// empty right now.
#[derive(Clone, Copy, Debug, PartialEq, Eq, Structural)]
pub enum PopError {
    Closed,
    Empty,
}

/// One element's storage and its state byte.
struct Slot<T> {
    value: Option<T>,
    state: usize,
}

impl<T> Slot<T> {
    /// A block's worth of uninitialized slots.
    fn uninit_block() -> (r: Vec<Slot<T>>)
        ensures
            r@.len() == BLOCK_CAP,
            forall|i: int|
                0 <= i < r@.len() ==> (#[trigger] r@[i]).value is None && r@[i].state == 0,
    {
        let mut slots: Vec<Slot<T>> = Vec::new();
        let mut i: usize = 0;
        while i < BLOCK_CAP
            invariant
                i == slots@.len(),
                i <= BLOCK_CAP,
                forall|j: int|
                    0 <= j < slots@.len() ==> (#[trigger] slots@[j]).value is None
                        && slots@[j].state == 0,
            decreases BLOCK_CAP - i,
        {
            slots.push(Slot { value: None, state: 0 });
            i = i + 1;
        }
        slots
    }
}

/// A fixed-capacity segment of the queue.  Concurrent use links blocks
/// through an atomic next pointer; here the queue owns the live chain as a
/// vector, oldest block first.
struct Block<T> {
    slots: Vec<Slot<T>>,
}

impl<T> Block<T> {
    /// A fresh, empty block.
    fn new() -> (r: Block<T>)
        ensures
            r.slots@.len() == BLOCK_CAP,
            forall|i: int|
                0 <= i < r.slots@.len() ==> (#[trigger] r.slots@[i]).value is None
                    && r.slots@[i].state == 0,
    {
        Block { slots: Slot::uninit_block() }
    }
}

/// The number of live elements at sequence numbers below `s`: every full lap
/// contributes its continuation slot, which is not an element.
pub open spec fn elem_of(s: int) -> int {
    s - s / 32
}

/// The sequence number of the `e`-th live element ever stored: one
/// continuation slot is skipped for every 31 elements.
pub open spec fn pos_of(e: int) -> int {
    e + e / 31
}

/// `pos_of` lands on a live offset and inverts `elem_of`.
proof fn lemma_elem_pos(e: int)
    requires
        e >= 0,
    ensures
        pos_of(e) % 32 == e % 31,
        pos_of(e) / 32 == e / 31,
        pos_of(e) % 32 < 31,
        elem_of(pos_of(e)) == e,
        pos_of(e) >= e,
{
    lemma_fundamental_div_mod(e, 31);
    lemma_fundamental_div_mod_converse(pos_of(e), 32, e / 31, e % 31);
}

/// `elem_of` of a live position inverts `pos_of`.
proof fn lemma_pos_elem(s: int)
    requires
        s >= 0,
        s % 32 < 31,
    ensures
        elem_of(s) >= 0,
        elem_of(s) % 31 == s % 32,
        elem_of(s) / 31 == s / 32,
        pos_of(elem_of(s)) == s,
{
    lemma_fundamental_div_mod(s, 32);
    lemma_fundamental_div_mod_converse(elem_of(s), 31, s / 32, s % 32);
}

/// Element numbering is strictly monotone in the sequence number.
proof fn lemma_pos_monotone(a: int, b: int)
    requires
        0 <= a <= b,
    ensures
        pos_of(a) <= pos_of(b),
        a < b ==> pos_of(a) < pos_of(b),
{
    lemma_div_is_ordered(a, b, 31);
}

/// The unbounded flavor: built for any number of producers and consumers,
/// and verified here against its sequential behaviour, with the index
/// arithmetic, block layout and close protocol kept intact.
pub struct Unbounded<T> {
    /// The head position: mark bit (spanning) plus consume sequence number.
    head_index: usize,
    /// The tail position: mark bit (closed) plus produce sequence number.
    tail_index: usize,
    /// The live blocks, oldest first; `blocks[k]` holds lap `head lap + k`.
    blocks: Vec<Block<T>>,
}

impl<T> Unbounded<T> {
    /// Consume-side sequence number.
    pub(crate) closed spec fn head_seq(&self) -> int {
        self.head_index as int / 2
    }

    /// Produce-side sequence number.
    pub(crate) closed spec fn tail_seq(&self) -> int {
        self.tail_index as int / 2
    }

    /// Whether the queue has been closed.
    pub closed spec fn spec_closed(&self) -> bool {
        self.tail_index as int % 2 == 1
    }

    /// How many values have been popped over the queue's lifetime.
    pub closed spec fn spec_popped(&self) -> int {
        elem_of(self.head_seq())
    }

    /// How many values have been pushed over the queue's lifetime.
    pub closed spec fn spec_pushed(&self) -> int {
        elem_of(self.tail_seq())
    }

    /// Whether the index word can still take a push.  Exhausting it would
    /// take about `2^61` pushes: no feasible execution gets there.
    pub closed spec fn spec_has_headroom(&self) -> bool {
        self.tail_index + 4 <= usize::MAX
    }

    /// The slot holding sequence number `p`.
    spec fn slot_at(&self, p: int) -> Slot<T> {
        self.blocks[p / 32 - self.head_seq() / 32].slots[p % 32]
    }

    /// Structural well-formedness: ordered indices resting on live offsets,
    /// one block per lap in use, a spanning mark true to the block layout,
    /// and every slot's contents and state bits matching its place relative
    /// to head and tail — consumed, pending, or not yet written.
    pub closed spec fn wf(&self) -> bool {
        let h = self.head_seq();
        let t = self.tail_seq();
        &&& 0 <= h <= t
        &&& h % 32 < 31
        &&& t % 32 < 31
        &&& (self.head_index as int % 2 == 1 ==> h / 32 < t / 32)
        &&& self.blocks@.len() == (if t == 0 {
            0int
        } else {
            t / 32 - h / 32 + 1
        })
        &&& forall|b: int|
            0 <= b < self.blocks@.len() ==> (#[trigger] self.blocks@[b]).slots@.len() == BLOCK_CAP
        &&& forall|b: int, o: int|
            0 <= b < self.blocks@.len() && 0 <= o < BLOCK_CAP ==> {
                let p = 32 * (h / 32 + b) + o;
                &&& (p < h ==> (#[trigger] self.blocks@[b].slots@[o]).value is None
                    && self.blocks@[b].slots@[o].state == (WRITE | READ))
                &&& (h <= p < t ==> self.blocks@[b].slots@[o].value is Some
                    && self.blocks@[b].slots@[o].state == WRITE)
                &&& (t <= p ==> self.blocks@[b].slots@[o].value is None
                    && self.blocks@[b].slots@[o].state == 0)
            }
    }

    /// The pending values, oldest first.
    pub closed spec fn contents(&self) -> Seq<T> {
        Seq::new(
            (self.spec_pushed() - self.spec_popped()) as nat,
            |i: int| self.slot_at(pos_of(self.spec_popped() + i)).value.unwrap(),
        )
    }

    /// Head strictly before tail and both on live offsets means the element
    /// count is positive; equal indices mean it is zero.
    proof fn lemma_count(&self)
        requires
            ({
                let h = self.head_seq();
                let t = self.tail_seq();
                0 <= h <= t && h % 32 < 31 && t % 32 < 31
            }),
        ensures
            self@.len() == self.spec_pushed() - self.spec_popped(),
            self.spec_popped() <= self.spec_pushed(),
            self.head_seq() < self.tail_seq() ==> self.spec_popped() < self.spec_pushed(),
            self.head_seq() == self.tail_seq() ==> self.spec_popped() == self.spec_pushed(),
    {
        let h = self.head_seq();
        let t = self.tail_seq();
        lemma_pos_elem(h);
        lemma_pos_elem(t);
        if elem_of(h) > elem_of(t) {
            lemma_pos_monotone(elem_of(t), elem_of(h));
        }
        if h < t && elem_of(h) >= elem_of(t) {
            lemma_pos_monotone(elem_of(t), elem_of(h));
        }
    }

    /// A marked head, like a head strictly before the tail, witnesses a
    /// pending element.
    proof fn lemma_nonempty(&self)
        requires
            self.wf(),
            self.head_index as int % 2 == 1 || self.head_seq() < self.tail_seq(),
        ensures
            self@.len() > 0,
            self.head_seq() < self.tail_seq(),
    {
        let h = self.head_seq();
        let t = self.tail_seq();
        lemma_fundamental_div_mod(h, 32);
        lemma_fundamental_div_mod(t, 32);
        self.lemma_count();
    }

    /// A fresh, open, empty queue.
    pub fn new() -> (r: Unbounded<T>)
        ensures
            r.wf(),
            r@ == Seq::<T>::empty(),
            !r.spec_closed(),
            r.spec_popped() == 0,
            r.spec_pushed() == 0,
            r.spec_has_headroom(),
    {
        let r = Unbounded { head_index: 0, tail_index: 0, blocks: Vec::new() };
        proof {
            assert(r@ =~= Seq::<T>::empty());
        }
        r
    }

    /// Appends `value` at the tail.  Fails with `Closed` after `close`,
    /// handing the value back; fails with `Full` only on index-word
    /// exhaustion, which no feasible execution reaches.
    #[verifier::rlimit(80)]
    #[verifier::spinoff_prover]
    pub fn push(&mut self, value: T) -> (r: Result<(), PushError<T>>)
        requires
            old(self).wf(),
        ensures
            final (self).wf(),
            old(self).spec_closed() ==> r == Err::<(), PushError<T>>(PushError::Closed(value))
                && *final (self) == *old(self),
            !old(self).spec_closed() && !old(self).spec_has_headroom() ==> r == Err::<
                (),
                PushError<T>,
            >(PushError::Full(value)) && *final (self) == *old(self),
            !old(self).spec_closed() && old(self).spec_has_headroom() ==> {
                &&& r == Ok::<(), PushError<T>>(())
                &&& final (self)@ == old(self)@.push(value)
                &&& !final (self).spec_closed()
                &&& final (self).spec_popped() == old(self).spec_popped()
                &&& final (self).spec_pushed() == old(self).spec_pushed() + 1
            },
    {
        let ghost pre = *old(self);
        let tail = self.tail_index;
        if index_marked(tail) {
            return Err(PushError::Closed(value));
        }
        if tail >= usize::MAX - 3 {
            return Err(PushError::Full(value));
        }
        let head = self.head_index;
        let t_seq = index_seq(tail);
        let h_seq = index_seq(head);
        let offset = t_seq % LAP;
        proof {
            let h = pre.head_seq();
            let t = pre.tail_seq();
            lemma_fundamental_div_mod(h, 32);
            lemma_fundamental_div_mod(t, 32);
            lemma_div_is_ordered(h, t, 32);
        }
        // The first value ever pushed installs the first block.
        if self.blocks.len() == 0 {
            self.blocks.push(Block::new());
        }
        // Claim the slot by advancing the tail index one step (1 << SHIFT).
        self.tail_index = tail + 2;
        // Write the value into the claimed slot and set its WRITE bit.
        let b = t_seq / LAP - h_seq / LAP;
        let mut blk = self.blocks.remove(b);
        let ghost slots0 = blk.slots@;
        let mut slot = blk.slots.remove(offset);
        slot.value = Some(value);
        slot.state = WRITE;
        blk.slots.insert(offset, slot);
        proof {
            assert(blk.slots@ =~= slots0.update(
                offset as int,
                Slot { value: Some(value), state: WRITE },
            ));
        }
        self.blocks.insert(b, blk);
        let boundary = offset + 1 == BLOCK_CAP;
        if boundary {
            // The claimed slot was the block's last: install the next block
            // now and step the tail past the continuation slot, so that the
            // next push never waits on allocation.
            self.blocks.push(Block::new());
            self.tail_index = self.tail_index + 2;
        }
        proof {
            let h = pre.head_seq();
            let t = pre.tail_seq();
            let grown: Seq<Block<T>> = if pre.blocks@.len() == 0 {
                pre.blocks@.push(self.blocks@[0])
            } else {
                pre.blocks@
            };
            assert(pre.tail_index as int == 2 * t);
            if boundary {
                lemma_fundamental_div_mod_converse(self.tail_index as int, 2, t + 2, 0);
                lemma_fundamental_div_mod_converse(t + 2, 32, t / 32 + 1, 0);
            } else {
                lemma_fundamental_div_mod_converse(self.tail_index as int, 2, t + 1, 0);
                lemma_fundamental_div_mod_converse(t + 1, 32, t / 32, t % 32 + 1);
            }
            let t2 = self.tail_seq();
            assert(self.blocks@[b as int].slots@ =~= grown[b as int].slots@.update(
                offset as int,
                Slot { value: Some(value), state: WRITE },
            ));
            // Well-formedness of the grown queue.
            assert forall|bb: int|
                0 <= bb < self.blocks@.len() implies (#[trigger] self.blocks@[bb]).slots@.len()
                == BLOCK_CAP by {
                if bb != b && bb < grown.len() {
                    assert(self.blocks@[bb] == grown[bb]);
                }
            }
            assert forall|bb: int, o: int|
                0 <= bb < self.blocks@.len() && 0 <= o < BLOCK_CAP implies {
                    let p = 32 * (h / 32 + bb) + o;
                    &&& (p < h ==> (#[trigger] self.blocks@[bb].slots@[o]).value is None
                        && self.blocks@[bb].slots@[o].state == (WRITE | READ))
                    &&& (h <= p < t2 ==> self.blocks@[bb].slots@[o].value is Some
                        && self.blocks@[bb].slots@[o].state == WRITE)
                    &&& (t2 <= p ==> self.blocks@[bb].slots@[o].value is None
                        && self.blocks@[bb].slots@[o].state == 0)
                } by {
                let p = 32 * (h / 32 + bb) + o;
                assert(p / 32 == h / 32 + bb && p % 32 == o) by {
                    lemma_fundamental_div_mod_converse(p, 32, h / 32 + bb, o);
                }
                if bb == b && o == offset {
                    // The claimed slot: p == t, freshly written.
                    assert(t % 32 == offset && t / 32 == h / 32 + b);
                } else if bb < grown.len() {
                    // An untouched slot of a pre-existing block keeps its
                    // place relative to the (unmoved) head; only the tail
                    // has moved, past p == t alone.
                    assert(self.blocks@[bb].slots@[o] == grown[bb].slots@[o]);
                    if pre.blocks@.len() == 0 {
                        assert(grown[bb].slots@[o].value is None && grown[bb].slots@[o].state
                            == 0);
                    } else {
                        assert(self.blocks@[bb].slots@[o] == pre.blocks@[bb].slots@[o]);
                    }
                    assert(t % 32 == offset && t / 32 == h / 32 + b);
                    assert(p != t);
                } else {
                    // A slot of the block just installed past the tail.
                    assert(self.blocks@[bb].slots@[o].value is None && self.blocks@[bb].slots@[o]
                        .state == 0);
                    assert(p >= 32 * (h / 32 + bb));
                }
            }
            assert(self.wf());
            // The pending values gained exactly `value` at the back.
            lemma_pos_elem(h);
            lemma_pos_elem(t);
            self.lemma_count();
            pre.lemma_count();
            let e_h = elem_of(h);
            let e_t = elem_of(t);
            assert(self.spec_pushed() == e_t + 1);
            assert forall|i: int| 0 <= i < self@.len() implies self@[i] == pre@.push(value)[i] by {
                let p = pos_of(e_h + i);
                lemma_elem_pos(e_h + i);
                lemma_pos_monotone(e_h, e_h + i);
                lemma_pos_monotone(e_h + i, e_t);
                lemma_div_is_ordered(h, p, 32);
                lemma_div_is_ordered(p, t, 32);
                lemma_fundamental_div_mod(p, 32);
                if i < e_t - e_h {
                    assert(p < t);
                    assert(32 * (h / 32 + (p / 32 - h / 32)) + p % 32 == p);
                    assert(self.slot_at(p) == pre.slot_at(p));
                } else {
                    assert(e_h + i == e_t);
                    assert(p == t);
                    assert(self.slot_at(p).value == Some(value));
                }
            }
            assert(self@ =~= pre@.push(value));
        }
        Ok(())
    }

    /// Removes and returns the oldest value.  An empty queue reports
    /// `Closed` once closed and `Empty` otherwise; pending values are
    /// drained even after a close.
    #[verifier::rlimit(60)]
    #[verifier::spinoff_prover]
    pub fn pop(&mut self) -> (r: Result<T, PopError>)
        requires
            old(self).wf(),
        ensures
            final (self).wf(),
            old(self)@.len() == 0 && old(self).spec_closed() ==> r == Err::<T, PopError>(
                PopError::Closed,
            ) && *final (self) == *old(self),
            old(self)@.len() == 0 && !old(self).spec_closed() ==> r == Err::<T, PopError>(
                PopError::Empty,
            ) && *final (self) == *old(self),
            old(self)@.len() > 0 ==> {
                &&& r == Ok::<T, PopError>(old(self)@[0])
                &&& final (self)@ == old(self)@.subrange(1, old(self)@.len() as int)
                &&& final (self).spec_closed() == old(self).spec_closed()
                &&& final (self).spec_popped() == old(self).spec_popped() + 1
                &&& final (self).spec_pushed() == old(self).spec_pushed()
            },
            final (self).spec_has_headroom() == old(self).spec_has_headroom(),
    {
        let ghost pre = *old(self);
        let head = self.head_index;
        let h_seq = index_seq(head);
        let offset = h_seq % LAP;
        let marked = index_marked(head);
        if !marked {
            let tail = self.tail_index;
            // With head and tail on the same slot the queue is empty; under
            // concurrent access a full fence separates this read from the claim.
            if h_seq == index_seq(tail) {
                proof {
                    pre.lemma_count();
                }
                if index_marked(tail) {
                    return Err(PopError::Closed);
                } else {
                    return Err(PopError::Empty);
                }
            }
        }
        proof {
            self.lemma_nonempty();
            let h = pre.head_seq();
            let t = pre.tail_seq();
            lemma_fundamental_div_mod(h, 32);
            lemma_fundamental_div_mod(t, 32);
            lemma_div_is_ordered(h, t, 32);
            if pre.head_index as int % 2 == 1 {
                assert(head + 2 <= pre.tail_index as int);
            }
        }
        // Claim the slot by advancing the head index one step; when head and
        // tail sit in different blocks the spanning mark lets concurrent
        // poppers skip the emptiness check rather than chase the chain.
        let mut new_head = head + 2;
        if !marked {
            let tail = self.tail_index;
            if h_seq / LAP != index_seq(tail) / LAP {
                new_head = with_mark(new_head);
            }
        }
        self.head_index = new_head;
        // Read the value out and set the READ bit.
        let mut blk = self.blocks.remove(0);
        let ghost slots0 = blk.slots@;
        let mut slot = blk.slots.remove(offset);
        let value_opt = slot.value.take();
        slot.state = WRITE | READ;
        blk.slots.insert(offset, slot);
        proof {
            assert(blk.slots@ =~= slots0.update(
                offset as int,
                Slot { value: None, state: (WRITE | READ) },
            ));
        }
        let crossing = offset + 1 == BLOCK_CAP;
        if crossing {
            // The block's last live slot is consumed: destroy the block
            // (dropping it frees it exactly once) and step the head past the
            // continuation slot into the next block, re-marking the head if
            // it still trails the tail by more than a block.
            let tail = self.tail_index;
            let base = without_mark(self.head_index) + 2;
            if index_seq(tail) / LAP > h_seq / LAP + 1 {
                self.head_index = with_mark(base);
            } else {
                self.head_index = base;
            }
        } else {
            self.blocks.insert(0, blk);
        }
        proof {
            let h = pre.head_seq();
            let t = pre.tail_seq();
            let m = pre.head_index as int % 2;
            assert(pre.head_index as int == 2 * h + m);
            lemma_fundamental_div_mod_converse(head + 2, 2, h + 1, m);
            if crossing {
                assert(h % 32 == 30);
                assert(h / 32 + 1 <= t / 32) by {
                    if t / 32 == h / 32 {
                        assert(t <= 32 * (t / 32) + 30);
                    }
                }
                assert(self.head_seq() == h + 2 && self.head_index as int % 2 == (if t / 32 > h
                    / 32 + 1 {
                    1int
                } else {
                    0int
                }));
                lemma_fundamental_div_mod_converse(h + 2, 32, h / 32 + 1, 0);
            } else {
                assert(self.head_seq() == h + 1);
                lemma_fundamental_div_mod_converse(h + 1, 32, h / 32, h % 32 + 1);
            }
            let h2 = self.head_seq();
            // Well-formedness after the claim.
            assert forall|bb: int|
                0 <= bb < self.blocks@.len() implies (#[trigger] self.blocks@[bb]).slots@.len()
                == BLOCK_CAP by {
                if crossing {
                    assert(self.blocks@[bb] == pre.blocks@[bb + 1]);
                } else if bb != 0 {
                    assert(self.blocks@[bb] == pre.blocks@[bb]);
                }
            }
            assert forall|bb: int, o: int|
                0 <= bb < self.blocks@.len() && 0 <= o < BLOCK_CAP implies {
                    let p = 32 * (h2 / 32 + bb) + o;
                    &&& (p < h2 ==> (#[trigger] self.blocks@[bb].slots@[o]).value is None
                        && self.blocks@[bb].slots@[o].state == (WRITE | READ))
                    &&& (h2 <= p < t ==> self.blocks@[bb].slots@[o].value is Some
                        && self.blocks@[bb].slots@[o].state == WRITE)
                    &&& (t <= p ==> self.blocks@[bb].slots@[o].value is None
                        && self.blocks@[bb].slots@[o].state == 0)
                } by {
                let p = 32 * (h2 / 32 + bb) + o;
                if crossing {
                    // The finished block is gone; every remaining position
                    // sits at or past the new head.
                    assert(self.blocks@[bb] == pre.blocks@[bb + 1]);
                    assert(p == 32 * (h / 32 + (bb + 1)) + o);
                    assert(p >= 32 * (h / 32 + 1));
                } else {
                    let p0 = 32 * (h / 32 + bb) + o;
                    assert(p0 == p);
                    if bb == 0 && o == offset {
                        // The consumed slot: p == h, just emptied and marked.
                        assert(p == h);
                    } else {
                        assert(self.blocks@[bb].slots@[o] == pre.blocks@[bb].slots@[o]);
                        assert(p != h);
                    }
                }
            }
            assert(self.wf());
            // The pending values lost exactly the oldest one.
            lemma_pos_elem(h);
            lemma_pos_elem(t);
            self.lemma_count();
            pre.lemma_count();
            let e_h = elem_of(h);
            let e_t = elem_of(t);
            assert(self.spec_popped() == e_h + 1);
            assert(value_opt == pre.slot_at(h).value);
            assert(pre@[0] == pre.slot_at(pos_of(e_h)).value.unwrap());
            assert(pre.slot_at(h).value is Some) by {
                assert(32 * (h / 32 + 0) + h % 32 == h);
                assert(pre.blocks@[0].slots@[h % 32].value is Some);
            }
            assert forall|i: int| 0 <= i < self@.len() implies self@[i] == pre@.subrange(
                1,
                pre@.len() as int,
            )[i] by {
                let p = pos_of(e_h + 1 + i);
                lemma_elem_pos(e_h + 1 + i);
                lemma_pos_monotone(e_h, e_h + 1 + i);
                lemma_pos_monotone(e_h + 1 + i, e_t);
                lemma_elem_pos(e_h + 1);
                lemma_pos_monotone(e_h + 1, e_h + 1 + i);
                lemma_div_is_ordered(h, p, 32);
                lemma_div_is_ordered(p, t, 32);
                lemma_fundamental_div_mod(p, 32);
                assert(h < p < t);
                if crossing {
                    assert(pos_of(e_h + 1) == h + 2);
                    assert(h + 2 <= p);
                    lemma_div_is_ordered(h + 2, p, 32);
                    assert(self.slot_at(p) == self.blocks@[p / 32 - h2 / 32].slots@[p % 32]);
                    assert(self.blocks@[p / 32 - h2 / 32] == pre.blocks@[p / 32 - h / 32]);
                    assert(self.slot_at(p) == pre.slot_at(p));
                } else {
                    assert(32 * (h / 32 + (p / 32 - h / 32)) + p % 32 == p);
                    if p / 32 - h / 32 == 0 && p % 32 == offset {
                        assert(p == h);
                    }
                    assert(self.slot_at(p) == pre.slot_at(p));
                }
                assert(pre@[i + 1] == pre.slot_at(p).value.unwrap());
            }
            assert(self@ =~= pre@.subrange(1, pre@.len() as int));
        }
        Ok(value_opt.unwrap())
    }

    /// The number of pending values: the index distance minus one
    /// continuation unit per block in between.
    pub fn len(&self) -> (r: usize)
        requires
            self.wf(),
        ensures
            r == self@.len(),
    {
        // Erase the mark bits.
        let tail = without_mark(self.tail_index);
        let head = without_mark(self.head_index);
        let mut t_seq = index_seq(tail);
        let mut h_seq = index_seq(head);
        proof {
            let h = self.head_seq();
            let t = self.tail_seq();
            lemma_fundamental_div_mod(h, 32);
            lemma_fundamental_div_mod(t, 32);
            lemma_div_is_ordered(h, t, 32);
            lemma_fundamental_div_mod_converse(t - 32 * (h / 32), 32, t / 32 - h / 32, t % 32);
            self.lemma_count();
        }
        // Fix up indices that fall onto block ends (never at rest).
        if t_seq % LAP == LAP - 1 {
            t_seq = t_seq + 1;
        }
        if h_seq % LAP == LAP - 1 {
            h_seq = h_seq + 1;
        }
        // Rotate indices so that head falls into the first block.
        let lap = h_seq / LAP;
        t_seq = t_seq - lap * LAP;
        h_seq = h_seq - lap * LAP;
        // The difference, minus the number of blocks between tail and head.
        t_seq - h_seq - t_seq / LAP
    }

    /// Whether no values are pending.
    pub fn is_empty(&self) -> (r: bool)
        requires
            self.wf(),
        ensures
            r == (self@.len() == 0),
    {
        let head = self.head_index;
        let tail = self.tail_index;
        proof {
            if self.head_seq() < self.tail_seq() {
                self.lemma_nonempty();
            } else {
                self.lemma_count();
            }
        }
        index_seq(head) == index_seq(tail)
    }

    /// Closes the queue: pushes fail from here on, pops drain what is left.
    /// Returns whether this call was the one that closed it.
    pub fn close(&mut self) -> (r: bool)
        requires
            old(self).wf(),
        ensures
            final (self).wf(),
            final (self).spec_closed(),
            r == !old(self).spec_closed(),
            final (self)@ == old(self)@,
            final (self).spec_popped() == old(self).spec_popped(),
            final (self).spec_pushed() == old(self).spec_pushed(),
    {
        let tail = self.tail_index;
        self.tail_index = with_mark(tail);
        proof {
            assert(final (self)@ =~= old(self)@);
        }
        !index_marked(tail)
    }

    /// Whether the queue has been closed.
    pub fn is_closed(&self) -> (r: bool)
        ensures
            r == self.spec_closed(),
    {
        index_marked(self.tail_index)
    }

    /// Whether the index word can still take a push; false only after about
    /// `2^61` pushes.
    pub fn has_headroom(&self) -> (r: bool)
        ensures
            r == self.spec_has_headroom(),
    {
        self.tail_index < usize::MAX - 3
    }

    /// The index word keeps headroom while the lifetime push count stays
    /// below an eighth of the index space, so a chain of pushes needs no
    /// runtime headroom test until then: each push advances the index by at
    /// most two steps of two.
    pub proof fn lemma_headroom(&self)
        requires
            self.wf(),
            self.spec_pushed() < usize::MAX as int / 8,
        ensures
            self.spec_has_headroom(),
    {
        let t = self.tail_seq();
        let pushed = self.spec_pushed();
        lemma_div_is_ordered_by_denominator(t, 2, 32);
        lemma_fundamental_div_mod(t, 2);
        lemma_fundamental_div_mod(self.tail_index as int, 2);
        assert(t / 2 <= pushed);
        assert(self.tail_index as int <= 4 * pushed + 3);
    }
}

impl<T> View for Unbounded<T> {
    type V = Seq<T>;

    closed spec fn view(&self) -> Seq<T> {
        self.contents()
    }
}

/// Whether the index's mark bit is set.
fn index_marked(i: usize) -> (r: bool)
    ensures
        r == (i as int % 2 == 1),
{
    let w = i as u64;
    proof {
        assert((w & 1u64 != 0) == (w % 2 == 1)) by (bit_vector);
    }
    (w & (MARK_BIT as u64)) != 0
}

/// The sequence number above the mark bit.
fn index_seq(i: usize) -> (r: usize)
    ensures
        r == i as int / 2,
{
    let w = i as u64;
    proof {
        assert(w >> 1u64 == w / 2) by (bit_vector);
    }
    (w >> (SHIFT as u64)) as usize
}

/// The index with its mark bit set.
fn with_mark(i: usize) -> (r: usize)
    ensures
        r as int % 2 == 1,
        r as int / 2 == i as int / 2,
        i <= r,
{
    let w = i as u64;
    proof {
        assert(((w | 1u64) % 2 == 1) && ((w | 1u64) / 2 == w / 2) && (w <= (w | 1u64)) && ((w
            | 1u64) <= w + 1)) by (bit_vector);
    }
    (w | (MARK_BIT as u64)) as usize
}

/// The index with its mark bit cleared.
fn without_mark(i: usize) -> (r: usize)
    ensures
        r as int % 2 == 0,
        r as int / 2 == i as int / 2,
        r <= i,
{
    let w = i as u64;
    proof {
        assert(((w & !1u64) % 2 == 0) && ((w & !1u64) / 2 == w / 2) && ((w & !1u64) <= w))
            by (bit_vector);
    }
    (w & !(MARK_BIT as u64)) as usize
}

/// The queue behind its public face; only the unbounded flavor exists so
/// far, with a bounded sibling sharing the error types.
enum QueueFlavor<T> {
    Unbounded(Unbounded<T>),
}

/// A multi-producer multi-consumer queue of values of type `T`.
pub struct ConcurrentQueue<T> {
    inner: QueueFlavor<T>,
}

/// A queue together with the reference count that a shared owner would
/// carry.
#[allow(dead_code)]
struct Packet<T> {
    reference_count: usize,
    flavor: QueueFlavor<T>,
}

/// A shared-ownership wrapper around one queue allocation; its API is
/// still to come and it stands here as data only.
#[allow(dead_code)]
pub struct ArcConcurrentQueue<T> {
    packet: Packet<T>,
}

impl<T> ConcurrentQueue<T> {
    /// The one flavor held.
    spec fn unbounded_ref(&self) -> Unbounded<T> {
        match self.inner {
            QueueFlavor::Unbounded(u) => u,
        }
    }

    /// Structural well-formedness, inherited from the flavor.
    pub closed spec fn wf(&self) -> bool {
        self.unbounded_ref().wf()
    }

    /// Whether the queue has been closed.
    pub closed spec fn spec_closed(&self) -> bool {
        self.unbounded_ref().spec_closed()
    }

    /// Whether the index word can still take a push.
    pub closed spec fn spec_has_headroom(&self) -> bool {
        self.unbounded_ref().spec_has_headroom()
    }

    /// How many values have been popped over the queue's lifetime.
    pub closed spec fn spec_popped(&self) -> int {
        self.unbounded_ref().spec_popped()
    }

    /// How many values have been pushed over the queue's lifetime.
    pub closed spec fn spec_pushed(&self) -> int {
        self.unbounded_ref().spec_pushed()
    }

    /// A fresh unbounded queue.
    pub fn unbounded() -> (r: ConcurrentQueue<T>)
        ensures
            r.wf(),
            r@ == Seq::<T>::empty(),
            !r.spec_closed(),
            r.spec_popped() == 0,
            r.spec_pushed() == 0,
            r.spec_has_headroom(),
    {
        ConcurrentQueue { inner: QueueFlavor::Unbounded(Unbounded::new()) }
    }

    /// Appends `value` at the tail; see `Unbounded::push`.
    #[verifier::rlimit(80)]
    #[verifier::spinoff_prover]
    pub fn push(&mut self, value: T) -> (r: Result<(), PushError<T>>)
        requires
            old(self).wf(),
        ensures
            final (self).wf(),
            old(self).spec_closed() ==> r == Err::<(), PushError<T>>(PushError::Closed(value))
                && final (self)@ == old(self)@ && final (self).spec_closed()
                && final (self).spec_popped() == old(self).spec_popped(),
            !old(self).spec_closed() && !old(self).spec_has_headroom() ==> r == Err::<
                (),
                PushError<T>,
            >(PushError::Full(value)) && final (self)@ == old(self)@ && !final (self).spec_closed(),
            !old(self).spec_closed() && old(self).spec_has_headroom() ==> {
                &&& r == Ok::<(), PushError<T>>(())
                &&& final (self)@ == old(self)@.push(value)
                &&& !final (self).spec_closed()
                &&& final (self).spec_popped() == old(self).spec_popped()
                &&& final (self).spec_pushed() == old(self).spec_pushed() + 1
            },
    {
        let QueueFlavor::Unbounded(ub) = &mut self.inner;
        ub.push(value)
    }

    /// Removes and returns the oldest value; see `Unbounded::pop`.
    pub fn pop(&mut self) -> (r: Result<T, PopError>)
        requires
            old(self).wf(),
        ensures
            final (self).wf(),
            old(self)@.len() == 0 && old(self).spec_closed() ==> r == Err::<T, PopError>(
                PopError::Closed,
            ) && final (self)@ == old(self)@ && final (self).spec_closed() == old(self)
                .spec_closed() && final (self).spec_popped() == old(self).spec_popped()
                && final (self).spec_pushed() == old(self).spec_pushed(),
            old(self)@.len() == 0 && !old(self).spec_closed() ==> r == Err::<T, PopError>(
                PopError::Empty,
            ) && final (self)@ == old(self)@ && final (self).spec_closed() == old(self)
                .spec_closed() && final (self).spec_popped() == old(self).spec_popped()
                && final (self).spec_pushed() == old(self).spec_pushed(),
            old(self)@.len() > 0 ==> {
                &&& r == Ok::<T, PopError>(old(self)@[0])
                &&& final (self)@ == old(self)@.subrange(1, old(self)@.len() as int)
                &&& final (self).spec_closed() == old(self).spec_closed()
                &&& final (self).spec_popped() == old(self).spec_popped() + 1
                &&& final (self).spec_pushed() == old(self).spec_pushed()
            },
            final (self).spec_has_headroom() == old(self).spec_has_headroom(),
    {
        let QueueFlavor::Unbounded(ub) = &mut self.inner;
        ub.pop()
    }

    /// Whether the index word can still take a push; see
    /// `Unbounded::has_headroom`.
    pub fn has_headroom(&self) -> (r: bool)
        ensures
            r == self.spec_has_headroom(),
    {
        let QueueFlavor::Unbounded(ub) = &self.inner;
        ub.has_headroom()
    }

    /// Headroom from the lifetime push count; see
    /// `Unbounded::lemma_headroom`.
    pub proof fn lemma_headroom(&self)
        requires
            self.wf(),
            self.spec_pushed() < usize::MAX as int / 8,
        ensures
            self.spec_has_headroom(),
    {
        self.unbounded_ref().lemma_headroom();
    }
}

impl<T> View for ConcurrentQueue<T> {
    type V = Seq<T>;

    closed spec fn view(&self) -> Seq<T> {
        self.unbounded_ref()@
    }
}

/// Length consistency: with no concurrent activity the pending count —
/// what `len` returns — equals the number of values pushed minus the
/// number popped, and `close` changes neither tally.
pub proof fn lemma_len_is_pushes_minus_pops<T>(q: &Unbounded<T>)
    requires
        q.wf(),
    ensures
        q@.len() == q.spec_pushed() - q.spec_popped(),
{
    q.lemma_count();
}

/// The pending values once `k` of them have been popped, in the order the
/// pops will yield them.
pub open spec fn pending_after<T>(vs: Seq<T>, k: int) -> Seq<T> {
    vs.subrange(k, vs.len() as int)
}

/// FIFO order: with pending values `vs`, the `k`-th successive pop is owed
/// exactly `vs[k]` — each pop returns the head of what `pending_after`
/// leaves, and leaves `pending_after` of one more pop, which is what `pop`'s
/// contract guarantees of the queue's view.  So a single consumer that pops
/// `vs.len()` times reads back exactly `vs`, in push order.
pub proof fn lemma_fifo_order<T>(vs: Seq<T>, k: int)
    requires
        0 <= k < vs.len(),
    ensures
        pending_after(vs, k).len() == vs.len() - k,
        pending_after(vs, k)[0] == vs[k],
        pending_after(vs, k).subrange(1, pending_after(vs, k).len() as int) == pending_after(
            vs,
            k + 1,
        ),
{
    assert(pending_after(vs, k).subrange(1, pending_after(vs, k).len() as int) =~= pending_after(
        vs,
        k + 1,
    ));
}

/// Multi-producer delivery without loss or duplication: however an
/// interleaving orders the producers' pushes into the single sequence `ws`
/// appended to the pending values `v0`, every value that occurs exactly once
/// among the pushes and not among the pending values is pending exactly once
/// afterwards — it will be popped exactly once.
pub proof fn lemma_exactly_once<T>(v0: Seq<T>, ws: Seq<T>, x: T)
    requires
        !v0.contains(x),
        ws.to_multiset().count(x) == 1,
    ensures
        (v0 + ws).to_multiset().count(x) == 1,
{
    lemma_multiset_commutative(v0, ws);
    v0.to_multiset_ensures();
    if v0.to_multiset().count(x) > 0 {
        assert(v0.contains(x));
    }
}

} // verus!
