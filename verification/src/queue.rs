//! Bounded multi-producer ring-buffer queue, modeled sequentially.
//!
//! The queue is a fixed array of slots, each holding an optional value and a
//! sequence counter that encodes which lap around the ring currently owns the
//! slot. Two monotonically increasing cursors (`enqueue_pos`, `dequeue_pos`)
//! are advanced by exactly one per successful operation; the pending items
//! are the positions in `dequeue_pos .. enqueue_pos`, each stored in the slot
//! at its position modulo the capacity.

use vstd::prelude::*;
use vstd::arithmetic::div_mod::{
    lemma_fundamental_div_mod, lemma_mod_add_multiples_vanish, lemma_mod_division_less_than_divisor,
    lemma_small_mod,
};

verus! {

/// Whether `n` is a power of two.
pub open spec fn is_pow2(n: int) -> bool
    decreases n,
{
    if n <= 0 {
        false
    } else if n == 1 {
        true
    } else {
        n % 2 == 0 && is_pow2(n / 2)
    }
}

/// The capacity the queue is actually built with for a request of `c`:
/// at least 2, and rounded up to the next power of two.
pub open spec fn normalized_capacity(c: int) -> int
    decreases c,
{
    if c <= 2 {
        2
    } else {
        2 * normalized_capacity((c + 1) / 2)
    }
}

/// A capacity request of 0 or 1 is normalized to 2, and any other request to
/// the next power of two: the built capacity is a power of two, at least 2,
/// at least the request, below twice the request, and a request that is
/// already a power of two (and at least 2) is kept as it is.
pub proof fn lemma_normalized_capacity_bounds(c: int)
    ensures
        is_pow2(normalized_capacity(c)),
        normalized_capacity(c) >= 2,
        normalized_capacity(c) >= c,
        c >= 2 ==> normalized_capacity(c) <= 2 * c - 2,
        is_pow2(c) && c >= 2 ==> normalized_capacity(c) == c,
    decreases c,
{
    if c <= 2 {
        assert(is_pow2(1));
        assert(is_pow2(2));
    } else {
        lemma_normalized_capacity_bounds((c + 1) / 2);
        let m = normalized_capacity((c + 1) / 2);
        assert((2 * m) % 2 == 0);
        assert((2 * m) / 2 == m);
        assert(is_pow2(2 * m));
        assert(normalized_capacity(c) == 2 * m);
        assert(2 * m >= 2 * ((c + 1) / 2));
        assert(2 * ((c + 1) / 2) >= c);
        if is_pow2(c) {
            assert(c % 2 == 0);
            assert((c + 1) / 2 == c / 2);
            assert(is_pow2(c / 2));
        }
    }
}

/// Two positions of the same slot that lie less than one full lap apart are
/// the same position.
proof fn lemma_same_slot_same_lap(a: int, b: int, m: int)
    requires
        m > 0,
        a <= b,
        b - a < m,
        a % m == b % m,
    ensures
        a == b,
{
    lemma_fundamental_div_mod(a, m);
    lemma_fundamental_div_mod(b, m);
    let ka = a / m;
    let kb = b / m;
    assert(b - a == m * kb - m * ka);
    assert(m * kb - m * ka == m * (kb - ka)) by (nonlinear_arith);
    if kb >= ka + 1 {
        assert(m * (kb - ka) >= m) by (nonlinear_arith)
            requires
                m > 0,
                kb - ka >= 1,
        ;
    }
    if kb <= ka - 1 {
        assert(m * (kb - ka) <= -m) by (nonlinear_arith)
            requires
                m > 0,
                kb - ka <= -1,
        ;
    }
}

/// Next power of two that is at least `c` and at least 2.
fn next_pow2_at_least(c: usize) -> (r: usize)
    requires
        c <= usize::MAX / 2,
    ensures
        r == normalized_capacity(c as int),
    decreases c,
{
    proof {
        lemma_normalized_capacity_bounds(c as int);
    }
    if c <= 2 {
        2
    } else {
        let half = (c + 1) / 2;
        proof {
            lemma_normalized_capacity_bounds(half as int);
        }
        let r = next_pow2_at_least(half);
        2 * r
    }
}

/// One ring slot: the value, if the slot is occupied, and the sequence
/// counter that tells which lap currently owns the slot.
struct Node<T> {
    sequence: usize,
    value: Option<T>,
}

/// Fixed-capacity first-in-first-out queue over a ring of slots.
pub struct Queue<T> {
    buffer: Vec<Node<T>>,
    mask: usize,
    enqueue_pos: usize,
    dequeue_pos: usize,
}

impl<T> View for Queue<T> {
    type V = Seq<T>;

    /// The pending items, oldest first.
    closed spec fn view(&self) -> Seq<T> {
        Seq::new(
            (self.enqueue_pos - self.dequeue_pos) as nat,
            |i: int| self.slot(self.dequeue_pos + i).value->Some_0,
        )
    }
}

impl<T> Queue<T> {
    /// The fixed size of the ring.
    pub closed spec fn capacity(self) -> int {
        self.buffer@.len() as int
    }

    /// Total number of successful enqueues so far.
    pub closed spec fn enqueue_cursor(self) -> int {
        self.enqueue_pos as int
    }

    /// Total number of successful dequeues so far.
    pub closed spec fn dequeue_cursor(self) -> int {
        self.dequeue_pos as int
    }

    /// The slot that position `p` maps to.
    closed spec fn slot(self, p: int) -> Node<T> {
        self.buffer@[p % self.capacity()]
    }

    /// Well-formedness: the cursors never cross, never run more than one
    /// ring apart, and every slot's sequence counter agrees with the unique
    /// position of the current window `dequeue_pos .. dequeue_pos + capacity`
    /// that maps to it — `position + 1` with a value present for pending
    /// positions, `position` (ready for this lap's write) for free ones.
    pub closed spec fn wf(self) -> bool {
        &&& self.buffer@.len() == self.mask as int + 1
        &&& 2 <= self.buffer@.len()
        &&& self.dequeue_pos <= self.enqueue_pos
        &&& self.enqueue_pos - self.dequeue_pos <= self.buffer@.len()
        &&& self.enqueue_pos + self.buffer@.len() <= usize::MAX
        &&& forall|p: int|
            self.dequeue_pos <= p < self.enqueue_pos ==> (#[trigger] self.slot(p)).sequence == p + 1
                && self.slot(p).value is Some
        &&& forall|p: int|
            self.enqueue_pos <= p < self.dequeue_pos + self.buffer@.len()
                ==> (#[trigger] self.slot(p)).sequence == p
    }

    /// Builds an empty queue whose capacity is the requested one, normalized
    /// to at least 2 and rounded up to the next power of two.
    pub fn with_capacity(capacity: usize) -> (q: Queue<T>)
        requires
            capacity <= usize::MAX / 2,
        ensures
            q.wf(),
            q@ == Seq::<T>::empty(),
            q.capacity() == normalized_capacity(capacity as int),
            q.enqueue_cursor() == 0,
            q.dequeue_cursor() == 0,
    {
        proof {
            lemma_normalized_capacity_bounds(capacity as int);
        }
        let cap = next_pow2_at_least(capacity);
        let mut buffer: Vec<Node<T>> = Vec::new();
        let mut i: usize = 0;
        while i < cap
            invariant
                i <= cap,
                buffer@.len() == i,
                forall|k: int|
                    0 <= k < i ==> (#[trigger] buffer@[k]).sequence == k && buffer@[k].value
                        is None,
            decreases cap - i,
        {
            buffer.push(Node { sequence: i, value: None });
            i = i + 1;
        }
        let q = Queue { buffer, mask: cap - 1, enqueue_pos: 0, dequeue_pos: 0 };
        proof {
            assert forall|p: int| 0 <= p < cap implies (#[trigger] q.slot(p)).sequence == p by {
                lemma_small_mod(p as nat, cap as nat);
            }
            assert(q@ =~= Seq::<T>::empty());
        }
        q
    }

    /// Enqueues `value`. Succeeds exactly when the queue is not full, and
    /// then appends the value to the pending items; on a full ring the value
    /// is handed back unchanged and nothing moves.
    pub fn push(&mut self, value: T) -> (r: Result<(), T>)
        requires
            old(self).wf(),
            old(self).enqueue_cursor() + old(self).capacity() < usize::MAX,
        ensures
            final(self).wf(),
            final(self).capacity() == old(self).capacity(),
            final(self).dequeue_cursor() == old(self).dequeue_cursor(),
            old(self)@.len() < old(self).capacity() ==> r is Ok
                && final(self)@ == old(self)@.push(value)
                && final(self).enqueue_cursor() == old(self).enqueue_cursor() + 1,
            old(self)@.len() == old(self).capacity() ==> r is Err && r->Err_0 == value
                && *final(self) == *old(self),
    {
        let cap = self.mask + 1;
        let pos = self.enqueue_pos;
        let idx = pos % cap;
        proof {
            lemma_mod_division_less_than_divisor(pos as int, cap as int);
        }
        let seq = self.buffer[idx].sequence;
        if seq == pos {
            proof {
                // A full ring would show the oldest pending position's
                // counter here, which is one lap short of `pos`.
                if self.enqueue_pos == self.dequeue_pos + self.buffer@.len() {
                    lemma_mod_add_multiples_vanish(self.dequeue_pos as int, cap as int);
                    assert(self.slot(self.dequeue_pos as int).sequence == self.dequeue_pos + 1);
                    assert(false);
                }
            }
            self.buffer.set(idx, Node { sequence: pos + 1, value: Some(value) });
            self.enqueue_pos = pos + 1;
            proof {
                let oldq = *old(self);
                assert forall|p: int|
                    oldq.dequeue_pos <= p < oldq.enqueue_pos implies (#[trigger] self.slot(p))
                    == oldq.slot(p) by {
                    lemma_mod_division_less_than_divisor(p, cap as int);
                    if p % cap as int == idx as int {
                        lemma_same_slot_same_lap(p, pos as int, cap as int);
                    }
                }
                assert forall|p: int|
                    self.enqueue_pos <= p < self.dequeue_pos + self.buffer@.len() implies (
                    #[trigger] self.slot(p)) == oldq.slot(p) by {
                    lemma_mod_division_less_than_divisor(p, cap as int);
                    if p % cap as int == idx as int {
                        lemma_same_slot_same_lap(pos as int, p, cap as int);
                    }
                }
                assert(self.slot(pos as int).sequence == pos + 1);
                assert(self.slot(pos as int).value == Some(value));
                assert(self@ =~= oldq@.push(value));
            }
            Ok(())
        } else {
            proof {
                // A ring that is not full keeps the write position's slot
                // ready for this lap, so its counter would equal `pos`.
                if self.enqueue_pos < self.dequeue_pos + self.buffer@.len() {
                    assert(self.slot(pos as int).sequence == pos as int);
                    assert(false);
                }
            }
            Err(value)
        }
    }

    /// Dequeues the oldest pending item, if any. Returns the first pending
    /// item and removes it, or `None` exactly when nothing is pending; then
    /// nothing moves.
    pub fn pop(&mut self) -> (r: Option<T>)
        requires
            old(self).wf(),
        ensures
            final(self).wf(),
            final(self).capacity() == old(self).capacity(),
            final(self).enqueue_cursor() == old(self).enqueue_cursor(),
            old(self)@.len() > 0 ==> r is Some && r->Some_0 == old(self)@[0]
                && final(self)@ == old(self)@.subrange(1, old(self)@.len() as int)
                && final(self).dequeue_cursor() == old(self).dequeue_cursor() + 1,
            old(self)@.len() == 0 ==> r is None && *final(self) == *old(self),
    {
        let cap = self.mask + 1;
        let pos = self.dequeue_pos;
        let idx = pos % cap;
        proof {
            lemma_mod_division_less_than_divisor(pos as int, cap as int);
        }
        let seq = self.buffer[idx].sequence;
        if seq == pos + 1 {
            proof {
                // An empty queue keeps this slot free, with counter `pos`.
                if self.enqueue_pos == self.dequeue_pos {
                    assert(self.slot(pos as int).sequence == pos as int);
                    assert(false);
                }
                assert(self.slot(pos as int).value is Some);
            }
            let mut node = Node { sequence: pos + cap, value: None };
            self.buffer.set_and_swap(idx, &mut node);
            self.dequeue_pos = pos + 1;
            proof {
                let oldq = *old(self);
                assert forall|p: int|
                    self.dequeue_pos <= p < self.enqueue_pos implies (#[trigger] self.slot(p))
                    == oldq.slot(p) by {
                    lemma_mod_division_less_than_divisor(p, cap as int);
                    if p % cap as int == idx as int {
                        lemma_same_slot_same_lap(pos as int, p, cap as int);
                    }
                }
                assert forall|p: int|
                    self.enqueue_pos <= p < self.dequeue_pos + self.buffer@.len() implies (
                #[trigger] self.slot(p)).sequence == p by {
                    lemma_mod_division_less_than_divisor(p, cap as int);
                    if p == oldq.dequeue_pos + cap {
                        lemma_mod_add_multiples_vanish(pos as int, cap as int);
                        assert(p % cap as int == idx as int);
                    } else {
                        if p % cap as int == idx as int {
                            lemma_same_slot_same_lap(pos as int, p, cap as int);
                        }
                        assert(self.slot(p) == oldq.slot(p));
                    }
                }
                assert(node.value == oldq.slot(pos as int).value);
                assert(oldq@[0] == oldq.slot(pos as int).value->Some_0);
                assert(self@ =~= oldq@.subrange(1, oldq@.len() as int));
            }
            node.value
        } else {
            proof {
                // A nonempty queue stores the oldest pending item here, with
                // counter `pos + 1`.
                if self.dequeue_pos < self.enqueue_pos {
                    assert(self.slot(pos as int).sequence == pos + 1);
                    assert(false);
                }
            }
            None
        }
    }
}

/// The cursors never cross and never run more than one ring apart: in every
/// well-formed queue state, `dequeue_cursor <= enqueue_cursor` and
/// `enqueue_cursor - dequeue_cursor <= capacity`; the pending items are
/// exactly the positions between the cursors.
pub proof fn lemma_cursor_bounds<T>(q: Queue<T>)
    requires
        q.wf(),
    ensures
        q.dequeue_cursor() <= q.enqueue_cursor(),
        q.enqueue_cursor() - q.dequeue_cursor() <= q.capacity(),
        q@.len() == q.enqueue_cursor() - q.dequeue_cursor(),
{
}

} // verus!
