//! A heap-allocated backend: a growable vector of slots of fixed capacity,
//! addressed through the masked-indexing discipline of `crate::mask`.
//!
//! The backend keeps two logical positions, `readptr` and `writeptr`, that
//! only grow: an element is written at the slot `slot(writeptr, cap)` and the
//! oldest live element sits at `slot(readptr, cap)`. The store itself is a
//! vector of `Option` slots that grows on first use up to the capacity and is
//! never reallocated afterwards; a popped slot is emptied so the element is
//! dropped at once. The one concession to the machine is renormalisation:
//! when `writeptr` reaches the top of `usize`, both positions are shifted
//! down by the same multiple of the capacity, which no slot can observe.
use vstd::prelude::*;

use crate::mask::{
    lemma_slot_decompose, lemma_slot_in_range, lemma_slot_injective, lemma_slot_shift,
    lemma_slot_small, masked_slot, slot,
};
use crate::ringbuffer_trait::{
    ReadableRingbuffer, RingBuffer, RingBufferExt, WritableRingbuffer,
};

verus! {

/// The capacity a default-constructed buffer gets.
pub const ALLOC_RINGBUFFER_DEFAULT_CAPACITY: usize = 1024;

/// A ring buffer over a heap-allocated store, with a capacity chosen at
/// construction.
pub struct AllocRingBuffer<T> {
    buf: Vec<Option<T>>,
    cap: usize,
    readptr: usize,
    writeptr: usize,
}

impl<T> AllocRingBuffer<T> {
    /// An empty buffer that can hold `capacity` elements. The capacity must
    /// be positive and leave the logical positions headroom in `usize`.
    pub fn with_capacity(capacity: usize) -> (r: Self)
        requires
            0 < capacity <= usize::MAX / 2,
        ensures
            r.wf(),
            r.contents() == Seq::<T>::empty(),
            r.cap() == capacity,
    {
        let r = AllocRingBuffer { buf: Vec::new(), cap: capacity, readptr: 0, writeptr: 0 };
        proof {
            assert(r.contents() =~= Seq::<T>::empty());
        }
        r
    }

    /// Builds a buffer of capacity `capacity` by bounded-pushing the elements
    /// of `items` in order: once the buffer is full the remaining elements
    /// are rejected and dropped, so the buffer keeps the first `capacity`
    /// elements.
    pub fn from_vec(capacity: usize, items: Vec<T>) -> (r: Self)
        requires
            0 < capacity <= usize::MAX / 2,
        ensures
            r.wf(),
            r.cap() == capacity,
            r.contents() == if items@.len() <= capacity {
                items@
            } else {
                items@.subrange(0, capacity as int)
            },
    {
        let ghost all = items@;
        let mut rest = items;
        let mut r = Self::with_capacity(capacity);
        while rest.len() > 0
            invariant
                r.wf(),
                r.cap() == capacity,
                0 < capacity,
                rest@.len() <= all.len(),
                rest@ == all.subrange(all.len() - rest@.len(), all.len() as int),
                r.contents() == if all.len() - rest@.len() <= capacity {
                    all.subrange(0, all.len() - rest@.len())
                } else {
                    all.subrange(0, capacity as int)
                },
            decreases rest@.len(),
        {
            let ghost done = all.len() - rest@.len();
            let x = rest.remove(0);
            assert(x == all[done]);
            let _ = r.push(x);
            proof {
                assert(rest@ =~= all.subrange(all.len() - rest@.len(), all.len() as int));
                if done + 1 <= capacity {
                    assert(r.contents() =~= all.subrange(0, done + 1));
                } else {
                    assert(r.contents() == if done <= capacity {
                        all.subrange(0, done as int)
                    } else {
                        all.subrange(0, capacity as int)
                    });
                    assert(r.contents() =~= all.subrange(0, capacity as int));
                }
            }
        }
        proof {
            assert(all.subrange(0, all.len() as int) =~= all);
        }
        r
    }

    /// Shifts both logical positions down by the same multiple of the
    /// capacity, freeing headroom at the top of `usize` without moving any
    /// element. Invisible through every public contract.
    fn renormalize(&mut self)
        requires
            old(self).wf(),
        ensures
            final(self).wf(),
            final(self).cap() == old(self).cap(),
            final(self).contents() == old(self).contents(),
            final(self).writeptr < usize::MAX,
    {
        proof {
            lemma_slot_decompose(self.readptr as int, self.cap as int);
            if self.readptr < self.cap {
                lemma_slot_small(self.readptr as int, self.cap as int);
            }
        }
        let low = self.readptr % self.cap;
        let shift = self.readptr - low;
        self.readptr = low;
        self.writeptr = self.writeptr - shift;
        proof {
            let c = self.cap as int;
            let q = (old(self).readptr as int) / c;
            assert(shift == c * q);
            assert forall|i: int| #![trigger slot(i, c)]
                self.readptr <= i < self.writeptr implies slot(i, c) == slot(i + shift, c)
                && (self.buf@[slot(i, c)] is Some) by {
                lemma_slot_shift(i + shift, q, c);
                assert(old(self).readptr <= i + shift < old(self).writeptr);
            }
            assert(self.contents() =~= old(self).contents());
        }
    }

    /// Writes `value` at the write position and advances it: the shared tail
    /// of both push disciplines, usable exactly when there is room.
    fn write_slot(&mut self, value: T)
        requires
            old(self).wf(),
            old(self).contents().len() < old(self).cap(),
            old(self).writeptr < usize::MAX,
        ensures
            final(self).wf(),
            final(self).cap() == old(self).cap(),
            final(self).contents() == old(self).contents().push(value),
    {
        let c = self.cap;
        let masked = masked_slot(self.writeptr, c);
        if self.buf.len() < c {
            proof {
                lemma_slot_small(self.writeptr as int, c as int);
            }
            self.buf.push(Some(value));
        } else {
            self.buf[masked] = Some(value);
        }
        self.writeptr = self.writeptr + 1;
        proof {
            let ci = c as int;
            let r0 = self.readptr as int;
            let w0 = old(self).writeptr as int;
            lemma_slot_in_range(w0, ci);
            if old(self).buf.len() < old(self).cap {
                lemma_slot_small(w0, ci);
            }
            assert forall|i: int| #![trigger slot(i, ci)]
                r0 <= i < w0 implies 0 <= slot(i, ci) < self.buf@.len() && slot(i, ci) != slot(
                w0,
                ci,
            ) && self.buf@[slot(i, ci)] == old(self).buf@[slot(i, ci)] by {
                lemma_slot_in_range(i, ci);
                if old(self).buf.len() < old(self).cap {
                    lemma_slot_small(i, ci);
                }
                if slot(i, ci) == slot(w0, ci) {
                    lemma_slot_injective(i, w0, ci);
                }
            }
            assert(self.buf@[slot(w0, ci)] == Some(value));
            assert forall|i: int| r0 <= i < self.writeptr implies (#[trigger] self.buf@[slot(
                i,
                ci,
            )]) is Some by {
                if i < w0 {
                    assert(old(self).buf@[slot(i, ci)] is Some);
                } else {
                    assert(slot(w0, ci) == slot(i, ci));
                }
            }
            assert(self.contents() =~= old(self).contents().push(value));
        }
    }
}

impl<T> RingBuffer<T> for AllocRingBuffer<T> {
    closed spec fn contents(&self) -> Seq<T> {
        Seq::new(
            (self.writeptr - self.readptr) as nat,
            |i: int| self.buf@[slot(self.readptr + i, self.cap as int)]->Some_0,
        )
    }

    closed spec fn cap(&self) -> nat {
        self.cap as nat
    }

    closed spec fn wf(&self) -> bool {
        &&& 0 < self.cap <= usize::MAX / 2
        &&& self.readptr <= self.writeptr
        &&& self.writeptr - self.readptr <= self.cap
        &&& (self.buf.len() == self.cap || (self.buf.len() == self.writeptr && self.writeptr
            < self.cap))
        &&& forall|i: int|
            self.readptr <= i < self.writeptr ==> (#[trigger] self.buf@[slot(
                i,
                self.cap as int,
            )]) is Some
    }

    proof fn lemma_wf(&self) {
    }

    fn len(&self) -> (r: usize) {
        self.writeptr - self.readptr
    }

    fn capacity(&self) -> (r: usize) {
        self.cap
    }

    fn clear(&mut self) {
        self.buf.clear();
        self.readptr = 0;
        self.writeptr = 0;
        proof {
            assert(self.contents() =~= Seq::<T>::empty());
        }
    }
}

impl<T> WritableRingbuffer<T> for AllocRingBuffer<T> {
    fn push(&mut self, item: T) -> (r: Result<(), T>) {
        if self.writeptr - self.readptr == self.cap {
            Err(item)
        } else {
            if self.writeptr == usize::MAX {
                self.renormalize();
            }
            self.write_slot(item);
            Ok(())
        }
    }
}

impl<T> ReadableRingbuffer<T> for AllocRingBuffer<T> {
    fn skip(&mut self) {
        if self.writeptr > self.readptr {
            self.readptr = self.readptr + 1;
            proof {
                assert(self.contents() =~= old(self).contents().drop_first());
            }
        }
    }

    fn pop(&mut self) -> (r: Option<T>) {
        if self.writeptr == self.readptr {
            None
        } else {
            let c = self.cap;
            let masked = masked_slot(self.readptr, c);
            proof {
                let ci = c as int;
                lemma_slot_in_range(self.readptr as int, ci);
                if self.buf.len() < self.cap {
                    lemma_slot_small(self.readptr as int, ci);
                }
            }
            let taken = self.buf[masked].take();
            self.readptr = self.readptr + 1;
            proof {
                let ci = c as int;
                let r0 = old(self).readptr as int;
                assert forall|i: int| #![trigger slot(i, ci)]
                    self.readptr <= i < self.writeptr implies 0 <= slot(i, ci) < self.buf@.len()
                    && slot(i, ci) != slot(r0, ci) && self.buf@[slot(i, ci)] == old(self).buf@[slot(
                    i,
                    ci,
                )] by {
                    lemma_slot_in_range(i, ci);
                    if self.buf.len() < c {
                        lemma_slot_small(i, ci);
                    }
                    if slot(i, ci) == slot(r0, ci) {
                        lemma_slot_injective(r0, i, ci);
                    }
                }
                assert(taken == Some(old(self).contents()[0]));
                assert(self.contents() =~= old(self).contents().drop_first());
            }
            taken
        }
    }
}

impl<T> RingBufferExt<T> for AllocRingBuffer<T> {
    fn get(&self, index: usize) -> (r: Option<&T>) {
        if self.writeptr - self.readptr <= index {
            None
        } else {
            let masked = masked_slot(self.readptr + index, self.cap);
            proof {
                let ci = self.cap as int;
                if self.buf.len() < self.cap {
                    lemma_slot_small(self.readptr + index, ci);
                }
                assert(self.buf@[slot(self.readptr + index, ci)] is Some);
            }
            self.buf[masked].as_ref()
        }
    }

    fn get_mut(&mut self, index: usize) -> (r: Option<&mut T>) {
        if self.writeptr - self.readptr <= index {
            None
        } else {
            let c = self.cap;
            let pos = self.readptr + index;
            let masked = masked_slot(pos, c);
            proof {
                let ci = c as int;
                let r0 = self.readptr as int;
                if self.buf.len() < c {
                    lemma_slot_small(pos as int, ci);
                }
                assert(self.buf@[slot(pos as int, ci)] is Some);
                assert forall|i: int| #![trigger slot(i, ci)]
                    r0 <= i < self.writeptr implies 0 <= slot(i, ci) < self.buf@.len() && (i != pos
                    ==> slot(i, ci) != slot(pos as int, ci)) by {
                    lemma_slot_in_range(i, ci);
                    if self.buf.len() < c {
                        lemma_slot_small(i, ci);
                    }
                    if slot(i, ci) == slot(pos as int, ci) && i != pos {
                        if i < pos {
                            lemma_slot_injective(i, pos as int, ci);
                        } else {
                            lemma_slot_injective(pos as int, i, ci);
                        }
                    }
                }
            }
            match &mut self.buf[masked] {
                Some(m) => Some(m),
                None => {
                    proof {
                        assert(false);
                    }
                    None
                },
            }
        }
    }

    fn front(&self) -> (r: Option<&T>) {
        if self.writeptr == self.readptr {
            None
        } else {
            let masked = masked_slot(self.writeptr - 1, self.cap);
            proof {
                let ci = self.cap as int;
                if self.buf.len() < self.cap {
                    lemma_slot_small(self.writeptr - 1, ci);
                }
                assert(self.buf@[slot(self.writeptr - 1, ci)] is Some);
                assert(self.contents().last() == self.buf@[slot(self.writeptr - 1, ci)]->Some_0);
            }
            self.buf[masked].as_ref()
        }
    }

    fn front_mut(&mut self) -> (r: Option<&mut T>) {
        if self.writeptr == self.readptr {
            None
        } else {
            let n = self.writeptr - self.readptr;
            self.get_mut(n - 1)
        }
    }

    fn push_force(&mut self, value: T) {
        if self.writeptr == usize::MAX {
            self.renormalize();
        }
        if self.writeptr - self.readptr == self.cap {
            let ghost pre = *self;
            self.readptr = self.readptr + 1;
            proof {
                assert(self.contents() =~= pre.contents().drop_first());
            }
        }
        self.write_slot(value);
    }
}

impl<T> Default for AllocRingBuffer<T> {
    /// An empty buffer at the default capacity.
    fn default() -> (r: Self)
        ensures
            r.wf(),
            r.contents() == Seq::<T>::empty(),
            r.cap() == ALLOC_RINGBUFFER_DEFAULT_CAPACITY,
    {
        Self::with_capacity(ALLOC_RINGBUFFER_DEFAULT_CAPACITY)
    }
}

} // verus!
