//! The capability interfaces of the ring buffer: a base capability for size,
//! capacity and clearing; bounded writing; bounded reading; and an extended
//! capability with random access, overwrite pushes and iteration. A backend
//! opts into the subset it can support; a thread-safe backend would implement
//! everything but the extended capability, whose random access into the
//! middle of the buffer needs exclusive ownership.
//!
//! Every contract speaks of two spec-level views a backend must provide: the
//! live `contents` (oldest element first) and the fixed capacity `cap`.
use vstd::prelude::*;

use crate::iter::RingBufferIterator;
use crate::model::{force_model, push_model};
use vstd::std_specs::cmp::PartialEqSpec;

verus! {

/// The base capability every ring buffer offers: its length, its capacity,
/// emptiness, fullness, and clearing. All of these are total over any
/// well-formed instance.
pub trait RingBuffer<T>: Sized {
    /// The live elements, oldest (next to be popped) first.
    spec fn contents(&self) -> Seq<T>;

    /// The fixed capacity: the largest number of live elements the backend
    /// can hold.
    spec fn cap(&self) -> nat;

    /// Well-formedness of an instance. Constructors establish it and every
    /// method preserves it.
    spec fn wf(&self) -> bool;

    /// A well-formed buffer has a positive capacity that fits the machine,
    /// and never holds more live elements than its capacity.
    proof fn lemma_wf(&self)
        requires
            self.wf(),
        ensures
            self.contents().len() <= self.cap(),
            0 < self.cap() <= usize::MAX,
    ;

    /// The number of live elements.
    fn len(&self) -> (r: usize)
        requires
            self.wf(),
        ensures
            r == self.contents().len(),
    ;

    /// The fixed capacity.
    fn capacity(&self) -> (r: usize)
        requires
            self.wf(),
        ensures
            r == self.cap(),
    ;

    /// Whether the buffer holds no live element.
    fn is_empty(&self) -> (r: bool)
        requires
            self.wf(),
        ensures
            r == (self.contents().len() == 0),
    {
        self.len() == 0
    }

    /// Whether the buffer holds as many live elements as its capacity.
    fn is_full(&self) -> (r: bool)
        requires
            self.wf(),
        ensures
            r == (self.contents().len() == self.cap()),
    {
        self.len() == self.capacity()
    }

    /// Empties the buffer: both logical positions return to their zero
    /// state, every contained element is dropped, and the capacity is kept.
    fn clear(&mut self)
        requires
            old(self).wf(),
        ensures
            final(self).wf(),
            final(self).contents() == Seq::<T>::empty(),
            final(self).cap() == old(self).cap(),
    ;
}

/// A value a buffer can take in by `push`; `get` surrenders the element.
pub trait PushValue<T>: Sized {
    /// The element this value stands for.
    spec fn element(&self) -> T;

    /// Surrenders the element.
    fn get(self) -> (r: T)
        ensures
            r == self.element(),
    ;
}

impl<T> PushValue<T> for T {
    open spec fn element(&self) -> T {
        *self
    }

    fn get(self) -> (r: T) {
        self
    }
}

/// The bounded-writing capability: a push that rejects when full.
pub trait WritableRingbuffer<T>: RingBuffer<T> {
    /// Pushes `item` onto the buffer. Succeeds, appending the item, exactly
    /// when the buffer is not full; when full it rejects, handing the item
    /// back unchanged and leaving the buffer unmodified.
    fn push(&mut self, item: T) -> (r: Result<(), T>)
        requires
            old(self).wf(),
        ensures
            final(self).wf(),
            final(self).cap() == old(self).cap(),
            final(self).contents() == push_model(old(self).contents(), old(self).cap(), item),
            r is Ok <==> old(self).contents().len() < old(self).cap(),
            r is Err ==> r->Err_0 == item,
    ;
}

/// The bounded-reading capability: dequeueing and skipping, both touching
/// only the oldest live element.
pub trait ReadableRingbuffer<T>: RingBuffer<T> {
    /// Removes the oldest live element and discards it; a no-op when empty.
    fn skip(&mut self)
        requires
            old(self).wf(),
        ensures
            final(self).wf(),
            final(self).cap() == old(self).cap(),
            old(self).contents().len() == 0 ==> final(self).contents() == old(self).contents(),
            old(self).contents().len() > 0 ==> final(self).contents() == old(self).contents().drop_first(),
    ;

    /// Removes and returns the oldest live element; `None`, with the buffer
    /// unchanged, when empty.
    fn pop(&mut self) -> (r: Option<T>)
        requires
            old(self).wf(),
        ensures
            final(self).wf(),
            final(self).cap() == old(self).cap(),
            old(self).contents().len() == 0 ==> r is None && final(self).contents() == old(self).contents(),
            old(self).contents().len() > 0 ==> r == Some(old(self).contents()[0]) && final(self).contents() == old(self).contents().drop_first(),
    ;
}

/// The extended capability: random access relative to the read end,
/// front/back access, overwrite pushes, and conversion to an owned sequence.
/// Its correctness rests entirely on the masked-indexing discipline of
/// `crate::mask`.
pub trait RingBufferExt<T>: RingBuffer<T> + WritableRingbuffer<T> + ReadableRingbuffer<T> {
    /// The element at `index`, counted from the read end: `get(0)` is the
    /// oldest live element, the one `pop` would return. Absent exactly when
    /// `index` is at or past the length.
    fn get(&self, index: usize) -> (r: Option<&T>)
        requires
            self.wf(),
        ensures
            index < self.contents().len() ==> (r matches Some(v) && *v == self.contents()[index as int]),
            index >= self.contents().len() ==> r is None,
    ;

    /// The element at `index` from the read end, mutably. Absent exactly when
    /// `index` is at or past the length; otherwise the buffer afterwards
    /// holds, at `index`, whatever the caller leaves in the reference, and is
    /// untouched everywhere else.
    fn get_mut(&mut self, index: usize) -> (r: Option<&mut T>)
        requires
            old(self).wf(),
        ensures
            final(self).wf(),
            final(self).cap() == old(self).cap(),
            final(self).contents().len() == old(self).contents().len(),
            index >= old(self).contents().len() ==> r is None && final(self).contents() == old(self).contents(),
            index < old(self).contents().len() ==> (r matches Some(m) && *m == old(self).contents()[index as int] && final(self).contents()[index as int] == *final(m) && (forall|
                j: int,
            |
                0 <= j < old(self).contents().len() && j != index ==> final(self).contents()[j]
                    == old(self).contents()[j])),
    ;

    /// The most recently written element; absent when empty.
    fn front(&self) -> (r: Option<&T>)
        requires
            self.wf(),
        ensures
            self.contents().len() == 0 ==> r is None,
            self.contents().len() > 0 ==> (r matches Some(v) && *v == self.contents().last()),
    ;

    /// The most recently written element, mutably; absent when empty. The
    /// buffer afterwards holds, at its last index, whatever the caller leaves
    /// in the reference, and is untouched everywhere else.
    fn front_mut(&mut self) -> (r: Option<&mut T>)
        requires
            old(self).wf(),
        ensures
            final(self).wf(),
            final(self).cap() == old(self).cap(),
            final(self).contents().len() == old(self).contents().len(),
            old(self).contents().len() == 0 ==> r is None && final(self).contents() == old(self).contents(),
            old(self).contents().len() > 0 ==> (r matches Some(m) && *m == old(self).contents().last() && final(self).contents().last() == *final(m) && (forall|j: int|
                0 <= j < old(self).contents().len() - 1 ==> final(self).contents()[j] == old(
                    self,
                ).contents()[j])),
    ;

    /// The oldest live element, the one `pop` would return next; absent when
    /// empty. The dual of `front`.
    fn back(&self) -> (r: Option<&T>)
        requires
            self.wf(),
        ensures
            self.contents().len() == 0 ==> r is None,
            self.contents().len() > 0 ==> (r matches Some(v) && *v == self.contents()[0]),
    {
        self.get(0)
    }

    /// The oldest live element, mutably; absent when empty. The buffer
    /// afterwards holds, at index 0, whatever the caller leaves in the
    /// reference, and is untouched everywhere else.
    fn back_mut(&mut self) -> (r: Option<&mut T>)
        requires
            old(self).wf(),
        ensures
            final(self).wf(),
            final(self).cap() == old(self).cap(),
            final(self).contents().len() == old(self).contents().len(),
            old(self).contents().len() == 0 ==> r is None && final(self).contents() == old(self).contents(),
            old(self).contents().len() > 0 ==> (r matches Some(m) && *m == old(self).contents()[0]
                && final(self).contents()[0] == *final(m) && (forall|j: int|
                1 <= j < old(self).contents().len() ==> final(self).contents()[j] == old(
                    self,
                ).contents()[j])),
    {
        self.get_mut(0)
    }

    /// Pushes unconditionally: when the buffer is full the oldest element is
    /// discarded to make room, so the push never fails and a full buffer
    /// keeps its length.
    fn push_force(&mut self, value: T)
        requires
            old(self).wf(),
        ensures
            final(self).wf(),
            final(self).cap() == old(self).cap(),
            final(self).contents() == force_model(old(self).contents(), old(self).cap(), value),
    ;

    /// Whether some live element equals `elem`, by a linear scan from the
    /// read end.
    fn contains(&self, elem: &T) -> (r: bool) where T: PartialEq
        requires
            self.wf(),
        ensures
            T::obeys_eq_spec() ==> r == (exists|i: int|
                0 <= i < self.contents().len() && self.contents()[i].eq_spec(elem)),
    {
        let n = self.len();
        let mut i: usize = 0;
        while i < n
            invariant
                self.wf(),
                n == self.contents().len(),
                0 <= i <= n,
                T::obeys_eq_spec() ==> forall|j: int|
                    0 <= j < i ==> !self.contents()[j].eq_spec(elem),
            decreases n - i,
        {
            match self.get(i) {
                Some(v) => {
                    if v.eq(elem) {
                        return true;
                    }
                },
                None => {
                    proof {
                        assert(false);
                    }
                },
            }
            i = i + 1;
        }
        false
    }

    /// The element at `index` from the read end, for callers that have
    /// already ruled the index in range: the indexing-operator form of `get`,
    /// partial where `get` returns absence.
    fn idx(&self, index: usize) -> (r: &T)
        requires
            self.wf(),
            index < self.contents().len(),
        ensures
            *r == self.contents()[index as int],
    {
        match self.get(index) {
            Some(v) => v,
            None => vstd::pervasive::unreached(),
        }
    }

    /// A read-only traversal of the buffer, from the back (the oldest
    /// element) to the front.
    fn iter<'a>(&'a self) -> (it: RingBufferIterator<'a, T, Self>)
        requires
            self.wf(),
        ensures
            it.target() == *self,
            it.pos() == 0,
    {
        RingBufferIterator::new(self)
    }

    /// Copies the live elements, oldest first, into an owned vector: the
    /// iteration order as a sequence.
    fn to_vec(&self) -> (r: Vec<T>) where T: Copy
        requires
            self.wf(),
        ensures
            r@ == self.contents(),
    {
        let n = self.len();
        let mut out: Vec<T> = Vec::new();
        let mut i: usize = 0;
        while i < n
            invariant
                self.wf(),
                n == self.contents().len(),
                0 <= i <= n,
                out@ == self.contents().take(i as int),
            decreases n - i,
        {
            match self.get(i) {
                Some(v) => {
                    out.push(*v);
                },
                None => {
                    proof {
                        assert(false);
                    }
                },
            }
            proof {
                assert(self.contents().take(i as int).push(self.contents()[i as int])
                    =~= self.contents().take(i + 1 as int));
            }
            i = i + 1;
        }
        proof {
            assert(self.contents().take(n as int) =~= self.contents());
        }
        out
    }
}

/// The combination of the base, writing and reading capabilities; what a
/// thread-safe backend would offer. Implemented for free by everything that
/// has the three.
pub trait ReadWriteRingbuffer<T>: RingBuffer<T> + WritableRingbuffer<T> + ReadableRingbuffer<
    T,
> {

}

impl<S, T> ReadWriteRingbuffer<T> for S where
    S: RingBuffer<T> + ReadableRingbuffer<T> + WritableRingbuffer<T>,
 {

}

} // verus!
