//! Iteration over a ring buffer, built purely on the indexed accessors of the
//! extended capability: a cursor walks from the back (the oldest element,
//! index 0) to the front (the most recently written element), knowing nothing
//! of any backend's masking.
use vstd::prelude::*;

use crate::ringbuffer_trait::{RingBuffer, RingBufferExt};

verus! {

/// A read-only traversal of a borrowed ring buffer, from back to front.
pub struct RingBufferIterator<'rb, T, RB> {
    obj: &'rb RB,
    index: usize,
    marker: core::marker::PhantomData<T>,
}

impl<'rb, T, RB> RingBufferIterator<'rb, T, RB> {
    /// The buffer being traversed.
    pub closed spec fn target(&self) -> RB {
        *self.obj
    }

    /// The cursor: how many elements have been yielded.
    pub closed spec fn pos(&self) -> nat {
        self.index as nat
    }

    /// A traversal of `obj`, starting at the back.
    pub fn new(obj: &'rb RB) -> (r: Self)
        ensures
            r.target() == *obj,
            r.pos() == 0,
    {
        RingBufferIterator { obj, index: 0, marker: core::marker::PhantomData }
    }
}

impl<'rb, T, RB: RingBufferExt<T>> RingBufferIterator<'rb, T, RB> {
    /// The next element, advancing the cursor; exhausted exactly when the
    /// cursor has passed the whole contents.
    pub fn next(&mut self) -> (r: Option<&'rb T>)
        requires
            old(self).target().wf(),
        ensures
            final(self).target() == old(self).target(),
            old(self).pos() < old(self).target().contents().len() ==> (r matches Some(v) && *v
                == old(self).target().contents()[old(self).pos() as int] && final(self).pos()
                == old(self).pos() + 1),
            old(self).pos() >= old(self).target().contents().len() ==> r is None && final(self).pos() == old(self).pos(),
    {
        proof {
            self.obj.lemma_wf();
        }
        match self.obj.get(self.index) {
            Some(v) => {
                self.index = self.index + 1;
                Some(v)
            },
            None => None,
        }
    }
}

} // verus!

verus! {

/// A mutating traversal of a ring buffer, from back to front: a cursor that,
/// handed the buffer at each step, yields a mutable reference to the next
/// element. The buffer is borrowed per step rather than held, so its state
/// stays visible to the caller between steps.
pub struct RingBufferMutIterator {
    index: usize,
}

impl RingBufferMutIterator {
    /// The cursor: how many elements have been yielded.
    pub closed spec fn pos(&self) -> nat {
        self.index as nat
    }

    /// A mutating traversal starting at the back.
    pub fn new() -> (r: Self)
        ensures
            r.pos() == 0,
    {
        RingBufferMutIterator { index: 0 }
    }

    /// A mutable reference to the next element of `obj`, advancing the
    /// cursor; exhausted exactly when the cursor has passed the whole
    /// contents. The buffer afterwards holds, at the yielded index, whatever
    /// the caller leaves in the reference, and is untouched everywhere else.
    pub fn next<'a, T, RB: RingBufferExt<T>>(&mut self, obj: &'a mut RB) -> (r: Option<&'a mut T>)
        requires
            old(obj).wf(),
        ensures
            final(obj).wf(),
            final(obj).cap() == old(obj).cap(),
            final(obj).contents().len() == old(obj).contents().len(),
            old(self).pos() >= old(obj).contents().len() ==> r is None && final(obj).contents()
                == old(obj).contents() && final(self).pos() == old(self).pos(),
            old(self).pos() < old(obj).contents().len() ==> (r matches Some(m) && *m == old(obj).contents()[old(self).pos() as int] && final(self).pos() == old(self).pos() + 1
                && final(obj).contents()[old(self).pos() as int] == *final(m) && (forall|j: int|
                0 <= j < old(obj).contents().len() && j != old(self).pos() ==> final(obj).contents()[j] == old(obj).contents()[j])),
    {
        proof {
            obj.lemma_wf();
        }
        match obj.get_mut(self.index) {
            Some(m) => {
                self.index = self.index + 1;
                Some(m)
            },
            None => None,
        }
    }
}

} // verus!
