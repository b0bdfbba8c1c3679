//! Sequence models of the two push disciplines, and the laws that every
//! backend inherits through the contracts of `push`, `push_force` and `pop`:
//! bounded pushes within capacity come back out first-in first-out, and
//! overwrite pushes keep exactly the latest `cap` elements.
use vstd::prelude::*;

verus! {

/// What one bounded `push` does to the live contents: appends when there is
/// room, rejects (leaves the contents alone) when full.
pub open spec fn push_model<T>(s: Seq<T>, cap: nat, x: T) -> Seq<T> {
    if s.len() < cap {
        s.push(x)
    } else {
        s
    }
}

/// What one overwrite `push_force` does to the live contents: appends when
/// there is room, otherwise discards the oldest element to make room.
pub open spec fn force_model<T>(s: Seq<T>, cap: nat, x: T) -> Seq<T> {
    if s.len() < cap {
        s.push(x)
    } else {
        s.drop_first().push(x)
    }
}

/// The contents after bounded-pushing every element of `q` in order.
pub open spec fn push_all<T>(s: Seq<T>, cap: nat, q: Seq<T>) -> Seq<T>
    decreases q.len(),
{
    if q.len() == 0 {
        s
    } else {
        push_all(push_model(s, cap, q[0]), cap, q.drop_first())
    }
}

/// The contents after overwrite-pushing every element of `q` in order.
pub open spec fn force_all<T>(s: Seq<T>, cap: nat, q: Seq<T>) -> Seq<T>
    decreases q.len(),
{
    if q.len() == 0 {
        s
    } else {
        force_all(force_model(s, cap, q[0]), cap, q.drop_first())
    }
}

/// Bounded pushes that fit entirely within the remaining room all succeed and
/// append in order.
pub proof fn lemma_push_all_fits<T>(s: Seq<T>, cap: nat, q: Seq<T>)
    requires
        s.len() + q.len() <= cap,
    ensures
        push_all(s, cap, q) == s + q,
    decreases q.len(),
{
    if q.len() == 0 {
        assert(s + q =~= s);
    } else {
        assert(push_model(s, cap, q[0]) == s.push(q[0]));
        lemma_push_all_fits(s.push(q[0]), cap, q.drop_first());
        assert(s.push(q[0]) + q.drop_first() =~= s + q);
    }
}

/// First-in first-out: a sequence of bounded pushes that does not exceed the
/// capacity, applied to an empty buffer, all succeed, leaves the length equal
/// to the number of pushes, and leaves exactly the pushed elements in push
/// order — so `pop`, which always removes the first element of the contents,
/// returns them in the order they were pushed.
pub proof fn lemma_fifo<T>(cap: nat, q: Seq<T>)
    requires
        q.len() <= cap,
    ensures
        push_all(Seq::<T>::empty(), cap, q) == q,
        push_all(Seq::<T>::empty(), cap, q).len() == q.len(),
{
    lemma_push_all_fits(Seq::<T>::empty(), cap, q);
    assert(Seq::<T>::empty() + q =~= q);
}

/// Overwrite pushes keep the latest elements: starting from a buffer that is
/// within capacity, after force-pushing `q` the contents are exactly the last
/// `min(cap, |s| + |q|)` elements of the old contents followed by `q`.
pub proof fn lemma_force_all_keeps_latest<T>(s: Seq<T>, cap: nat, q: Seq<T>)
    requires
        0 < cap,
        s.len() <= cap,
    ensures
        force_all(s, cap, q) == (s + q).subrange(
            if s.len() + q.len() <= cap {
                0
            } else {
                s.len() + q.len() - cap
            },
            (s.len() + q.len()) as int,
        ),
    decreases q.len(),
{
    if q.len() == 0 {
        assert((s + q).subrange(0, s.len() as int) =~= s);
    } else {
        let s1 = force_model(s, cap, q[0]);
        assert(s1.len() <= cap);
        lemma_force_all_keeps_latest(s1, cap, q.drop_first());
        let lo = if s.len() + q.len() <= cap {
            0
        } else {
            s.len() + q.len() - cap
        };
        let lo1 = if s1.len() + q.drop_first().len() <= cap {
            0
        } else {
            s1.len() + q.drop_first().len() - cap
        };
        assert((s1 + q.drop_first()).subrange(lo1, (s1.len() + q.drop_first().len()) as int) =~= (s
            + q).subrange(lo, (s.len() + q.len()) as int));
    }
}

/// The overwrite law: pushing at least `cap` elements through `push_force`
/// leaves the buffer full, holding exactly the last `cap` pushed elements in
/// push order, whatever it held before.
pub proof fn lemma_overwrite<T>(s: Seq<T>, cap: nat, q: Seq<T>)
    requires
        0 < cap,
        s.len() <= cap,
        q.len() >= cap,
    ensures
        force_all(s, cap, q) == q.subrange(q.len() - cap, q.len() as int),
        force_all(s, cap, q).len() == cap,
    decreases q.len(),
{
    lemma_force_all_keeps_latest(s, cap, q);
    assert((s + q).subrange(s.len() + q.len() - cap, (s.len() + q.len()) as int) =~= q.subrange(
        q.len() - cap,
        q.len() as int,
    ));
}

/// Round trip: the contents of any buffer (always within capacity) pushed
/// back in order into an empty buffer of the same capacity rebuild the same
/// contents; converting to an owned sequence and rebuilding is the identity.
pub proof fn lemma_round_trip<T>(cap: nat, s: Seq<T>)
    requires
        s.len() <= cap,
    ensures
        push_all(Seq::<T>::empty(), cap, s) == s,
{
    lemma_fifo(cap, s);
}

} // verus!
