use crate::ring::{pop_model, push_model};
use vstd::prelude::*;

verus! {

/// Contents after pushing each record of `xs` in turn, or `None` as soon as a
/// push is refused.
pub open spec fn push_all<T>(v: Seq<T>, capacity: nat, xs: Seq<T>) -> Option<Seq<T>>
    decreases xs.len(),
{
    if xs.len() == 0 {
        Some(v)
    } else {
        match push_model(v, capacity, xs[0]) {
            None => None,
            Some(w) => push_all(w, capacity, xs.drop_first()),
        }
    }
}

/// The records handed out by `n` pops in turn and the contents left, or `None`
/// when one of them finds the ring empty.
pub open spec fn pop_n<T>(v: Seq<T>, n: nat) -> Option<(Seq<T>, Seq<T>)>
    decreases n,
{
    if n == 0 {
        Some((Seq::empty(), v))
    } else {
        match pop_model(v) {
            None => None,
            Some((x, w)) => match pop_n(w, (n - 1) as nat) {
                None => None,
                Some((ys, rest)) => Some((seq![x] + ys, rest)),
            },
        }
    }
}

/// Contents after a push of each record of `xs`, each followed at once by a
/// pop, or `None` when a push is refused or a pop finds the ring empty.
pub open spec fn alternate<T>(v: Seq<T>, capacity: nat, xs: Seq<T>) -> Option<Seq<T>>
    decreases xs.len(),
{
    if xs.len() == 0 {
        Some(v)
    } else {
        match push_model(v, capacity, xs[0]) {
            None => None,
            Some(w) => match pop_model(w) {
                None => None,
                Some((_, u)) => alternate(u, capacity, xs.drop_first()),
            },
        }
    }
}

/// Pushes that stay within the capacity are all accepted and append in order.
pub proof fn lemma_push_all_appends<T>(v: Seq<T>, capacity: nat, xs: Seq<T>)
    requires
        v.len() + xs.len() <= capacity,
    ensures
        push_all(v, capacity, xs) == Some(v + xs),
    decreases xs.len(),
{
    if xs.len() == 0 {
        assert(v + xs =~= v);
    } else {
        lemma_push_all_appends(v.push(xs[0]), capacity, xs.drop_first());
        assert(v.push(xs[0]) + xs.drop_first() =~= v + xs);
    }
}

/// `n` pops of a ring that holds at least `n` records hand out its first `n`
/// records, front first, and leave the rest.
pub proof fn lemma_pop_n_takes_front<T>(v: Seq<T>, n: nat)
    requires
        n <= v.len(),
    ensures
        pop_n(v, n) == Some((v.take(n as int), v.skip(n as int))),
    decreases n,
{
    if n == 0 {
        assert(v.take(0) =~= Seq::<T>::empty());
        assert(v.skip(0) =~= v);
    } else {
        lemma_pop_n_takes_front(v.drop_first(), (n - 1) as nat);
        assert(seq![v[0]] + v.drop_first().take(n - 1) =~= v.take(n as int));
        assert(v.drop_first().skip(n - 1) =~= v.skip(n as int));
    }
}

/// A fresh ring of capacity `c >= 1` is empty: a pop finds nothing. It accepts
/// `c` pushes in a row, and the push after them is refused.
pub proof fn lemma_fresh_ring_capacity<T>(c: nat, xs: Seq<T>, extra: T)
    requires
        c >= 1,
        xs.len() == c,
    ensures
        pop_model(Seq::<T>::empty()) is None,
        push_all(Seq::<T>::empty(), c, xs) == Some(xs),
        push_model(xs, c, extra) is None,
{
    lemma_push_all_appends(Seq::<T>::empty(), c, xs);
    assert(Seq::<T>::empty() + xs =~= xs);
}

/// Pushing `n <= c` records into a fresh ring and then popping `n` times hands
/// the same records back in the same order, and leaves the ring empty.
pub proof fn lemma_round_trip<T>(c: nat, xs: Seq<T>)
    requires
        xs.len() <= c,
    ensures
        push_all(Seq::<T>::empty(), c, xs) == Some(xs),
        pop_n(xs, xs.len()) == Some((xs, Seq::<T>::empty())),
{
    lemma_push_all_appends(Seq::<T>::empty(), c, xs);
    assert(Seq::<T>::empty() + xs =~= xs);
    lemma_pop_n_takes_front(xs, xs.len());
    assert(xs.take(xs.len() as int) =~= xs);
    assert(xs.skip(xs.len() as int) =~= Seq::<T>::empty());
}

/// Pushes and pops in strict alternation leave an empty ring of capacity
/// `c >= 1` empty, whatever their number.
pub proof fn lemma_alternate_keeps_empty<T>(c: nat, xs: Seq<T>)
    requires
        c >= 1,
    ensures
        alternate(Seq::<T>::empty(), c, xs) == Some(Seq::<T>::empty()),
    decreases xs.len(),
{
    if xs.len() > 0 {
        let w = Seq::<T>::empty().push(xs[0]);
        assert(w.drop_first() =~= Seq::<T>::empty());
        lemma_alternate_keeps_empty(c, xs.drop_first());
    }
}

/// After `k * c` push / pop pairs in strict alternation, a fresh ring of
/// capacity `c >= 1` is empty again and accepts a further push.
pub proof fn lemma_wraparound<T>(c: nat, k: nat, xs: Seq<T>, next: T)
    requires
        c >= 1,
        xs.len() == k * c,
    ensures
        alternate(Seq::<T>::empty(), c, xs) == Some(Seq::<T>::empty()),
        push_model(Seq::<T>::empty(), c, next) == Some(seq![next]),
{
    lemma_alternate_keeps_empty(c, xs);
    assert(Seq::<T>::empty().push(next) =~= seq![next]);
}

} // verus!
