//! The round-robin merge.
//!
//! `round_robin` is the specification: repeatedly, for as long as any batch
//! still has elements, take the next element of every non-exhausted batch,
//! in batch order; batches that run out simply drop out of later rounds.
//! `interleave` computes it.

use vstd::prelude::*;

verus! {

/// The elements that round `r` takes: element `r` of every batch that
/// still has one, in batch order.
pub open spec fn round<T>(batches: Seq<Seq<T>>, r: int) -> Seq<T>
    decreases batches.len(),
{
    if batches.len() == 0 {
        Seq::empty()
    } else {
        let head: Seq<T> = if batches.first().len() > r {
            seq![batches.first()[r]]
        } else {
            Seq::empty()
        };
        head + round(batches.drop_first(), r)
    }
}

/// The length of the longest batch: the number of rounds.
pub open spec fn max_batch_len<T>(batches: Seq<Seq<T>>) -> nat
    decreases batches.len(),
{
    if batches.len() == 0 {
        0
    } else {
        let rest = max_batch_len(batches.drop_first());
        if batches.first().len() > rest {
            batches.first().len()
        } else {
            rest
        }
    }
}

/// The concatenation of rounds `r`, `r + 1`, ... .
pub open spec fn rounds_from<T>(batches: Seq<Seq<T>>, r: int) -> Seq<T>
    decreases max_batch_len(batches) - r,
{
    if r < 0 || max_batch_len(batches) <= r {
        Seq::empty()
    } else {
        round(batches, r) + rounds_from(batches, r + 1)
    }
}

/// The round-robin merge of the batches.
pub open spec fn round_robin<T>(batches: Seq<Seq<T>>) -> Seq<T> {
    rounds_from(batches, 0)
}

/// The total number of elements across the batches.
pub open spec fn sum_len<T>(batches: Seq<Seq<T>>) -> nat
    decreases batches.len(),
{
    if batches.len() == 0 {
        0
    } else {
        batches.first().len() + sum_len(batches.drop_first())
    }
}

/// The batch contents of a vector of vectors.
pub open spec fn vecs_view<T>(q: Seq<Vec<T>>) -> Seq<Seq<T>> {
    q.map_values(|v: Vec<T>| v@)
}

proof fn lemma_round_past_max<T>(batches: Seq<Seq<T>>, r: int)
    requires
        max_batch_len(batches) <= r,
    ensures
        round(batches, r) == Seq::<T>::empty(),
    decreases batches.len(),
{
    if batches.len() == 0 {
        assert(round(batches, r) =~= Seq::<T>::empty());
    } else {
        lemma_round_past_max(batches.drop_first(), r);
        assert(round(batches, r) =~= Seq::<T>::empty());
    }
}

proof fn lemma_round_push<T>(batches: Seq<Seq<T>>, x: Seq<T>, r: int)
    ensures
        round(batches.push(x), r) == round(batches, r) + (if x.len() > r {
            seq![x[r]]
        } else {
            Seq::<T>::empty()
        }),
    decreases batches.len(),
{
    let tail: Seq<T> = if x.len() > r {
        seq![x[r]]
    } else {
        Seq::empty()
    };
    if batches.len() == 0 {
        assert(batches.push(x).drop_first() =~= batches);
        assert(batches.push(x).first() == x);
        assert(round(batches.push(x), r) =~= round(batches, r) + tail);
    } else {
        assert(batches.push(x).drop_first() =~= batches.drop_first().push(x));
        assert(batches.push(x).first() == batches.first());
        lemma_round_push(batches.drop_first(), x, r);
        assert(round(batches.push(x), r) =~= round(batches, r) + tail);
    }
}

proof fn lemma_max_push<T>(batches: Seq<Seq<T>>, x: Seq<T>)
    ensures
        max_batch_len(batches.push(x)) == (if x.len() > max_batch_len(batches) {
            x.len()
        } else {
            max_batch_len(batches)
        }),
    decreases batches.len(),
{
    if batches.len() == 0 {
        assert(batches.push(x).drop_first() =~= batches);
        assert(batches.push(x).first() == x);
    } else {
        assert(batches.push(x).drop_first() =~= batches.drop_first().push(x));
        assert(batches.push(x).first() == batches.first());
        lemma_max_push(batches.drop_first(), x);
    }
}

proof fn lemma_sum_push<T>(batches: Seq<Seq<T>>, x: Seq<T>)
    ensures
        sum_len(batches.push(x)) == sum_len(batches) + x.len(),
    decreases batches.len(),
{
    if batches.len() == 0 {
        assert(batches.push(x).drop_first() =~= batches);
        assert(batches.push(x).first() == x);
    } else {
        assert(batches.push(x).drop_first() =~= batches.drop_first().push(x));
        assert(batches.push(x).first() == batches.first());
        lemma_sum_push(batches.drop_first(), x);
    }
}

proof fn lemma_rounds_from_drop_empty<T>(q: Seq<Seq<T>>, r: int)
    requires
        q.len() > 0,
        q.first().len() == 0,
    ensures
        rounds_from(q, r) == rounds_from(q.drop_first(), r),
    decreases max_batch_len(q) - r,
{
    assert(max_batch_len(q) == max_batch_len(q.drop_first()));
    if 0 <= r < max_batch_len(q) {
        assert(round(q, r) =~= round(q.drop_first(), r));
        lemma_rounds_from_drop_empty(q, r + 1);
        assert(rounds_from(q, r) =~= rounds_from(q.drop_first(), r));
    }
}

proof fn lemma_rf_rotate<T>(s: Seq<T>, t: Seq<Seq<T>>, r: int)
    requires
        s.len() > 0,
        r >= 1,
    ensures
        rounds_from(seq![s] + t, r) == (if s.len() > r {
            seq![s[r]]
        } else {
            Seq::<T>::empty()
        }) + rounds_from(t.push(s.drop_first()), r),
    decreases max_batch_len(seq![s] + t) - r,
{
    let q1 = seq![s] + t;
    let s2 = s.drop_first();
    let q2 = t.push(s2);
    assert(q1.first() == s);
    assert(q1.drop_first() =~= t);
    lemma_max_push(t, s2);
    let max1 = max_batch_len(q1);
    let max2 = max_batch_len(q2);
    assert(max1 == (if s.len() > max_batch_len(t) {
        s.len()
    } else {
        max_batch_len(t)
    }));
    assert(max2 <= max1);
    let head: Seq<T> = if s.len() > r {
        seq![s[r]]
    } else {
        Seq::empty()
    };
    if r < max1 {
        lemma_rf_rotate(s, t, r + 1);
        assert(round(q1, r) == head + round(t, r));
        lemma_round_push(t, s2, r);
        let head2: Seq<T> = if s2.len() > r {
            seq![s2[r]]
        } else {
            Seq::empty()
        };
        assert(s2.len() > r ==> s2[r] == s[r + 1]);
        if r < max2 {
            assert(rounds_from(q2, r) == round(t, r) + head2 + rounds_from(q2, r + 1)) by {
                assert(round(q2, r) == round(t, r) + head2);
                assert((round(t, r) + head2) + rounds_from(q2, r + 1) =~= round(t, r) + head2
                    + rounds_from(q2, r + 1));
            }
            assert(rounds_from(q1, r) =~= head + rounds_from(q2, r));
        } else {
            // everything past r in q2 is gone: t's batches and s2 are all
            // within r elements
            lemma_round_past_max(t, r);
            assert(s2.len() <= max2);
            assert(head2 =~= Seq::<T>::empty());
            assert(rounds_from(q2, r + 1) =~= Seq::<T>::empty());
            assert(rounds_from(q2, r) =~= Seq::<T>::empty());
            assert(rounds_from(q1, r) =~= head + rounds_from(q2, r));
        }
    } else {
        assert(s.len() <= max1);
        assert(head =~= Seq::<T>::empty());
        assert(rounds_from(q1, r) =~= Seq::<T>::empty());
        assert(rounds_from(q2, r) =~= Seq::<T>::empty());
        assert(rounds_from(q1, r) =~= head + rounds_from(q2, r));
    }
}

/// Taking the head element of a non-empty first batch and moving that
/// batch's remainder to the back of the queue peels exactly one element
/// off the round-robin merge.
pub proof fn lemma_round_robin_rotate<T>(s: Seq<T>, t: Seq<Seq<T>>)
    requires
        s.len() > 0,
    ensures
        round_robin(seq![s] + t) == seq![s[0]] + round_robin(t.push(s.drop_first())),
{
    let q1 = seq![s] + t;
    let s2 = s.drop_first();
    let q2 = t.push(s2);
    assert(q1.first() == s);
    assert(q1.drop_first() =~= t);
    lemma_max_push(t, s2);
    let max1 = max_batch_len(q1);
    let max2 = max_batch_len(q2);
    assert(max1 == (if s.len() > max_batch_len(t) {
        s.len()
    } else {
        max_batch_len(t)
    }));
    assert(max1 >= s.len() > 0);
    assert(round(q1, 0) == seq![s[0]] + round(t, 0));
    lemma_rf_rotate(s, t, 1);
    let head2: Seq<T> = if s2.len() > 0 {
        seq![s2[0]]
    } else {
        Seq::empty()
    };
    assert(s2.len() > 0 ==> s2[0] == s[1]);
    if 0 < max2 {
        lemma_round_push(t, s2, 0);
        assert(rounds_from(q2, 0) == round(t, 0) + head2 + rounds_from(q2, 1)) by {
            assert(round(q2, 0) == round(t, 0) + head2);
            assert((round(t, 0) + head2) + rounds_from(q2, 1) =~= round(t, 0) + head2
                + rounds_from(q2, 1));
        }
        assert(rounds_from(q1, 0) =~= seq![s[0]] + rounds_from(q2, 0));
    } else {
        lemma_round_past_max(t, 0);
        assert(s2.len() <= max2);
        assert(head2 =~= Seq::<T>::empty());
        assert(rounds_from(q2, 1) =~= Seq::<T>::empty());
        assert(rounds_from(q2, 0) =~= Seq::<T>::empty());
        assert(rounds_from(q1, 1) =~= Seq::<T>::empty());
        assert(rounds_from(q1, 0) =~= seq![s[0]] + rounds_from(q2, 0));
    }
}

/// A batch with no elements left contributes nothing: dropping it from the
/// front of the queue leaves the round-robin merge unchanged.
pub proof fn lemma_round_robin_drop_empty<T>(s: Seq<T>, t: Seq<Seq<T>>)
    requires
        s.len() == 0,
    ensures
        round_robin(seq![s] + t) == round_robin(t),
{
    let q1 = seq![s] + t;
    assert(q1.first() == s);
    assert(q1.drop_first() =~= t);
    lemma_rounds_from_drop_empty(q1, 0);
}

/// The merge loses and invents nothing: its length is the total number of
/// elements across the batches, so every element is taken exactly once.
pub proof fn lemma_round_robin_len<T>(batches: Seq<Seq<T>>)
    ensures
        round_robin(batches).len() == sum_len(batches),
    decreases sum_len(batches), batches.len(),
{
    if batches.len() == 0 {
        assert(round_robin(batches) =~= Seq::<T>::empty());
    } else {
        let s = batches.first();
        let t = batches.drop_first();
        assert(batches =~= seq![s] + t);
        assert(sum_len(batches) == s.len() + sum_len(t));
        if s.len() == 0 {
            lemma_round_robin_drop_empty(s, t);
            lemma_round_robin_len(t);
        } else {
            lemma_round_robin_rotate(s, t);
            lemma_sum_push(t, s.drop_first());
            lemma_round_robin_len(t.push(s.drop_first()));
        }
    }
}

/// A single source is replayed unchanged: the round-robin merge of one
/// batch is that batch, in its original order.
pub proof fn lemma_round_robin_single<T>(s: Seq<T>)
    ensures
        round_robin(seq![s]) == s,
    decreases s.len(),
{
    if s.len() == 0 {
        assert(max_batch_len(seq![s]) == 0) by {
            reveal_with_fuel(max_batch_len, 2);
            assert(seq![s].first() == s);
            assert(seq![s].drop_first() =~= Seq::<Seq<T>>::empty());
        }
        assert(round_robin(seq![s]) =~= s);
    } else {
        let t: Seq<Seq<T>> = Seq::empty();
        assert(seq![s] =~= seq![s] + t);
        lemma_round_robin_rotate(s, t);
        assert(t.push(s.drop_first()) =~= seq![s.drop_first()]);
        lemma_round_robin_single(s.drop_first());
        assert(seq![s[0]] + s.drop_first() =~= s);
    }
}

/// Computes the round-robin merge of the batches; the batches are consumed.
pub fn interleave<T>(batches: Vec<Vec<T>>) -> (r: Vec<T>)
    ensures
        r@ == round_robin(vecs_view(batches@)),
{
    let ghost total = round_robin(vecs_view(batches@));
    let mut queue = batches;
    let mut out: Vec<T> = Vec::new();
    while queue.len() > 0
        invariant
            out@ + round_robin(vecs_view(queue@)) == total,
        decreases sum_len(vecs_view(queue@)), queue@.len(),
    {
        let ghost q0 = vecs_view(queue@);
        let ghost out0 = out@;
        let mut front = queue.remove(0);
        let ghost s = front@;
        let ghost t = vecs_view(queue@);
        proof {
            assert(t =~= q0.drop_first());
            assert(q0 =~= seq![s] + t);
            assert(sum_len(q0) == s.len() + sum_len(t));
        }
        if front.len() > 0 {
            let m = front.remove(0);
            out.push(m);
            queue.push(front);
            proof {
                assert(front@ =~= s.drop_first());
                assert(vecs_view(queue@) =~= t.push(s.drop_first()));
                lemma_round_robin_rotate(s, t);
                assert(out@ =~= out0 + seq![s[0]]);
                assert(out@ + round_robin(vecs_view(queue@)) =~= out0 + round_robin(q0));
                lemma_sum_push(t, s.drop_first());
                assert(sum_len(vecs_view(queue@)) < sum_len(q0));
            }
        } else {
            proof {
                lemma_round_robin_drop_empty(s, t);
                assert(out@ + round_robin(vecs_view(queue@)) =~= out0 + round_robin(q0));
                assert(sum_len(vecs_view(queue@)) <= sum_len(q0));
            }
        }
    }
    proof {
        assert(vecs_view(queue@) =~= Seq::<Seq<T>>::empty());
        assert(round_robin(vecs_view(queue@)) =~= Seq::<T>::empty());
        assert(out@ =~= total);
    }
    out
}

} // verus!
