//! Sums over stored records, used to account for reserved funds: at all
//! times, an account's reserved balance is exactly the price of its live
//! bids plus the amounts of its live stakes.

use vstd::prelude::*;
use crate::types::{Bid, Vote};

verus! {

/// The sum of `f` over the elements of `s`.
pub open spec fn seq_sum<T>(s: Seq<T>, f: spec_fn(T) -> int) -> int
    decreases s.len(),
{
    if s.len() == 0 {
        0
    } else {
        f(s[0]) + seq_sum(s.skip(1), f)
    }
}

/// Appending an element adds its contribution.
pub proof fn lemma_seq_sum_push<T>(s: Seq<T>, f: spec_fn(T) -> int, x: T)
    ensures
        seq_sum(s.push(x), f) == seq_sum(s, f) + f(x),
    decreases s.len(),
{
    reveal_with_fuel(seq_sum, 2);
    if s.len() == 0 {
        assert(s.push(x)[0] == x);
        assert(s.push(x).skip(1) =~= Seq::<T>::empty());
    } else {
        assert(s.push(x)[0] == s[0]);
        assert(s.push(x).skip(1) =~= s.skip(1).push(x));
        lemma_seq_sum_push(s.skip(1), f, x);
    }
}

/// Removing the element at index `i` subtracts its contribution.
pub proof fn lemma_seq_sum_remove<T>(s: Seq<T>, f: spec_fn(T) -> int, i: int)
    requires
        0 <= i < s.len(),
    ensures
        seq_sum(s.remove(i), f) == seq_sum(s, f) - f(s[i]),
    decreases s.len(),
{
    s.remove_ensures(i);
    if i == 0 {
        assert(s.remove(0) =~= s.skip(1));
    } else {
        assert(s.remove(i).skip(1) =~= s.skip(1).remove(i - 1));
        lemma_seq_sum_remove(s.skip(1), f, i - 1);
    }
}

/// The sum over the tail from `i` is the element at `i` plus the sum over
/// the tail from `i + 1`.
pub proof fn lemma_seq_sum_skip_step<T>(s: Seq<T>, f: spec_fn(T) -> int, i: int)
    requires
        0 <= i < s.len(),
    ensures
        seq_sum(s.skip(i), f) == f(s[i]) + seq_sum(s.skip(i + 1), f),
{
    assert(s.skip(i)[0] == s[i]);
    assert(s.skip(i).skip(1) =~= s.skip(i + 1));
}

/// The sum over the prefix of length `i + 1` is the sum over the prefix of
/// length `i` plus the element at `i`.
pub proof fn lemma_seq_sum_take_step<T>(s: Seq<T>, f: spec_fn(T) -> int, i: int)
    requires
        0 <= i < s.len(),
    ensures
        seq_sum(s.take(i + 1), f) == seq_sum(s.take(i), f) + f(s[i]),
{
    assert(s.take(i + 1) =~= s.take(i).push(s[i]));
    lemma_seq_sum_push(s.take(i), f, s[i]);
}

/// A sum of non-negative contributions is non-negative.
pub proof fn lemma_seq_sum_nonneg<T>(s: Seq<T>, f: spec_fn(T) -> int)
    requires
        forall|t: T| #[trigger] f(t) >= 0,
    ensures
        seq_sum(s, f) >= 0,
    decreases s.len(),
{
    if s.len() > 0 {
        lemma_seq_sum_nonneg(s.skip(1), f);
    }
}

/// With non-negative contributions, the sum dominates each element's.
pub proof fn lemma_seq_sum_ge_elem<T>(s: Seq<T>, f: spec_fn(T) -> int, i: int)
    requires
        forall|t: T| #[trigger] f(t) >= 0,
        0 <= i < s.len(),
    ensures
        seq_sum(s, f) >= f(s[i]),
{
    lemma_seq_sum_remove(s, f, i);
    lemma_seq_sum_nonneg(s.remove(i), f);
}

/// Pointwise-dominated contributions give a dominated sum.
pub proof fn lemma_seq_sum_le<T>(s: Seq<T>, f: spec_fn(T) -> int, g: spec_fn(T) -> int)
    requires
        forall|t: T| #[trigger] f(t) <= #[trigger] g(t),
    ensures
        seq_sum(s, f) <= seq_sum(s, g),
    decreases s.len(),
{
    if s.len() > 0 {
        lemma_seq_sum_le(s.skip(1), f, g);
    }
}

/// What a live bid entry contributes to account `a`'s reserved funds.
pub open spec fn bid_contrib(a: u64) -> spec_fn((u64, Bid)) -> int {
    |p: (u64, Bid)| if p.1.owner == a { p.1.price as int } else { 0 }
}

/// The reserved funds that the live bids owe to account `a`.
pub open spec fn bids_locked(s: Seq<(u64, Bid)>, a: u64) -> int {
    seq_sum(s, bid_contrib(a))
}

/// What a live stake contributes to account `a`'s reserved funds.
pub open spec fn vote_contrib(a: u64) -> spec_fn(Vote) -> int {
    |v: Vote| if v.owner == a { v.amount as int } else { 0 }
}

/// The reserved funds that the live stakes owe to account `a`.
pub open spec fn votes_locked(s: Seq<Vote>, a: u64) -> int {
    seq_sum(s, vote_contrib(a))
}

/// What a stake on order `order_id` contributes to the refund owed to
/// account `a` when that order terminates.
pub open spec fn refund_contrib(order_id: u64, a: u64) -> spec_fn(Vote) -> int {
    |v: Vote| if v.order_id == order_id && v.owner == a { v.amount as int } else { 0 }
}

/// The principal refunded to account `a` when order `order_id` terminates:
/// the sum of the amounts of `a`'s stakes on that order.
pub open spec fn votes_refund(s: Seq<Vote>, order_id: u64, a: u64) -> int {
    seq_sum(s, refund_contrib(order_id, a))
}

/// Selects the stakes on order `order_id`.
pub open spec fn on_order(order_id: u64) -> spec_fn(Vote) -> bool {
    |v: Vote| v.order_id == order_id
}

/// Selects the stakes on every other order.
pub open spec fn off_order(order_id: u64) -> spec_fn(Vote) -> bool {
    |v: Vote| v.order_id != order_id
}

/// Dropping an order's stakes takes exactly that order's refunds out of
/// the locked total, for every account.
pub proof fn lemma_votes_locked_filter(s: Seq<Vote>, order_id: u64, a: u64)
    ensures
        votes_locked(s.filter(off_order(order_id)), a) == votes_locked(s, a) - votes_refund(
            s,
            order_id,
            a,
        ),
    decreases s.len(),
{
    reveal_with_fuel(Seq::filter, 2);
    if s.len() == 0 {
    } else {
        let dl = s.drop_last();
        let x = s.last();
        lemma_votes_locked_filter(dl, order_id, a);
        assert(dl.push(x) =~= s);
        lemma_seq_sum_push(dl, vote_contrib(a), x);
        lemma_seq_sum_push(dl, refund_contrib(order_id, a), x);
        if off_order(order_id)(x) {
            lemma_seq_sum_push(dl.filter(off_order(order_id)), vote_contrib(a), x);
        }
    }
}

/// Every element of a filtered sequence is an element of the original
/// that satisfies the predicate.
pub proof fn lemma_filter_elem<A>(s: Seq<A>, pred: spec_fn(A) -> bool, i: int)
    requires
        0 <= i < s.filter(pred).len(),
    ensures
        s.contains(s.filter(pred)[i]),
        pred(s.filter(pred)[i]),
    decreases s.len(),
{
    reveal_with_fuel(Seq::filter, 2);
    if s.len() > 0 {
        let f = s.filter(pred);
        let sub = s.drop_last().filter(pred);
        if pred(s.last()) && i == f.len() - 1 {
            assert(f[i] == s.last());
            assert(s[s.len() - 1] == s.last());
        } else {
            lemma_filter_elem(s.drop_last(), pred, i);
            let j = choose|j: int|
                0 <= j < s.drop_last().len() && s.drop_last()[j] == #[trigger] s.drop_last()[j]
                    && s.drop_last()[j] == sub[i];
            assert(s.drop_last().contains(sub[i]));
            let k = choose|k: int| 0 <= k < s.drop_last().len() && s.drop_last()[k] == sub[i];
            assert(s[k] == sub[i]);
        }
    }
}

} // verus!
