//! The yield allocator: apportions a notional reward pool derived from the
//! sale price among stakers, weighted by stake size and by how much of the
//! order's window remained when each stake was committed, with returns
//! diminishing as cumulative stake grows and frozen once the marginal
//! annualized rate would drop under the configured floor rate.
//!
//! All arithmetic is fixed-point with 64 fractional bits (see
//! `fixed_point`); every step is checked, and a computation that leaves
//! the representable range is rejected as a whole.

use vstd::prelude::*;
use crate::errors::Error;
use crate::fixed_point::{
    fx_add, fx_div, fx_div_ok, fx_div_val, fx_from_u64, fx_from_val, fx_mul, fx_mul_ok, fx_mul_val,
    FX_ONE,
};
use crate::types::{Config, Vote, YieldRecord};
use vstd::arithmetic::div_mod::{lemma_div_is_ordered_by_denominator, lemma_div_pos_is_pos};
use vstd::arithmetic::mul::lemma_mul_nonnegative;

verus! {

/// The allocator's running state after some prefix of the stakes:
/// cumulative weight, current exchange rate, cumulative credit, whether
/// the rate is frozen, and the report lines so far.
pub struct AllocState {
    pub total: int,
    pub rate: int,
    pub tt: int,
    pub frozen: bool,
    pub records: Seq<YieldRecord>,
}

/// The order's span in days: `duration / day_block_num`, fixed-point.
pub open spec fn day_of(cfg: Config, duration: u64) -> int {
    fx_div_val(fx_from_val(duration), fx_from_val(cfg.day_block_num))
}

/// The reward pool ("stock"): `price * profit_rate / auction_days * 365`,
/// the per-auction profit fraction annualized over this auction's span.
pub open spec fn stock_of(cfg: Config, duration: u64, price: u64) -> int {
    fx_mul_val(
        fx_div_val(fx_mul_val(fx_from_val(price), cfg.profit_rate as int), day_of(cfg, duration)),
        fx_from_val(365),
    )
}

/// Whether the day span and reward pool stay representable.
pub open spec fn stock_ok(cfg: Config, duration: u64, price: u64) -> bool {
    &&& fx_div_ok(fx_from_val(duration), fx_from_val(cfg.day_block_num))
    &&& fx_mul_ok(fx_from_val(price), cfg.profit_rate as int)
    &&& fx_div_ok(
        fx_mul_val(fx_from_val(price), cfg.profit_rate as int),
        day_of(cfg, duration),
    )
    &&& fx_mul_ok(
        fx_div_val(fx_mul_val(fx_from_val(price), cfg.profit_rate as int), day_of(cfg, duration)),
        fx_from_val(365),
    )
}

/// One stake's step of the reward curve, or `None` when a checked
/// operation leaves the representable range or the stake's weight
/// vanishes (a violated internal invariant: stakes have positive amount
/// and were placed before expiry).
pub open spec fn alloc_step(cfg: Config, day: int, stock: int, st: AllocState, v: Vote) -> Option<
    AllocState,
> {
    let sd = fx_div_val(fx_from_val(v.keep_block_num), fx_from_val(cfg.day_block_num));
    if !fx_div_ok(fx_from_val(v.keep_block_num), fx_from_val(cfg.day_block_num)) {
        None
    } else if !fx_mul_ok(fx_from_val(v.amount), sd) {
        None
    } else {
        let w1 = fx_mul_val(fx_from_val(v.amount), sd);
        if !fx_div_ok(w1, day) {
            None
        } else {
            let w = fx_div_val(w1, day);
            if w == 0 {
                None
            } else if st.total + w > u128::MAX {
                None
            } else {
                let total2 = st.total + w;
                if !st.frozen && !(stock + total2 <= u128::MAX && fx_div_ok(
                    stock,
                    stock + total2,
                )) {
                    None
                } else {
                    let rate = if st.frozen {
                        st.rate
                    } else {
                        fx_div_val(stock, stock + total2)
                    };
                    if !fx_mul_ok(w, rate) {
                        None
                    } else {
                        let t = fx_mul_val(w, rate);
                        if st.tt + t > u128::MAX {
                            None
                        } else {
                            let tt2 = st.tt + t;
                            if tt2 != 0 && !(fx_div_ok(t, tt2) && fx_mul_ok(
                                fx_div_val(t, tt2),
                                stock,
                            ) && fx_div_ok(fx_mul_val(fx_div_val(t, tt2), stock), w)) {
                                None
                            } else {
                                let annual = if tt2 == 0 {
                                    0
                                } else {
                                    fx_div_val(fx_mul_val(fx_div_val(t, tt2), stock), w)
                                };
                                Some(
                                    AllocState {
                                        total: total2,
                                        rate,
                                        tt: tt2,
                                        frozen: st.frozen || annual < cfg.fix_rate,
                                        records: st.records.push(
                                            YieldRecord {
                                                amount: v.amount,
                                                stake_days: sd as u128,
                                                exchange_rate: rate as u128,
                                                annual_rate: annual as u128,
                                                credit: t as u128,
                                                running_credit: tt2 as u128,
                                            },
                                        ),
                                    },
                                )
                            }
                        }
                    }
                }
            }
        }
    }
}

/// The state before any stake is processed.
pub open spec fn alloc_init() -> AllocState {
    AllocState { total: 0, rate: 0, tt: 0, frozen: false, records: Seq::empty() }
}

/// The allocator's state after processing `votes` in submission order.
pub open spec fn alloc_iter(cfg: Config, day: int, stock: int, votes: Seq<Vote>) -> Option<
    AllocState,
>
    decreases votes.len(),
{
    if votes.len() == 0 {
        Some(alloc_init())
    } else {
        match alloc_iter(cfg, day, stock, votes.drop_last()) {
            None => None,
            Some(st) => alloc_step(cfg, day, stock, st, votes.last()),
        }
    }
}

/// The settlement report for clearing price `price` over `votes`, or
/// `None` when any checked step leaves the representable range.
pub open spec fn alloc_spec(cfg: Config, duration: u64, price: u64, votes: Seq<Vote>) -> Option<
    Seq<YieldRecord>,
> {
    if !stock_ok(cfg, duration, price) {
        None
    } else {
        match alloc_iter(cfg, day_of(cfg, duration), stock_of(cfg, duration, price), votes) {
            None => None,
            Some(st) => Some(st.records),
        }
    }
}

/// A failed prefix fails the whole run.
proof fn lemma_alloc_iter_none_prefix(cfg: Config, day: int, stock: int, votes: Seq<Vote>, i: int)
    requires
        0 <= i <= votes.len(),
        alloc_iter(cfg, day, stock, votes.take(i)) is None,
    ensures
        alloc_iter(cfg, day, stock, votes) is None,
    decreases votes.len() - i,
{
    if i == votes.len() {
        assert(votes.take(i) =~= votes);
    } else {
        assert(votes.take(i + 1).drop_last() =~= votes.take(i));
        lemma_alloc_iter_none_prefix(cfg, day, stock, votes, i + 1);
    }
}

/// A failed step at index `i` fails the whole run.
proof fn lemma_alloc_step_none(
    cfg: Config,
    day: int,
    stock: int,
    votes: Seq<Vote>,
    i: int,
    st: AllocState,
)
    requires
        0 <= i < votes.len(),
        alloc_iter(cfg, day, stock, votes.take(i)) == Some(st),
        alloc_step(cfg, day, stock, st, votes[i]) is None,
    ensures
        alloc_iter(cfg, day, stock, votes) is None,
{
    assert(votes.take(i + 1).drop_last() =~= votes.take(i));
    assert(votes.take(i + 1).last() == votes[i]);
    assert(alloc_iter(cfg, day, stock, votes.take(i + 1)) is None);
    lemma_alloc_iter_none_prefix(cfg, day, stock, votes, i + 1);
}

/// Compute the settlement report: the checked, executable form of
/// `alloc_spec`, rejecting with `ArithmeticOverflow` exactly when the
/// specification yields nothing.
pub fn allocate(cfg: &Config, duration: u64, price: u64, votes: &Vec<Vote>) -> (r: Result<
    Vec<YieldRecord>,
    Error,
>)
    ensures
        match r {
            Ok(report) => alloc_spec(*cfg, duration, price, votes@) == Some(report@),
            Err(e) => e == Error::ArithmeticOverflow && alloc_spec(*cfg, duration, price, votes@)
                is None,
        },
{
    let duration_fx = fx_from_u64(duration);
    let day_len_fx = fx_from_u64(cfg.day_block_num);
    let day = match fx_div(duration_fx, day_len_fx) {
        Some(d) => d,
        None => {
            return Err(Error::ArithmeticOverflow);
        },
    };
    let s1 = match fx_mul(fx_from_u64(price), cfg.profit_rate) {
        Some(v) => v,
        None => {
            return Err(Error::ArithmeticOverflow);
        },
    };
    let s2 = match fx_div(s1, day) {
        Some(v) => v,
        None => {
            return Err(Error::ArithmeticOverflow);
        },
    };
    let stock = match fx_mul(s2, fx_from_u64(365)) {
        Some(v) => v,
        None => {
            return Err(Error::ArithmeticOverflow);
        },
    };
    let ghost day_g: int = day as int;
    let ghost stock_g: int = stock as int;
    let mut total: u128 = 0;
    let mut rate: u128 = 0;
    let mut tt: u128 = 0;
    let mut frozen: bool = false;
    let mut out: Vec<YieldRecord> = Vec::new();
    let n = votes.len();
    let mut i: usize = 0;
    while i < n
        invariant
            n == votes@.len(),
            i <= n,
            stock_ok(*cfg, duration, price),
            day_g == day_of(*cfg, duration),
            stock_g == stock_of(*cfg, duration, price),
            day == day_g,
            stock == stock_g,
            day_len_fx == fx_from_val(cfg.day_block_num),
            alloc_iter(*cfg, day_g, stock_g, votes@.take(i as int)) == Some(
                AllocState {
                    total: total as int,
                    rate: rate as int,
                    tt: tt as int,
                    frozen,
                    records: out@,
                },
            ),
        decreases n - i,
    {
        let ghost st: AllocState = AllocState {
            total: total as int,
            rate: rate as int,
            tt: tt as int,
            frozen,
            records: out@,
        };
        let ghost v_g: Vote = votes@[i as int];
        proof {
            assert(votes@.take(i + 1).drop_last() =~= votes@.take(i as int));
            assert(votes@.take(i + 1).last() == votes@[i as int]);
        }
        let v = votes[i];
        let sd = match fx_div(fx_from_u64(v.keep_block_num), day_len_fx) {
            Some(x) => x,
            None => {
                proof {
                    lemma_alloc_step_none(*cfg, day_g, stock_g, votes@, i as int, st);
                }
                return Err(Error::ArithmeticOverflow);
            },
        };
        let w1 = match fx_mul(fx_from_u64(v.amount), sd) {
            Some(x) => x,
            None => {
                proof {
                    lemma_alloc_step_none(*cfg, day_g, stock_g, votes@, i as int, st);
                }
                return Err(Error::ArithmeticOverflow);
            },
        };
        let w = match fx_div(w1, day) {
            Some(x) => x,
            None => {
                proof {
                    lemma_alloc_step_none(*cfg, day_g, stock_g, votes@, i as int, st);
                }
                return Err(Error::ArithmeticOverflow);
            },
        };
        if w == 0 {
            proof {
                lemma_alloc_step_none(*cfg, day_g, stock_g, votes@, i as int, st);
            }
            return Err(Error::ArithmeticOverflow);
        }
        let total2 = match fx_add(total, w) {
            Some(x) => x,
            None => {
                proof {
                    lemma_alloc_step_none(*cfg, day_g, stock_g, votes@, i as int, st);
                }
                return Err(Error::ArithmeticOverflow);
            },
        };
        if !frozen {
            let denom = match fx_add(stock, total2) {
                Some(x) => x,
                None => {
                    proof {
                        lemma_alloc_step_none(*cfg, day_g, stock_g, votes@, i as int, st);
                    }
                    return Err(Error::ArithmeticOverflow);
                },
            };
            rate = match fx_div(stock, denom) {
                Some(x) => x,
                None => {
                    proof {
                        lemma_alloc_step_none(*cfg, day_g, stock_g, votes@, i as int, st);
                    }
                    return Err(Error::ArithmeticOverflow);
                },
            };
        }
        let t = match fx_mul(w, rate) {
            Some(x) => x,
            None => {
                proof {
                    lemma_alloc_step_none(*cfg, day_g, stock_g, votes@, i as int, st);
                }
                return Err(Error::ArithmeticOverflow);
            },
        };
        let tt2 = match fx_add(tt, t) {
            Some(x) => x,
            None => {
                proof {
                    lemma_alloc_step_none(*cfg, day_g, stock_g, votes@, i as int, st);
                }
                return Err(Error::ArithmeticOverflow);
            },
        };
        let annual: u128;
        if tt2 == 0 {
            annual = 0;
        } else {
            let q = match fx_div(t, tt2) {
                Some(x) => x,
                None => {
                    proof {
                        lemma_alloc_step_none(*cfg, day_g, stock_g, votes@, i as int, st);
                    }
                    return Err(Error::ArithmeticOverflow);
                },
            };
            let y1 = match fx_mul(q, stock) {
                Some(x) => x,
                None => {
                    proof {
                        lemma_alloc_step_none(*cfg, day_g, stock_g, votes@, i as int, st);
                    }
                    return Err(Error::ArithmeticOverflow);
                },
            };
            annual = match fx_div(y1, w) {
                Some(x) => x,
                None => {
                    proof {
                        lemma_alloc_step_none(*cfg, day_g, stock_g, votes@, i as int, st);
                    }
                    return Err(Error::ArithmeticOverflow);
                },
            };
        }
        if annual < cfg.fix_rate {
            frozen = true;
        }
        total = total2;
        tt = tt2;
        out.push(
            YieldRecord {
                amount: v.amount,
                stake_days: sd,
                exchange_rate: rate,
                annual_rate: annual,
                credit: t,
                running_credit: tt2,
            },
        );
        proof {
            let stepped = alloc_step(*cfg, day_g, stock_g, st, v_g);
            let expect = AllocState {
                total: total as int,
                rate: rate as int,
                tt: tt as int,
                frozen,
                records: out@,
            };
            assert(stepped is Some);
            let got = stepped->Some_0;
            assert(got.total == expect.total);
            assert(got.rate == expect.rate);
            assert(got.tt == expect.tt);
            assert(got.frozen == expect.frozen);
            assert(got.records == expect.records);
            assert(stepped == Some(expect));
            assert(alloc_iter(*cfg, day_g, stock_g, votes@.take(i + 1)) == Some(expect));
        }
        i += 1;
    }
    proof {
        assert(votes@.take(n as int) =~= votes@);
    }
    Ok(out)
}

/// What the reward curve maintains across stakes: the recorded exchange
/// rates never increase; the current rate is the last recorded one; while
/// unfrozen the rate is `stock / (stock + total)`; and once any stake's
/// annualized rate fell under the floor, the state is frozen and every
/// later rate equals that stake's.
spec fn curve_inv(cfg: Config, stock: int, st: AllocState) -> bool {
    &&& 0 <= st.total
    &&& 0 <= st.rate <= u128::MAX
    &&& st.records.len() == 0 ==> !st.frozen && st.rate == 0 && st.total == 0
    &&& st.records.len() > 0 ==> st.total >= 1 && st.rate == st.records.last().exchange_rate
    &&& (!st.frozen && st.records.len() > 0) ==> st.rate == fx_div_val(stock, stock + st.total)
        && stock + st.total <= u128::MAX
    &&& forall|i: int, j: int|
        0 <= i <= j < st.records.len() ==> #[trigger] st.records[j].exchange_rate
            <= #[trigger] st.records[i].exchange_rate
    &&& forall|i: int|
        0 <= i < st.records.len() && #[trigger] st.records[i].annual_rate < cfg.fix_rate
            ==> st.frozen
    &&& forall|i: int, j: int|
        0 <= i <= j < st.records.len() && #[trigger] st.records[i].annual_rate < cfg.fix_rate
            ==> #[trigger] st.records[j].exchange_rate == st.records[i].exchange_rate
}

/// The reward curve's invariant holds of every state the allocator
/// reaches.
proof fn lemma_alloc_iter_curve(cfg: Config, day: int, stock: int, votes: Seq<Vote>)
    requires
        0 <= stock,
        0 <= day,
        alloc_iter(cfg, day, stock, votes) is Some,
    ensures
        curve_inv(cfg, stock, alloc_iter(cfg, day, stock, votes)->Some_0),
    decreases votes.len(),
{
    if votes.len() == 0 {
    } else {
        let st = alloc_iter(cfg, day, stock, votes.drop_last())->Some_0;
        let st2 = alloc_iter(cfg, day, stock, votes)->Some_0;
        lemma_alloc_iter_curve(cfg, day, stock, votes.drop_last());
        let v = votes.last();
        let sd = fx_div_val(fx_from_val(v.keep_block_num), fx_from_val(cfg.day_block_num));
        let w1 = fx_mul_val(fx_from_val(v.amount), sd);
        let w = fx_div_val(w1, day);
        let total2 = st.total + w;
        // the step succeeded, so every gate held; in particular w != 0
        assert(alloc_step(cfg, day, stock, st, v) is Some);
        
            lemma_mul_nonnegative(v.keep_block_num as int, FX_ONE as int);
            lemma_div_pos_is_pos(
                fx_from_val(v.keep_block_num) * (FX_ONE as int),
                fx_from_val(cfg.day_block_num),
            );
            lemma_mul_nonnegative(fx_from_val(v.amount), sd);
            lemma_div_pos_is_pos(fx_from_val(v.amount) * sd, FX_ONE as int);
            lemma_div_pos_is_pos(w1 * (FX_ONE as int), day);
            lemma_mul_nonnegative(w1, FX_ONE as int);
        
        assert(w >= 1);
        let rate2 = if st.frozen {
            st.rate
        } else {
            fx_div_val(stock, stock + total2)
        };
        if !st.frozen {
            
                lemma_mul_nonnegative(stock, FX_ONE as int);
                lemma_div_pos_is_pos(stock * (FX_ONE as int), stock + total2);
            
            if st.records.len() > 0 {
                
                    lemma_div_is_ordered_by_denominator(
                        stock * (FX_ONE as int),
                        stock + st.total,
                        stock + total2,
                    );
                
                assert(rate2 <= st.rate);
            }
        }
        assert(st2.records == st.records.push(st2.records.last()));
        assert(st2.records.last().exchange_rate == rate2);
        assert(st2.rate == rate2);
        // every earlier rate dominates the current one
        assert(forall|i: int|
            0 <= i < st.records.len() ==> st.rate <= #[trigger] st.records[i].exchange_rate);
        assert forall|i: int, j: int| 0 <= i <= j < st2.records.len() implies #[trigger] st2.records[j].exchange_rate
            <= #[trigger] st2.records[i].exchange_rate by {
            if j < st.records.len() {
            } else if i < st.records.len() {
                assert(st2.records[j].exchange_rate == rate2);
                assert(rate2 <= st.rate);
            }
        }
        assert forall|i: int, j: int|
            0 <= i <= j < st2.records.len() && #[trigger] st2.records[i].annual_rate
                < cfg.fix_rate implies #[trigger] st2.records[j].exchange_rate
            == st2.records[i].exchange_rate by {
            if i < st.records.len() {
                // the state was already frozen, so the rate was carried over
                assert(st.frozen);
                assert(st.records.len() > 0);
                if j == st.records.len() {
                    assert(st.records[i].annual_rate < cfg.fix_rate);
                    assert(st.records[st.records.len() - 1].exchange_rate
                        == st.records[i].exchange_rate);
                    assert(rate2 == st.rate);
                }
            }
        }
    }
}

/// Law (yield curve): in a settlement report the exchange rate is
/// non-increasing across stakes in submission order, and from the first
/// stake whose annualized rate fell under the configured floor rate
/// onward, it is constant.
pub proof fn lemma_exchange_rate_curve(
    cfg: Config,
    duration: u64,
    price: u64,
    votes: Seq<Vote>,
    report: Seq<YieldRecord>,
)
    requires
        alloc_spec(cfg, duration, price, votes) == Some(report),
    ensures
        forall|i: int, j: int|
            0 <= i <= j < report.len() ==> #[trigger] report[j].exchange_rate
                <= #[trigger] report[i].exchange_rate,
        forall|i: int, j: int|
            0 <= i <= j < report.len() && #[trigger] report[i].annual_rate < cfg.fix_rate
                ==> #[trigger] report[j].exchange_rate == report[i].exchange_rate,
{
    let day = day_of(cfg, duration);
    let stock = stock_of(cfg, duration, price);
    
        // both quantities are quotients and products of non-negatives
        lemma_mul_nonnegative(duration as int, FX_ONE as int);
        lemma_div_pos_is_pos(fx_from_val(duration) * (FX_ONE as int), fx_from_val(cfg.day_block_num));
        lemma_mul_nonnegative(price as int, FX_ONE as int);
        lemma_mul_nonnegative(fx_from_val(price), cfg.profit_rate as int);
        lemma_div_pos_is_pos(
            fx_from_val(price) * (cfg.profit_rate as int),
            FX_ONE as int,
        );
        lemma_div_pos_is_pos(
            fx_mul_val(fx_from_val(price), cfg.profit_rate as int) * (FX_ONE as int),
            day,
        );
        lemma_mul_nonnegative(
            fx_div_val(fx_mul_val(fx_from_val(price), cfg.profit_rate as int), day),
            fx_from_val(365),
        );
        lemma_div_pos_is_pos(
            fx_div_val(fx_mul_val(fx_from_val(price), cfg.profit_rate as int), day)
                * (fx_from_val(365)),
            FX_ONE as int,
        );
    
    lemma_alloc_iter_curve(cfg, day, stock, votes);
}

} // verus!
