use vstd::prelude::*;

use crate::time::{instant_nanos, whole_days, Timestamp, NANOS_PER_SECOND, SECONDS_PER_DAY};
use crate::usd::USD;

verus! {

/// `a / n` as Rust computes it on integers: rounded toward zero.
pub open spec fn quot(a: int, n: int) -> int {
    if a >= 0 {
        a / n
    } else {
        -((-a) / n)
    }
}

/// `a % n` as Rust computes it on integers: with the sign of `a`.
pub open spec fn rem_of(a: int, n: int) -> int {
    if a >= 0 {
        a % n
    } else {
        -((-a) % n)
    }
}

/// The number of calendar days a service period from `start` to `end` spans,
/// counting both ends: the whole days between them, plus one.
pub open spec fn service_days(start: Timestamp, end: Timestamp) -> int {
    whole_days(end, start) + 1
}

/// Whether a service period is given and well formed: both ends present,
/// representable, and the start not after the end.
pub open spec fn service_period_ok(start: Option<Timestamp>, end: Option<Timestamp>) -> bool {
    &&& start is Some
    &&& end is Some
    &&& start.unwrap().valid()
    &&& end.unwrap().valid()
    &&& instant_nanos(start.unwrap()) <= instant_nanos(end.unwrap())
}

/// The whole days between two ordered instants span no more seconds than
/// lie between their whole seconds.
pub proof fn lemma_whole_days_bounds(later: Timestamp, earlier: Timestamp)
    requires
        later.valid(),
        earlier.valid(),
        instant_nanos(earlier) <= instant_nanos(later),
    ensures
        0 <= whole_days(later, earlier),
        whole_days(later, earlier) * SECONDS_PER_DAY <= later.secs - earlier.secs,
        whole_days(later, earlier) <= 200_000_000,
{
    let d = instant_nanos(later) - instant_nanos(earlier);
    let secs = later.secs - earlier.secs;
    let w = d / (NANOS_PER_SECOND as int);
    assert(d < (secs + 1) * NANOS_PER_SECOND) by (nonlinear_arith)
        requires
            d == (later.secs * NANOS_PER_SECOND + later.nanos) - (earlier.secs * NANOS_PER_SECOND + earlier.nanos),
            secs == later.secs - earlier.secs,
            later.nanos < NANOS_PER_SECOND,
    ;
    vstd::arithmetic::div_mod::lemma_fundamental_div_mod(d, NANOS_PER_SECOND as int);
    vstd::arithmetic::div_mod::lemma_mod_bound(d, NANOS_PER_SECOND as int);
    assert(w <= secs) by (nonlinear_arith)
        requires
            d == NANOS_PER_SECOND * w + d % (NANOS_PER_SECOND as int),
            0 <= d % (NANOS_PER_SECOND as int),
            d < (secs + 1) * NANOS_PER_SECOND,
    ;
    vstd::arithmetic::div_mod::lemma_div_pos_is_pos(d, NANOS_PER_SECOND as int);
    vstd::arithmetic::div_mod::lemma_fundamental_div_mod(w, SECONDS_PER_DAY as int);
    vstd::arithmetic::div_mod::lemma_mod_bound(w, SECONDS_PER_DAY as int);
    vstd::arithmetic::div_mod::lemma_div_pos_is_pos(w, SECONDS_PER_DAY as int);
    assert(whole_days(later, earlier) * SECONDS_PER_DAY <= w) by (nonlinear_arith)
        requires
            w == SECONDS_PER_DAY * (w / (SECONDS_PER_DAY as int)) + w % (SECONDS_PER_DAY as int),
            0 <= w % (SECONDS_PER_DAY as int),
            whole_days(later, earlier) == w / (SECONDS_PER_DAY as int),
    ;
}

/// The share of `total` pennies charged on day `i` of `n` days: the quotient
/// of `total` by `n` on each day, one penny more on each of the first
/// `total % n` days where that remainder is positive.
pub open spec fn per_day_amount(total: int, n: int, i: int) -> int {
    quot(total, n) + if i < rem_of(total, n) {
        1int
    } else {
        0int
    }
}

/// The shares of `total` pennies over `n` days, in order.
pub open spec fn schedule_amounts(total: int, n: int) -> Seq<int> {
    Seq::new(n as nat, |i: int| per_day_amount(total, n, i))
}

/// The sum of a sequence of integers.
pub open spec fn seq_sum(s: Seq<int>) -> int
    decreases s.len(),
{
    if s.len() == 0 {
        0
    } else {
        seq_sum(s.drop_last()) + s.last()
    }
}

/// Rust's quotient and remainder by a positive divisor recompose the dividend,
/// and the remainder carries the dividend's sign.
pub proof fn lemma_quot_rem(a: int, n: int)
    requires
        n >= 1,
    ensures
        a == n * quot(a, n) + rem_of(a, n),
        a >= 0 ==> 0 <= rem_of(a, n) < n && quot(a, n) >= 0,
        a < 0 ==> -n < rem_of(a, n) <= 0 && quot(a, n) <= 0,
{
    if a >= 0 {
        vstd::arithmetic::div_mod::lemma_fundamental_div_mod(a, n);
        vstd::arithmetic::div_mod::lemma_mod_bound(a, n);
        vstd::arithmetic::div_mod::lemma_div_pos_is_pos(a, n);
    } else {
        vstd::arithmetic::div_mod::lemma_fundamental_div_mod(-a, n);
        vstd::arithmetic::div_mod::lemma_mod_bound(-a, n);
        vstd::arithmetic::div_mod::lemma_div_pos_is_pos(-a, n);
        assert(n * quot(a, n) == -(n * ((-a) / n))) by (nonlinear_arith)
            requires quot(a, n) == -((-a) / n);
    }
}

/// The first `k` shares of `total` over `n` days sum to `k` quotients plus
/// one penny for each of them that falls within the remainder.
proof fn lemma_schedule_prefix_sum(total: int, n: int, k: int)
    requires
        n >= 1,
        0 <= k <= n,
    ensures
        seq_sum(schedule_amounts(total, n).take(k)) == k * quot(total, n) + if rem_of(total, n) > 0 {
            if k < rem_of(total, n) { k } else { rem_of(total, n) }
        } else {
            0
        },
    decreases k,
{
    let s = schedule_amounts(total, n);
    if k > 0 {
        lemma_schedule_prefix_sum(total, n, k - 1);
        assert(s.take(k).drop_last() =~= s.take(k - 1));
        assert(s.take(k).last() == per_day_amount(total, n, k - 1));
        assert(k * quot(total, n) == (k - 1) * quot(total, n) + quot(total, n)) by (nonlinear_arith);
    } else {
        assert(s.take(0) =~= Seq::<int>::empty());
        assert(0 * quot(total, n) == 0);
    }
}

/// Spreading a non-negative amount over the days of a service period loses
/// nothing: the daily shares add up to the whole amount.
pub proof fn lemma_schedule_conserves_total(total: int, n: int)
    requires
        n >= 1,
        total >= 0,
    ensures
        seq_sum(schedule_amounts(total, n)) == total,
{
    lemma_quot_rem(total, n);
    lemma_schedule_prefix_sum(total, n, n);
    assert(schedule_amounts(total, n).take(n) =~= schedule_amounts(total, n));
}

/// Every prefix of the shares of `total` lies between zero and `total`.
pub proof fn lemma_schedule_prefix_bounded(total: int, n: int, k: int)
    requires
        n >= 1,
        0 <= k <= n,
    ensures
        total >= 0 ==> 0 <= seq_sum(schedule_amounts(total, n).take(k)) <= total,
        total < 0 ==> total <= seq_sum(schedule_amounts(total, n).take(k)) <= 0,
{
    lemma_quot_rem(total, n);
    lemma_schedule_prefix_sum(total, n, k);
    let q = quot(total, n);
    if total >= 0 {
        assert(0 <= k * q <= n * q) by (nonlinear_arith)
            requires 0 <= k <= n, q >= 0;
    } else {
        assert(n * q <= k * q <= 0) by (nonlinear_arith)
            requires 0 <= k <= n, q <= 0;
    }
}

/// The number of days in the service period from `start` to `end`, both
/// ends counted.
pub fn days_in_service_period(start: &Timestamp, end: &Timestamp) -> (r: i64)
    requires
        start.valid(),
        end.valid(),
        instant_nanos(*start) <= instant_nanos(*end),
    ensures
        r == service_days(*start, *end),
        r >= 1,
{
    proof {
        lemma_whole_days_bounds(*end, *start);
    }
    let whole = end.whole_days_since(start);
    match whole {
        Some(days) => {
            assert(days <= 200_000_000);
            days as i64 + 1
        },
        None => 1,
    }
}

/// Spreads `total` over the days of the service period from `start` to `end`:
/// on day `i` (starting at zero), the instant `i` days after `start` and the
/// share `per_day_amount`.
pub fn amount_per_day(total: USD, start: &Timestamp, end: &Timestamp) -> (r: Vec<(Timestamp, USD)>)
    requires
        start.valid(),
        end.valid(),
        instant_nanos(*start) <= instant_nanos(*end),
    ensures
        r.len() == service_days(*start, *end),
        forall|i: int| 0 <= i < r.len() ==> {
            &&& (#[trigger] r@[i]).0.secs == start.secs + SECONDS_PER_DAY * i
            &&& r@[i].0.nanos == start.nanos
            &&& r@[i].0.valid()
            &&& r@[i].1.pennies == per_day_amount(total.pennies as int, r.len() as int, i)
        },
{
    let n = days_in_service_period(start, end);
    let spd = total.pennies / n;
    let mut leftover = total.pennies % n;
    let ghost q = quot(total.pennies as int, n as int);
    let ghost rm = rem_of(total.pennies as int, n as int);
    proof {
        lemma_whole_days_bounds(*end, *start);
        lemma_quot_rem(total.pennies as int, n as int);
        if rm > 0 {
            assert(q < total.pennies) by (nonlinear_arith)
                requires total.pennies == n * q + rm, n >= 2, q >= 0, rm > 0, rm < n;
        }
    }
    let mut r: Vec<(Timestamp, USD)> = Vec::new();
    let mut day: i64 = 0;
    while day < n
        invariant
            0 <= day <= n,
            n == service_days(*start, *end),
            n >= 1,
            start.valid(),
            end.valid(),
            (n - 1) * SECONDS_PER_DAY <= end.secs - start.secs,
            spd == q,
            q == quot(total.pennies as int, n as int),
            rm == rem_of(total.pennies as int, n as int),
            rm > 0 ==> q < i64::MAX,
            leftover == if day < rm { rm - day } else if rm > 0 { 0 } else { rm },
            r.len() == day,
            forall|i: int| 0 <= i < day ==> {
                &&& (#[trigger] r@[i]).0.secs == start.secs + SECONDS_PER_DAY * i
                &&& r@[i].0.nanos == start.nanos
                &&& r@[i].0.valid()
                &&& r@[i].1.pennies == per_day_amount(total.pennies as int, n as int, i)
            },
        decreases n - day,
    {
        let mut day_amount = spd;
        if leftover > 0 {
            day_amount = day_amount + 1;
            leftover = leftover - 1;
        }
        assert(SECONDS_PER_DAY * day <= end.secs - start.secs);
        let date = match start.checked_add_days(day) {
            Some(t) => t,
            None => *start,
        };
        r.push((date, USD::from_pennies(day_amount)));
        day = day + 1;
    }
    r
}

} // verus!
