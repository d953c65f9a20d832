use vstd::prelude::*;

use crate::account_map::{accounts_receivable_code, deferred_code, deferred_code_of, receivable_code_of};
use crate::general_ledger::{
    apply_postings, balance, lemma_apply_postings_balance, lemma_net_change_concat, lemma_net_change_single,
    lemma_net_change_untouched, net_change, postings_fit,
    touches, GeneralLedger, Posting, PostingView, posting_views,
};
use crate::schedule::{
    amount_per_day, days_in_service_period, per_day_amount, schedule_amounts, seq_sum, service_days, service_period_ok,
    lemma_schedule_prefix_bounded, lemma_quot_rem, quot, lemma_whole_days_bounds, lemma_schedule_conserves_total,
};
use crate::time::{day_number, instant_nanos, lemma_day_number_shift, whole_days, Timestamp, SECONDS_PER_DAY};
use crate::usd::USD;

verus! {

/// A charge to a payee: `amount` billed to the revenue account `account_code`,
/// over the service period from `service_start_date` to `service_end_date`
/// where it has one.
#[derive(Debug)]
pub struct Assessment {
    pub amount: USD,
    pub account_code: String,
    pub effective_on: Timestamp,
    pub service_start_date: Option<Timestamp>,
    pub service_end_date: Option<Timestamp>,
}

/// A payment of `amount` into `account_code` against a charge (the payee): the
/// payee's amount, revenue account, service period, dates, and the part of
/// it that earlier payments already covered.
#[derive(Debug)]
pub struct Payment {
    pub amount: USD,
    pub account_code: String,
    pub effective_on: Timestamp,
    pub payee_amount: USD,
    pub payee_account_code: String,
    pub payee_service_start_date: Option<Timestamp>,
    pub payee_service_end_date: Option<Timestamp>,
    pub payee_effective_on: Timestamp,
    pub payee_resolved_on: Option<Timestamp>,
    pub previously_paid_amount: USD,
}

/// The amounts still owed day by day once `paid` pennies have been applied
/// to the positive daily amounts `amounts`, earliest day first.
pub open spec fn outstanding(amounts: Seq<int>, paid: int) -> Seq<int>
    decreases amounts.len(),
{
    if amounts.len() == 0 {
        Seq::empty()
    } else {
        let a = amounts[0];
        let covered = if paid > 0 && a > 0 {
            if a <= paid { a } else { paid }
        } else {
            0
        };
        seq![a - covered] + outstanding(amounts.drop_first(), paid - covered)
    }
}

/// The double entries of an assessment accrued day by day: on each day of
/// the service period, that day's share is debited to the receivable account
/// and credited to the revenue account.
pub open spec fn assessment_daily_postings(a: Assessment) -> Seq<PostingView> {
    let start = a.service_start_date.unwrap();
    let n = service_days(start, a.service_end_date.unwrap());
    Seq::new(
        n as nat,
        |i: int|
            PostingView {
                day: day_number(start.secs + SECONDS_PER_DAY * i),
                amount: per_day_amount(a.amount.pennies as int, n, i),
                debit: receivable_code_of(a.account_code@).unwrap(),
                credit: a.account_code@,
            },
    )
}

/// Whether an assessment can be accrued day by day: its service period is
/// well formed and its revenue account has a receivable account.
pub open spec fn assessment_daily_ready(a: Assessment) -> bool {
    &&& service_period_ok(a.service_start_date, a.service_end_date)
    &&& receivable_code_of(a.account_code@) is Some
}

/// The double entry of an assessment accrued at once, on its effective day.
pub open spec fn assessment_accrual_postings(a: Assessment) -> Seq<PostingView> {
    seq![
        PostingView {
            day: day_number(a.effective_on.secs as int),
            amount: a.amount.pennies as int,
            debit: receivable_code_of(a.account_code@).unwrap(),
            credit: a.account_code@,
        },
    ]
}

/// Whether an assessment can be accrued at once.
pub open spec fn assessment_accrual_ready(a: Assessment) -> bool {
    &&& a.effective_on.valid()
    &&& receivable_code_of(a.account_code@) is Some
}

/// The payee's daily amounts not yet covered by earlier payments.
pub open spec fn payment_outstanding(p: Payment) -> Seq<int> {
    let start = p.payee_service_start_date.unwrap();
    let n = service_days(start, p.payee_service_end_date.unwrap());
    outstanding(schedule_amounts(p.payee_amount.pennies as int, n), p.previously_paid_amount.pennies as int)
}

/// How many days of the payee's service period lie before the payment's day
/// (at most the whole period): the days whose amounts are receivable.
pub open spec fn payment_cut(p: Payment) -> int {
    let start = p.payee_service_start_date.unwrap();
    let n = service_days(start, p.payee_service_end_date.unwrap());
    let elapsed = whole_days(p.effective_on, start);
    if elapsed > n { n } else { elapsed }
}

/// The outstanding receivable that the payment can settle.
pub open spec fn payment_creditable(p: Payment) -> int {
    seq_sum(payment_outstanding(p).take(payment_cut(p)))
}

/// The part of the payment that settles receivables.
pub open spec fn payment_to_receivable(p: Payment) -> int {
    if p.amount.pennies >= payment_creditable(p) {
        payment_creditable(p)
    } else {
        p.amount.pennies as int
    }
}

/// The part of the payment paid ahead, held as deferred revenue.
pub open spec fn payment_to_deferred(p: Payment) -> int {
    if p.amount.pennies >= payment_creditable(p) {
        p.amount.pennies - payment_creditable(p)
    } else {
        0
    }
}

/// From day `i` on, the deferred remainder `rem` is released day by day
/// against that day's outstanding amount (all of it while the remainder
/// lasts, then what is left), from the deferred account to the receivable one.
pub open spec fn drawdown(p: Payment, outs: Seq<int>, i: int, rem: int) -> Seq<PostingView>
    decreases outs.len() - i,
{
    if i < 0 || i >= outs.len() || rem == 0 {
        Seq::empty()
    } else {
        let start = p.payee_service_start_date.unwrap();
        let day = day_number(start.secs + SECONDS_PER_DAY * i);
        let deferred = deferred_code_of(p.payee_account_code@).unwrap();
        let receivable = receivable_code_of(p.payee_account_code@).unwrap();
        if outs[i] <= rem {
            seq![PostingView { day, amount: outs[i], debit: deferred, credit: receivable }]
                + drawdown(p, outs, i + 1, rem - outs[i])
        } else {
            seq![PostingView { day, amount: rem, debit: deferred, credit: receivable }]
                + drawdown(p, outs, i + 1, 0)
        }
    }
}

/// Whether the drawdown from day `i` with remainder `rem` reaches a day of
/// the service period with nothing left to release.
pub open spec fn drawdown_stops_early(outs: Seq<int>, i: int, rem: int) -> bool
    decreases outs.len() - i,
{
    if i < 0 || i >= outs.len() {
        false
    } else if rem == 0 {
        true
    } else if outs[i] <= rem {
        drawdown_stops_early(outs, i + 1, rem - outs[i])
    } else {
        drawdown_stops_early(outs, i + 1, 0)
    }
}

/// Whether every remainder of the drawdown from day `i` fits in an `i64`.
pub open spec fn drawdown_fits(outs: Seq<int>, i: int, rem: int) -> bool
    decreases outs.len() - i,
{
    if i < 0 || i >= outs.len() || rem == 0 {
        true
    } else if outs[i] <= rem {
        &&& i64::MIN <= rem - outs[i] <= i64::MAX
        &&& drawdown_fits(outs, i + 1, rem - outs[i])
    } else {
        true
    }
}

/// The double entries of a payment against a daily-accrued payee: the
/// receivable part from the payment account to the receivable account; the
/// rest, where positive, to the deferred account; then the deferred part
/// released against the days from the payment's day on.
pub open spec fn payment_daily_postings(p: Payment) -> Seq<PostingView> {
    let day = day_number(p.effective_on.secs as int);
    let receivable = receivable_code_of(p.payee_account_code@).unwrap();
    let deferred = deferred_code_of(p.payee_account_code@).unwrap();
    seq![PostingView { day, amount: payment_to_receivable(p), debit: p.account_code@, credit: receivable }]
        + (if payment_to_deferred(p) > 0 {
            seq![PostingView { day, amount: payment_to_deferred(p), debit: p.account_code@, credit: deferred }]
        } else {
            Seq::empty()
        })
        + drawdown(p, payment_outstanding(p), payment_cut(p), payment_to_deferred(p))
}

/// Whether a payment can be applied to a daily-accrued payee: the payee's
/// service period is well formed and starts no later than the payment, the
/// payee's revenue account has a receivable account (and a deferred one where
/// something is paid ahead), and no amount leaves an `i64`.
pub open spec fn payment_daily_ready(p: Payment) -> bool {
    &&& service_period_ok(p.payee_service_start_date, p.payee_service_end_date)
    &&& p.effective_on.valid()
    &&& instant_nanos(p.payee_service_start_date.unwrap()) <= instant_nanos(p.effective_on)
    &&& receivable_code_of(p.payee_account_code@) is Some
    &&& payment_to_deferred(p) > 0 ==> deferred_code_of(p.payee_account_code@) is Some
    &&& i64::MIN <= payment_to_deferred(p) <= i64::MAX
    &&& drawdown_fits(payment_outstanding(p), payment_cut(p), payment_to_deferred(p))
}

/// Whether a payment is a credit (account 4501) whose payee is not resolved
/// yet: such a payment records nothing.
pub open spec fn payment_credit_pending(p: Payment) -> bool {
    p.account_code@ == "4501"@ && p.payee_resolved_on is None
}

/// The double entries of a payment accrued day by day.
pub open spec fn payment_accrual_postings(p: Payment) -> Seq<PostingView> {
    if payment_credit_pending(p) {
        Seq::empty()
    } else {
        payment_daily_postings(p)
    }
}


/// The sequence of the integers in `s`.
pub open spec fn ints(s: Seq<i64>) -> Seq<int> {
    s.map_values(|x: i64| x as int)
}

/// The amounts of a day-by-day schedule.
pub open spec fn schedule_pennies(s: Seq<(Timestamp, USD)>) -> Seq<int> {
    s.map_values(|e: (Timestamp, USD)| e.1.pennies as int)
}

proof fn lemma_outstanding_shape(a: Seq<int>, paid: int)
    ensures
        outstanding(a, paid).len() == a.len(),
        forall|i: int| 0 <= i < a.len() && a[i] <= 0 ==> #[trigger] outstanding(a, paid)[i] == a[i],
        forall|i: int| 0 <= i < a.len() && a[i] > 0 ==> 0 <= #[trigger] outstanding(a, paid)[i] <= a[i],
    decreases a.len(),
{
    if a.len() > 0 {
        let x = a[0];
        let covered = if paid > 0 && x > 0 {
            if x <= paid { x } else { paid }
        } else {
            0
        };
        lemma_outstanding_shape(a.drop_first(), paid - covered);
        let o = outstanding(a, paid);
        let rest = outstanding(a.drop_first(), paid - covered);
        assert forall|i: int| 0 < i < a.len() implies #[trigger] o[i] == rest[i - 1] && a[i] == a.drop_first()[i - 1] by {}
    }
}

proof fn lemma_prefix_sums_ordered(s: Seq<int>, t: Seq<int>, j: int)
    requires
        0 <= j <= s.len(),
        j <= t.len(),
        forall|i: int| 0 <= i < j ==> 0 <= #[trigger] s[i] <= t[i],
    ensures
        0 <= seq_sum(s.take(j)) <= seq_sum(t.take(j)),
    decreases j,
{
    if j > 0 {
        lemma_prefix_sums_ordered(s, t, j - 1);
        assert(s.take(j).drop_last() =~= s.take(j - 1));
        assert(t.take(j).drop_last() =~= t.take(j - 1));
    } else {
        assert(s.take(0) =~= Seq::<int>::empty());
        assert(t.take(0) =~= Seq::<int>::empty());
    }
}

/// Every prefix of the outstanding daily amounts lies between zero and the
/// payee's amount, so its sum fits where the payee's amount does.
proof fn lemma_outstanding_prefix_bounded(total: int, n: int, paid: int, j: int)
    requires
        n >= 1,
        0 <= j <= n,
    ensures
        total >= 0 ==> 0 <= seq_sum(outstanding(schedule_amounts(total, n), paid).take(j)) <= total,
        total < 0 ==> total <= seq_sum(outstanding(schedule_amounts(total, n), paid).take(j)) <= 0,
{
    let a = schedule_amounts(total, n);
    let o = outstanding(a, paid);
    lemma_outstanding_shape(a, paid);
    lemma_quot_rem(total, n);
    lemma_schedule_prefix_bounded(total, n, j);
    if total >= 0 {
        assert forall|i: int| 0 <= i < j implies 0 <= #[trigger] o[i] <= a[i] by {
            assert(a[i] == per_day_amount(total, n, i));
        }
        lemma_prefix_sums_ordered(o, a, j);
    } else {
        assert forall|i: int| 0 <= i < n implies #[trigger] o[i] == a[i] by {
            assert(a[i] == per_day_amount(total, n, i));
            assert(a[i] == quot(total, n));
        }
        assert(o =~= a);
    }
}

/// The daily amounts of `amounts` still owed once `paid` is applied, earliest day first.
fn outstanding_amounts(amounts: &Vec<(Timestamp, USD)>, paid: USD) -> (r: Vec<i64>)
    ensures
        ints(r@) == outstanding(schedule_pennies(amounts@), paid.pennies as int),
{
    let ghost a = schedule_pennies(amounts@);
    let mut r: Vec<i64> = Vec::new();
    let mut remaining: i64 = paid.pennies;
    let mut i: usize = 0;
    assert(a.skip(0) =~= a);
    while i < amounts.len()
        invariant
            i <= amounts.len(),
            a == schedule_pennies(amounts@),
            ints(r@) + outstanding(a.skip(i as int), remaining as int) == outstanding(a, paid.pennies as int),
        decreases amounts.len() - i,
    {
        let x = amounts[i].1.pennies;
        let covered: i64 = if remaining > 0 && x > 0 {
            if x <= remaining { x } else { remaining }
        } else {
            0
        };
        proof {
            assert(a.skip(i as int)[0] == x);
            assert(a.skip(i as int).drop_first() =~= a.skip(i + 1));
            assert(ints(r@.push((x - covered) as i64)) =~= ints(r@) + seq![(x - covered) as int]);
        }
        r.push(x - covered);
        remaining = remaining - covered;
        i = i + 1;
    }
    assert(a.skip(i as int) =~= Seq::<int>::empty());
    assert(ints(r@) + Seq::<int>::empty() =~= ints(r@));
    r
}


impl Assessment {
    /// An assessment with the given fields.
    pub fn new(
        amount: USD,
        account_code: String,
        effective_on: Timestamp,
        service_start_date: Option<Timestamp>,
        service_end_date: Option<Timestamp>,
    ) -> (r: Assessment)
        ensures
            r.amount == amount,
            r.account_code@ == account_code@,
            r.effective_on == effective_on,
            r.service_start_date == service_start_date,
            r.service_end_date == service_end_date,
    {
        Assessment { amount, account_code, effective_on, service_start_date, service_end_date }
    }

    /// The double entries that accrue this assessment day by day.
    pub fn daily_accrual_postings(&self) -> (r: Vec<Posting>)
        requires
            assessment_daily_ready(*self),
        ensures
            posting_views(r@) == assessment_daily_postings(*self),
    {
        let ghost target = assessment_daily_postings(*self);
        let start = self.service_start_date.unwrap();
        let end = self.service_end_date.unwrap();
        let receivable = accounts_receivable_code(self.account_code.as_str()).unwrap();
        let amounts = amount_per_day(self.amount, &start, &end);
        let mut r: Vec<Posting> = Vec::new();
        let mut i: usize = 0;
        while i < amounts.len()
            invariant
                i <= amounts.len(),
                amounts.len() == target.len(),
                target == assessment_daily_postings(*self),
                assessment_daily_ready(*self),
                start == self.service_start_date.unwrap(),
                receivable_code_of(self.account_code@) == Some(receivable@),
                forall|j: int| 0 <= j < amounts.len() ==> {
                    &&& (#[trigger] amounts@[j]).0.secs == start.secs + SECONDS_PER_DAY * j
                    &&& amounts@[j].0.valid()
                    &&& amounts@[j].1.pennies == per_day_amount(self.amount.pennies as int, amounts.len() as int, j)
                },
                posting_views(r@) == target.take(i as int),
            decreases amounts.len() - i,
        {
            let entry = Posting {
                date: amounts[i].0.date(),
                amount: amounts[i].1,
                debit_account: receivable.clone(),
                credit_account: self.account_code.clone(),
            };
            proof {
                let n = service_days(start, self.service_end_date.unwrap());
                assert(target.len() == n);
                assert(entry@ == target[i as int]);
            }
            r.push(entry);
            assert(posting_views(r@) =~= target.take(i as int).push(entry@));
            assert(posting_views(r@) =~= target.take(i + 1));
            i = i + 1;
        }
        assert(target.take(i as int) =~= target);
        r
    }

    /// The double entries of `daily_accrual_postings`, where the assessment
    /// is ready for them (`assessment_daily_ready`); `None` where it is not.
    pub fn try_daily_accrual_postings(&self) -> (r: Option<Vec<Posting>>)
        ensures
            r is Some <==> assessment_daily_ready(*self),
            r matches Some(v) ==> posting_views(v@) == assessment_daily_postings(*self),
    {
        match (self.service_start_date, self.service_end_date) {
            (Some(start), Some(end)) => {
                if !start.is_valid() || !end.is_valid() || start.is_after(&end) {
                    return None;
                }
            },
            _ => {
                return None;
            },
        }
        if accounts_receivable_code(self.account_code.as_str()).is_none() {
            return None;
        }
        Some(self.daily_accrual_postings())
    }

    /// The double entry of `accrual_postings`, where the assessment is ready
    /// for it (`assessment_accrual_ready`); `None` where it is not.
    pub fn try_accrual_postings(&self) -> (r: Option<Vec<Posting>>)
        ensures
            r is Some <==> assessment_accrual_ready(*self),
            r matches Some(v) ==> posting_views(v@) == assessment_accrual_postings(*self),
    {
        if !self.effective_on.is_valid() || accounts_receivable_code(self.account_code.as_str()).is_none() {
            return None;
        }
        Some(self.accrual_postings())
    }

    /// The double entry that accrues this assessment at once, on its effective day.
    pub fn accrual_postings(&self) -> (r: Vec<Posting>)
        requires
            assessment_accrual_ready(*self),
        ensures
            posting_views(r@) == assessment_accrual_postings(*self),
    {
        let receivable = accounts_receivable_code(self.account_code.as_str()).unwrap();
        let mut r: Vec<Posting> = Vec::new();
        r.push(Posting {
            date: self.effective_on.date(),
            amount: self.amount,
            debit_account: receivable,
            credit_account: self.account_code.clone(),
        });
        assert(posting_views(r@) =~= assessment_accrual_postings(*self));
        r
    }
}

impl Payment {
    /// A payment with the given fields.
    pub fn new(
        amount: USD,
        account_code: String,
        effective_on: Timestamp,
        payee_amount: USD,
        payee_account_code: String,
        payee_service_start_date: Option<Timestamp>,
        payee_service_end_date: Option<Timestamp>,
        payee_effective_on: Timestamp,
        payee_resolved_on: Option<Timestamp>,
        previously_paid_amount: USD,
    ) -> (r: Payment)
        ensures
            r.amount == amount,
            r.account_code@ == account_code@,
            r.effective_on == effective_on,
            r.payee_amount == payee_amount,
            r.payee_account_code@ == payee_account_code@,
            r.payee_service_start_date == payee_service_start_date,
            r.payee_service_end_date == payee_service_end_date,
            r.payee_effective_on == payee_effective_on,
            r.payee_resolved_on == payee_resolved_on,
            r.previously_paid_amount == previously_paid_amount,
    {
        Payment {
            amount,
            account_code,
            effective_on,
            payee_amount,
            payee_account_code,
            payee_service_start_date,
            payee_service_end_date,
            payee_effective_on,
            payee_resolved_on,
            previously_paid_amount,
        }
    }

    /// The double entries of this payment against a payee accrued day by day:
    /// what settles receivables, what is paid ahead, and the release of what
    /// was paid ahead against the following days.
    pub fn daily_postings(&self) -> (r: Vec<Posting>)
        requires
            payment_daily_ready(*self),
        ensures
            posting_views(r@) == payment_daily_postings(*self),
    {
        match self.try_daily_postings() {
            Some(postings) => postings,
            None => Vec::new(),
        }
    }

    /// The double entries of `daily_postings`, where the payment is ready for
    /// them (`payment_daily_ready`); `None` where it is not.
    pub fn try_daily_postings(&self) -> (r: Option<Vec<Posting>>)
        ensures
            r is Some <==> payment_daily_ready(*self),
            r matches Some(v) ==> posting_views(v@) == payment_daily_postings(*self),
    {
        match self.checked_daily_postings() {
            Some(result) => Some(result.0),
            None => None,
        }
    }

    /// Whether the day-by-day release of what this payment defers runs out
    /// before the last day of the payee's service period.
    pub fn releases_stop_early(&self) -> (r: bool)
        requires
            payment_daily_ready(*self),
        ensures
            r == drawdown_stops_early(payment_outstanding(*self), payment_cut(*self), payment_to_deferred(*self)),
    {
        match self.checked_daily_postings() {
            Some(result) => result.1,
            None => false,
        }
    }

    /// The double entries of `daily_postings` and whether their release of
    /// the deferred part runs out early, where the payment is ready for them.
    fn checked_daily_postings(&self) -> (r: Option<(Vec<Posting>, bool)>)
        ensures
            r is Some <==> payment_daily_ready(*self),
            r matches Some(v) ==> posting_views(v.0@) == payment_daily_postings(*self),
            r matches Some(v) ==> v.1 == drawdown_stops_early(
                payment_outstanding(*self),
                payment_cut(*self),
                payment_to_deferred(*self),
            ),
    {
        let ghost p = *self;
        let start = match self.payee_service_start_date {
            Some(t) => t,
            None => return None,
        };
        let end = match self.payee_service_end_date {
            Some(t) => t,
            None => return None,
        };
        if !start.is_valid() || !end.is_valid() || !self.effective_on.is_valid() || start.is_after(&end)
            || start.is_after(&self.effective_on) {
            return None;
        }
        let receivable = match accounts_receivable_code(self.payee_account_code.as_str()) {
            Some(code) => code,
            None => return None,
        };
        let amounts = amount_per_day(self.payee_amount, &start, &end);
        let n = amounts.len();
        let elapsed = match self.effective_on.whole_days_since(&start) {
            Some(days) => days,
            None => 0,
        };
        let cut: usize = if elapsed > n as u64 {
            n
        } else {
            elapsed as usize
        };
        let outs = outstanding_amounts(&amounts, self.previously_paid_amount);
        let ghost total = self.payee_amount.pennies as int;
        let ghost paid = self.previously_paid_amount.pennies as int;
        proof {
            assert(schedule_pennies(amounts@) =~= schedule_amounts(total, n as int));
            assert(ints(outs@) == payment_outstanding(p));
            lemma_outstanding_shape(schedule_amounts(total, n as int), paid);
            assert(cut == payment_cut(p));
        }
        let mut creditable: i64 = 0;
        let mut j: usize = 0;
        assert(ints(outs@).take(0) =~= Seq::<int>::empty());
        while j < cut
            invariant
                j <= cut,
                cut <= n,
                n >= 1,
                outs.len() == n,
                n == service_days(start, end),
                ints(outs@) == outstanding(schedule_amounts(total, n as int), paid),
                total == self.payee_amount.pennies as int,
                creditable == seq_sum(ints(outs@).take(j as int)),
            decreases cut - j,
        {
            proof {
                lemma_outstanding_prefix_bounded(total, n as int, paid, j + 1);
                assert(ints(outs@).take(j + 1).drop_last() =~= ints(outs@).take(j as int));
                assert(ints(outs@).take(j + 1).last() == outs[j as int]);
            }
            creditable = creditable + outs[j];
            j = j + 1;
        }
        assert(creditable == payment_creditable(p));
        let to_receivable: i64;
        let to_deferred: i64;
        if self.amount.pennies >= creditable {
            let difference: i128 = self.amount.pennies as i128 - creditable as i128;
            if difference > i64::MAX as i128 {
                return None;
            }
            to_receivable = creditable;
            to_deferred = difference as i64;
        } else {
            to_receivable = self.amount.pennies;
            to_deferred = 0;
        }
        let day = self.effective_on.date();
        let deferred: Option<String> = if to_deferred > 0 {
            deferred_code(self.payee_account_code.as_str())
        } else {
            None
        };
        if to_deferred > 0 && deferred.is_none() {
            return None;
        }
        let mut r: Vec<Posting> = Vec::new();
        r.push(Posting {
            date: day,
            amount: USD::from_pennies(to_receivable),
            debit_account: self.account_code.clone(),
            credit_account: receivable.clone(),
        });
        if to_deferred > 0 {
            let deferred_account = deferred.clone().unwrap();
            r.push(Posting {
                date: day,
                amount: USD::from_pennies(to_deferred),
                debit_account: self.account_code.clone(),
                credit_account: deferred_account,
            });
        }
        let ghost head = posting_views(r@);
        let ghost target = payment_daily_postings(p);
        let ghost outs_i = ints(outs@);
        assert(head + drawdown(p, outs_i, cut as int, to_deferred as int) =~= target);
        assert(to_deferred == payment_to_deferred(p));
        let ghost stop = drawdown_stops_early(outs_i, cut as int, to_deferred as int);
        let mut rem: i64 = to_deferred;
        let mut i: usize = cut;
        while i < n && rem != 0
            invariant
                stop == drawdown_stops_early(outs_i, i as int, rem as int),
                cut <= i <= n,
                n == amounts.len(),
                outs.len() == n,
                outs_i == ints(outs@),
                p == *self,
                rem >= 0,
                rem > 0 ==> deferred is Some,
                deferred matches Some(s) ==> deferred_code_of(self.payee_account_code@) == Some(s@),
                receivable_code_of(self.payee_account_code@) == Some(receivable@),
                start == self.payee_service_start_date.unwrap(),
                forall|k: int| 0 <= k < amounts.len() ==> {
                    &&& (#[trigger] amounts@[k]).0.secs == start.secs + SECONDS_PER_DAY * k
                    &&& amounts@[k].0.valid()
                },
                payment_daily_ready(p) == drawdown_fits(outs_i, i as int, rem as int),
                posting_views(r@) + drawdown(p, outs_i, i as int, rem as int) == target,
            decreases n - i,
        {
            let deferred_account = match &deferred {
                Some(s) => s.clone(),
                None => String::new(),
            };
            let date = amounts[i].0.date();
            let owed = outs[i];
            proof {
                assert(outs_i[i as int] == owed);
            }
            if owed <= rem && rem as i128 - owed as i128 > i64::MAX as i128 {
                return None;
            }
            let released: i64 = if owed <= rem { owed } else { rem };
            let ghost before = posting_views(r@);
            let entry = Posting {
                date,
                amount: USD::from_pennies(released),
                debit_account: deferred_account,
                credit_account: receivable.clone(),
            };
            r.push(entry);
            proof {
                assert(outs_i[i as int] == owed);
                assert(posting_views(r@) =~= before.push(entry@));
                if owed <= rem {
                    assert(before.push(entry@) + drawdown(p, outs_i, i + 1, rem - owed) =~= before
                        + drawdown(p, outs_i, i as int, rem as int));
                } else {
                    assert(before.push(entry@) + drawdown(p, outs_i, i + 1, 0) =~= before
                        + drawdown(p, outs_i, i as int, rem as int));
                }
            }
            if owed <= rem {
                rem = rem - owed;
            } else {
                rem = 0;
            }
            i = i + 1;
        }
        assert(drawdown(p, outs_i, i as int, rem as int) =~= Seq::<PostingView>::empty());
        assert(posting_views(r@) + Seq::<PostingView>::empty() =~= posting_views(r@));
        Some((r, i < n))
    }

    /// The double entries of `accrual_postings`, where the payment is ready
    /// for them; `None` where it is not.
    pub fn try_accrual_postings(&self) -> (r: Option<Vec<Posting>>)
        ensures
            r is Some <==> payment_credit_pending(*self) || payment_daily_ready(*self),
            r matches Some(v) ==> posting_views(v@) == payment_accrual_postings(*self),
    {
        let credit = crate::text::text_eq(self.account_code.as_str(), "4501");
        if credit && self.payee_resolved_on.is_none() {
            let none: Vec<Posting> = Vec::new();
            assert(posting_views(none@) =~= Seq::<PostingView>::empty());
            Some(none)
        } else {
            self.try_daily_postings()
        }
    }

    /// The double entries of this payment accrued day by day: none for a
    /// credit (account 4501) whose payee is not resolved yet.
    pub fn accrual_postings(&self) -> (r: Vec<Posting>)
        requires
            payment_credit_pending(*self) || payment_daily_ready(*self),
        ensures
            posting_views(r@) == payment_accrual_postings(*self),
    {
        match self.try_accrual_postings() {
            Some(postings) => postings,
            None => Vec::new(),
        }
    }
}


/// Which way a transaction was processed.
#[derive(Clone, Copy, Debug, PartialEq, Eq, Structural)]
pub enum Route {
    /// Accrued day by day over its service period (account 4000, rent).
    DailyAccrual,
    /// Accrued at once (account 4050, fees).
    Accrual,
    /// Taken as cash (account 4100): nothing is recorded.
    Cash,
    /// An account code that processing does not know: nothing is recorded.
    Unrecognized,
}

/// The route a transaction with the given account code takes.
pub open spec fn route_of(account_code: Seq<char>) -> Route {
    if account_code == "4000"@ {
        Route::DailyAccrual
    } else if account_code == "4050"@ {
        Route::Accrual
    } else if account_code == "4100"@ {
        Route::Cash
    } else {
        Route::Unrecognized
    }
}

/// A transaction against a payee (a charge with an amount and a service
/// period), which knows how to record itself in a general ledger.
pub trait Transaction {
    /// Start of the payee's service period.
    spec fn payee_start(&self) -> Option<Timestamp>;

    /// End of the payee's service period.
    spec fn payee_end(&self) -> Option<Timestamp>;

    /// The payee's amount, in pennies.
    spec fn payee_pennies(&self) -> int;

    /// The account code that decides how the transaction is processed.
    spec fn code(&self) -> Seq<char>;

    /// Whether the transaction can be accrued day by day.
    spec fn daily_accrual_ready(&self) -> bool;

    /// The double entries of the day-by-day accrual.
    spec fn daily_accrual_entries(&self) -> Seq<PostingView>;

    /// Whether the transaction can be accrued at once.
    spec fn accrual_ready(&self) -> bool;

    /// The double entries of the accrual at once.
    spec fn accrual_entries(&self) -> Seq<PostingView>;

    /// The double entries of processing as cash.
    spec fn cash_entries(&self) -> Seq<PostingView>;

    fn payee_service_start_date(&self) -> (r: Option<Timestamp>)
        ensures
            r == self.payee_start(),
    ;

    fn payee_service_end_date(&self) -> (r: Option<Timestamp>)
        ensures
            r == self.payee_end(),
    ;

    fn payee_amount(&self) -> (r: USD)
        ensures
            r.pennies == self.payee_pennies(),
    ;

    fn account_code(&self) -> (r: &str)
        ensures
            r@ == self.code(),
    ;

    /// The number of days in the payee's service period, both ends counted.
    fn days_in_payee_service_period(&self) -> (r: i64)
        requires
            service_period_ok(self.payee_start(), self.payee_end()),
        ensures
            r == service_days(self.payee_start().unwrap(), self.payee_end().unwrap()),
    {
        let start = self.payee_service_start_date().unwrap();
        let end = self.payee_service_end_date().unwrap();
        days_in_service_period(&start, &end)
    }

    /// The payee's amount spread over its service period: for day `i`, the
    /// instant `i` days after the start and that day's share.
    fn payee_amount_per_day(&self) -> (r: Vec<(Timestamp, USD)>)
        requires
            service_period_ok(self.payee_start(), self.payee_end()),
        ensures
            r.len() == service_days(self.payee_start().unwrap(), self.payee_end().unwrap()),
            forall|i: int| 0 <= i < r.len() ==> {
                &&& (#[trigger] r@[i]).0.secs == self.payee_start().unwrap().secs + SECONDS_PER_DAY * i
                &&& r@[i].0.nanos == self.payee_start().unwrap().nanos
                &&& r@[i].1.pennies == per_day_amount(self.payee_pennies(), r.len() as int, i)
            },
    {
        let start = self.payee_service_start_date().unwrap();
        let end = self.payee_service_end_date().unwrap();
        amount_per_day(self.payee_amount(), &start, &end)
    }

    /// Records the day-by-day accrual.
    fn process_daily_accrual(&self, gl: &mut GeneralLedger)
        requires
            self.daily_accrual_ready(),
            postings_fit(old(gl)@, self.daily_accrual_entries()),
        ensures
            final(gl)@ == apply_postings(old(gl)@, self.daily_accrual_entries()),
            forall|d: int| #[trigger] final(gl).day_total(d) == old(gl).day_total(d),
    ;

    /// Records the accrual at once.
    fn process_accrual(&self, gl: &mut GeneralLedger)
        requires
            self.accrual_ready(),
            postings_fit(old(gl)@, self.accrual_entries()),
        ensures
            final(gl)@ == apply_postings(old(gl)@, self.accrual_entries()),
            forall|d: int| #[trigger] final(gl).day_total(d) == old(gl).day_total(d),
    ;

    /// Records the transaction as cash.
    fn process_cash(&self, gl: &mut GeneralLedger)
        requires
            postings_fit(old(gl)@, self.cash_entries()),
        ensures
            final(gl)@ == apply_postings(old(gl)@, self.cash_entries()),
            forall|d: int| #[trigger] final(gl).day_total(d) == old(gl).day_total(d),
    ;

    /// Records the transaction the way its account code calls for: rent (4000)
    /// day by day, fees (4050) at once, cash (4100) as cash; any other code
    /// records nothing.
    fn process(&self, gl: &mut GeneralLedger) -> (route: Route)
        requires
            self.code() == "4000"@ ==> self.daily_accrual_ready() && postings_fit(old(gl)@, self.daily_accrual_entries()),
            self.code() == "4050"@ ==> self.accrual_ready() && postings_fit(old(gl)@, self.accrual_entries()),
            self.code() == "4100"@ ==> postings_fit(old(gl)@, self.cash_entries()),
        ensures
            route == route_of(self.code()),
            route == Route::DailyAccrual ==> final(gl)@ == apply_postings(old(gl)@, self.daily_accrual_entries()),
            route == Route::Accrual ==> final(gl)@ == apply_postings(old(gl)@, self.accrual_entries()),
            route == Route::Cash ==> final(gl)@ == apply_postings(old(gl)@, self.cash_entries()),
            route == Route::Unrecognized ==> final(gl)@ == old(gl)@,
            forall|d: int| #[trigger] final(gl).day_total(d) == old(gl).day_total(d),
    {
        let code = self.account_code();
        if crate::text::text_eq(code, "4000") {
            self.process_daily_accrual(gl);
            Route::DailyAccrual
        } else if crate::text::text_eq(code, "4050") {
            self.process_accrual(gl);
            Route::Accrual
        } else if crate::text::text_eq(code, "4100") {
            self.process_cash(gl);
            Route::Cash
        } else {
            Route::Unrecognized
        }
    }
}

impl Transaction for Assessment {
    open spec fn payee_start(&self) -> Option<Timestamp> {
        self.service_start_date
    }

    open spec fn payee_end(&self) -> Option<Timestamp> {
        self.service_end_date
    }

    open spec fn payee_pennies(&self) -> int {
        self.amount.pennies as int
    }

    open spec fn code(&self) -> Seq<char> {
        self.account_code@
    }

    open spec fn daily_accrual_ready(&self) -> bool {
        assessment_daily_ready(*self)
    }

    open spec fn daily_accrual_entries(&self) -> Seq<PostingView> {
        assessment_daily_postings(*self)
    }

    open spec fn accrual_ready(&self) -> bool {
        assessment_accrual_ready(*self)
    }

    open spec fn accrual_entries(&self) -> Seq<PostingView> {
        assessment_accrual_postings(*self)
    }

    open spec fn cash_entries(&self) -> Seq<PostingView> {
        Seq::empty()
    }

    fn payee_service_start_date(&self) -> (r: Option<Timestamp>) {
        self.service_start_date
    }

    fn payee_service_end_date(&self) -> (r: Option<Timestamp>) {
        self.service_end_date
    }

    fn payee_amount(&self) -> (r: USD) {
        self.amount
    }

    fn account_code(&self) -> (r: &str) {
        self.account_code.as_str()
    }

    /// Debits each day's share to the receivable account and credits it to
    /// the revenue account.
    fn process_daily_accrual(&self, gl: &mut GeneralLedger) {
        let postings = self.daily_accrual_postings();
        gl.record_postings(&postings);
    }

    /// Debits the whole amount to the receivable account and credits it to
    /// the revenue account, on the effective day.
    fn process_accrual(&self, gl: &mut GeneralLedger) {
        let postings = self.accrual_postings();
        gl.record_postings(&postings);
    }

    /// Records nothing.
    fn process_cash(&self, gl: &mut GeneralLedger) {
    }
}

impl Transaction for Payment {
    open spec fn payee_start(&self) -> Option<Timestamp> {
        self.payee_service_start_date
    }

    open spec fn payee_end(&self) -> Option<Timestamp> {
        self.payee_service_end_date
    }

    open spec fn payee_pennies(&self) -> int {
        self.payee_amount.pennies as int
    }

    open spec fn code(&self) -> Seq<char> {
        self.payee_account_code@
    }

    open spec fn daily_accrual_ready(&self) -> bool {
        payment_credit_pending(*self) || payment_daily_ready(*self)
    }

    open spec fn daily_accrual_entries(&self) -> Seq<PostingView> {
        payment_accrual_postings(*self)
    }

    open spec fn accrual_ready(&self) -> bool {
        true
    }

    open spec fn accrual_entries(&self) -> Seq<PostingView> {
        Seq::empty()
    }

    open spec fn cash_entries(&self) -> Seq<PostingView> {
        Seq::empty()
    }

    fn payee_service_start_date(&self) -> (r: Option<Timestamp>) {
        self.payee_service_start_date
    }

    fn payee_service_end_date(&self) -> (r: Option<Timestamp>) {
        self.payee_service_end_date
    }

    fn payee_amount(&self) -> (r: USD) {
        self.payee_amount
    }

    fn account_code(&self) -> (r: &str) {
        self.payee_account_code.as_str()
    }

    /// Pays the payee: see `Payment::daily_postings`; a credit (4501) whose
    /// payee is not resolved records nothing.
    fn process_daily_accrual(&self, gl: &mut GeneralLedger) {
        let postings = self.accrual_postings();
        gl.record_postings(&postings);
    }

    /// Records nothing.
    fn process_accrual(&self, gl: &mut GeneralLedger) {
    }

    /// Records nothing.
    fn process_cash(&self, gl: &mut GeneralLedger) {
    }
}


impl GeneralLedger {
    /// Records an assessment the way its account code calls for: rent (4000)
    /// day by day, fees (4050) at once; cash (4100) and any other code record
    /// nothing.
    pub fn process_assessment(&mut self, assessment: &Assessment) -> (route: Route)
        requires
            assessment.account_code@ == "4000"@ ==> assessment_daily_ready(*assessment)
                && postings_fit(old(self)@, assessment_daily_postings(*assessment)),
            assessment.account_code@ == "4050"@ ==> assessment_accrual_ready(*assessment)
                && postings_fit(old(self)@, assessment_accrual_postings(*assessment)),
        ensures
            route == route_of(assessment.account_code@),
            route == Route::DailyAccrual ==> final(self)@ == apply_postings(old(self)@, assessment_daily_postings(*assessment)),
            route == Route::Accrual ==> final(self)@ == apply_postings(old(self)@, assessment_accrual_postings(*assessment)),
            route == Route::Cash || route == Route::Unrecognized ==> final(self)@ == old(self)@,
            forall|d: int| #[trigger] final(self).day_total(d) == old(self).day_total(d),
    {
        let code = assessment.account_code();
        if crate::text::text_eq(code, "4000") {
            self.assess_daily(assessment);
            Route::DailyAccrual
        } else if crate::text::text_eq(code, "4050") {
            self.assess_monthly(assessment);
            Route::Accrual
        } else if crate::text::text_eq(code, "4100") {
            Route::Cash
        } else {
            Route::Unrecognized
        }
    }

    fn assess_daily(&mut self, assessment: &Assessment)
        requires
            assessment_daily_ready(*assessment),
            postings_fit(old(self)@, assessment_daily_postings(*assessment)),
        ensures
            final(self)@ == apply_postings(old(self)@, assessment_daily_postings(*assessment)),
            forall|d: int| #[trigger] final(self).day_total(d) == old(self).day_total(d),
    {
        let postings = assessment.daily_accrual_postings();
        self.record_postings(&postings);
    }

    fn assess_monthly(&mut self, assessment: &Assessment)
        requires
            assessment_accrual_ready(*assessment),
            postings_fit(old(self)@, assessment_accrual_postings(*assessment)),
        ensures
            final(self)@ == apply_postings(old(self)@, assessment_accrual_postings(*assessment)),
            forall|d: int| #[trigger] final(self).day_total(d) == old(self).day_total(d),
    {
        let postings = assessment.accrual_postings();
        self.record_postings(&postings);
    }

    /// Records a payment against a payee accrued day by day (payee account
    /// 4000, rent); a payment against any other payee account records nothing.
    pub fn process_payment(&mut self, payment: &Payment) -> (route: Route)
        requires
            payment.payee_account_code@ == "4000"@ ==> payment_daily_ready(*payment)
                && postings_fit(old(self)@, payment_daily_postings(*payment)),
        ensures
            route == (if payment.payee_account_code@ == "4000"@ { Route::DailyAccrual } else { Route::Unrecognized }),
            route == Route::DailyAccrual ==> final(self)@ == apply_postings(old(self)@, payment_daily_postings(*payment)),
            route == Route::Unrecognized ==> final(self)@ == old(self)@,
            forall|d: int| #[trigger] final(self).day_total(d) == old(self).day_total(d),
    {
        let code = payment.account_code();
        if crate::text::text_eq(code, "4000") {
            self.pay_daily(payment);
            Route::DailyAccrual
        } else {
            Route::Unrecognized
        }
    }

    fn pay_daily(&mut self, payment: &Payment)
        requires
            payment_daily_ready(*payment),
            postings_fit(old(self)@, payment_daily_postings(*payment)),
        ensures
            final(self)@ == apply_postings(old(self)@, payment_daily_postings(*payment)),
            forall|d: int| #[trigger] final(self).day_total(d) == old(self).day_total(d),
    {
        let postings = payment.daily_postings();
        self.record_postings(&postings);
    }
}


/// The amounts of a list of double entries.
pub open spec fn posting_amounts(ps: Seq<PostingView>) -> Seq<int> {
    ps.map_values(|p: PostingView| p.amount)
}

/// A payment is split without loss: what settles receivables and what is
/// paid ahead add up to the payment's amount.
pub proof fn lemma_payment_split_is_whole(p: Payment)
    ensures
        payment_to_receivable(p) + payment_to_deferred(p) == p.amount.pennies,
        payment_to_deferred(p) >= 0,
{
}

proof fn lemma_seq_sum_prepend(x: int, s: Seq<int>)
    ensures
        seq_sum(seq![x] + s) == x + seq_sum(s),
    decreases s.len(),
{
    if s.len() == 0 {
        assert(seq![x] + s =~= seq![x]);
        assert(seq![x].drop_last() =~= Seq::<int>::empty());
        assert(seq_sum(Seq::<int>::empty()) == 0);
        assert(seq_sum(s) == 0);
    } else {
        lemma_seq_sum_prepend(x, s.drop_last());
        assert((seq![x] + s).drop_last() =~= seq![x] + s.drop_last());
        assert((seq![x] + s).last() == s.last());
    }
}

/// Where the outstanding amounts are not negative, a payment never releases
/// from deferred revenue more than it deferred: the released amounts are
/// non-negative and add up to at most the deferred remainder.
pub proof fn lemma_drawdown_releases_at_most_deferred(p: Payment, outs: Seq<int>, i: int, rem: int)
    requires
        rem >= 0,
        forall|k: int| 0 <= k < outs.len() ==> #[trigger] outs[k] >= 0,
    ensures
        0 <= seq_sum(posting_amounts(drawdown(p, outs, i, rem))) <= rem,
        forall|k: int| 0 <= k < drawdown(p, outs, i, rem).len() ==> #[trigger] drawdown(p, outs, i, rem)[k].amount >= 0,
    decreases outs.len() - i,
{
    let d = drawdown(p, outs, i, rem);
    if i < 0 || i >= outs.len() || rem == 0 {
        assert(posting_amounts(d) =~= Seq::<int>::empty());
    } else {
        let next = if outs[i] <= rem { rem - outs[i] } else { 0 };
        lemma_drawdown_releases_at_most_deferred(p, outs, i + 1, next);
        let rest = drawdown(p, outs, i + 1, next);
        assert(posting_amounts(d) =~= seq![d[0].amount] + posting_amounts(rest));
        lemma_seq_sum_prepend(d[0].amount, posting_amounts(rest));
        assert forall|k: int| 0 <= k < d.len() implies #[trigger] d[k].amount >= 0 by {
            if k > 0 {
                assert(d[k] == rest[k - 1]);
            }
        }
    }
}

/// With nothing paid before, every daily amount is still owed.
pub proof fn lemma_nothing_paid_before(amounts: Seq<int>, paid: int)
    requires
        paid <= 0,
    ensures
        outstanding(amounts, paid) == amounts,
    decreases amounts.len(),
{
    if amounts.len() > 0 {
        lemma_nothing_paid_before(amounts.drop_first(), paid);
        assert(outstanding(amounts, paid) =~= amounts);
    } else {
        assert(outstanding(amounts, paid) =~= amounts);
    }
}


/// Accruing an assessment day by day moves each day's share, on that day,
/// from the revenue account into its receivable account: on day `i` of the
/// service period the receivable balance grows by the share and the revenue
/// balance shrinks by it, whatever the ledger held before.
pub proof fn lemma_daily_accrual_balances(m: Map<(int, Seq<char>), int>, a: Assessment, i: int)
    requires
        assessment_daily_ready(a),
        0 <= i < service_days(a.service_start_date.unwrap(), a.service_end_date.unwrap()),
    ensures
        apply_postings(m, assessment_daily_postings(a)).contains_key(
            (assessment_daily_postings(a)[i].day, receivable_code_of(a.account_code@).unwrap()),
        ),
        apply_postings(m, assessment_daily_postings(a)).contains_key((assessment_daily_postings(a)[i].day, a.account_code@)),
        assessment_daily_postings(a)[i].day == day_number(a.service_start_date.unwrap().secs + SECONDS_PER_DAY * i),
        balance(
            apply_postings(m, assessment_daily_postings(a)),
            (assessment_daily_postings(a)[i].day, receivable_code_of(a.account_code@).unwrap()),
        ) == balance(m, (assessment_daily_postings(a)[i].day, receivable_code_of(a.account_code@).unwrap()))
            + per_day_amount(
            a.amount.pennies as int,
            service_days(a.service_start_date.unwrap(), a.service_end_date.unwrap()),
            i,
        ),
        balance(apply_postings(m, assessment_daily_postings(a)), (assessment_daily_postings(a)[i].day, a.account_code@))
            == balance(m, (assessment_daily_postings(a)[i].day, a.account_code@)) - per_day_amount(
            a.amount.pennies as int,
            service_days(a.service_start_date.unwrap(), a.service_end_date.unwrap()),
            i,
        ),
{
    let ps = assessment_daily_postings(a);
    let start = a.service_start_date.unwrap().secs as int;
    let receivable = receivable_code_of(a.account_code@).unwrap();
    let revenue = a.account_code@;
    reveal_strlit("4000");
    reveal_strlit("4050");
    reveal_strlit("1101");
    reveal_strlit("1103");
    assert(receivable != revenue) by {
        if a.account_code@ == "4000"@ {
            assert(receivable[0] == '1');
            assert(revenue[0] == '4');
        } else {
            assert(receivable[0] == '1');
            assert(revenue[0] == '4');
        }
    }
    let day = ps[i].day;
    lemma_day_number_shift(start, i);
    assert forall|l: int| 0 <= l < ps.len() && l != i implies ps[l].day != day by {
        lemma_day_number_shift(start, l);
    }
    let kr = (day, receivable);
    let kv = (day, revenue);
    assert forall|l: int| 0 <= l < ps.len() && l != i implies !#[trigger] touches(ps[l], kr) by {
        lemma_day_number_shift(start, l);
    }
    assert forall|l: int| 0 <= l < ps.len() && l != i implies !#[trigger] touches(ps[l], kv) by {
        lemma_day_number_shift(start, l);
    }
    lemma_net_change_single(ps, kr, i);
    lemma_net_change_single(ps, kv, i);
    lemma_apply_postings_balance(m, ps, kr);
    lemma_apply_postings_balance(m, ps, kv);
    assert(touches(ps[i], kr));
    assert(touches(ps[i], kv));
}


/// Every release in a drawdown moves money from the payee's deferred account
/// to its receivable account, on a day of the service period.
proof fn lemma_drawdown_accounts(p: Payment, outs: Seq<int>, i: int, rem: int)
    ensures
        forall|j: int| 0 <= j < drawdown(p, outs, i, rem).len() ==> {
            &&& (#[trigger] drawdown(p, outs, i, rem)[j]).debit == deferred_code_of(p.payee_account_code@).unwrap()
            &&& drawdown(p, outs, i, rem)[j].credit == receivable_code_of(p.payee_account_code@).unwrap()
        },
    decreases outs.len() - i,
{
    if !(i < 0 || i >= outs.len() || rem == 0) {
        let next = if outs[i] <= rem { rem - outs[i] } else { 0 };
        lemma_drawdown_accounts(p, outs, i + 1, next);
        let d = drawdown(p, outs, i, rem);
        let rest = drawdown(p, outs, i + 1, next);
        assert forall|j: int| 0 < j < d.len() implies d[j] == rest[j - 1] by {}
    }
}

/// A payment deposits exactly its amount into its own account on its day,
/// where that account is neither the payee's receivable nor its deferred one.
pub proof fn lemma_payment_deposits_amount(m: Map<(int, Seq<char>), int>, p: Payment)
    requires
        p.account_code@ != receivable_code_of(p.payee_account_code@).unwrap(),
        p.account_code@ != deferred_code_of(p.payee_account_code@).unwrap(),
    ensures
        balance(apply_postings(m, payment_daily_postings(p)), (day_number(p.effective_on.secs as int), p.account_code@))
            == balance(m, (day_number(p.effective_on.secs as int), p.account_code@)) + p.amount.pennies,
{
    let k = (day_number(p.effective_on.secs as int), p.account_code@);
    let day = day_number(p.effective_on.secs as int);
    let receivable = receivable_code_of(p.payee_account_code@).unwrap();
    let deferred = deferred_code_of(p.payee_account_code@).unwrap();
    let first = seq![PostingView { day, amount: payment_to_receivable(p), debit: p.account_code@, credit: receivable }];
    let second = if payment_to_deferred(p) > 0 {
        seq![PostingView { day, amount: payment_to_deferred(p), debit: p.account_code@, credit: deferred }]
    } else {
        Seq::empty()
    };
    let rest = drawdown(p, payment_outstanding(p), payment_cut(p), payment_to_deferred(p));
    assert(payment_daily_postings(p) == first + second + rest);
    lemma_drawdown_accounts(p, payment_outstanding(p), payment_cut(p), payment_to_deferred(p));
    assert forall|l: int| 0 <= l < rest.len() implies !#[trigger] touches(rest[l], k) by {}
    lemma_net_change_untouched(rest, k);
    lemma_net_change_concat(first + second, rest, k);
    lemma_net_change_concat(first, second, k);
    assert(first.drop_first() =~= Seq::<PostingView>::empty());
    assert(net_change(Seq::<PostingView>::empty(), k) == 0);
    assert(net_change(first, k) == payment_to_receivable(p));
    if payment_to_deferred(p) > 0 {
        assert(second.drop_first() =~= Seq::<PostingView>::empty());
        assert(net_change(second, k) == payment_to_deferred(p));
    } else {
        assert(net_change(second, k) == 0);
    }
    lemma_payment_split_is_whole(p);
    lemma_apply_postings_balance(m, payment_daily_postings(p), k);
}


/// The sum of `outs` from index `i` on.
pub open spec fn suffix_sum(outs: Seq<int>, i: int) -> int
    decreases outs.len() - i,
{
    if i < 0 || i >= outs.len() {
        0
    } else {
        outs[i] + suffix_sum(outs, i + 1)
    }
}

proof fn lemma_suffix_sum_nonneg(outs: Seq<int>, i: int)
    requires
        forall|k: int| 0 <= k < outs.len() ==> #[trigger] outs[k] >= 0,
    ensures
        suffix_sum(outs, i) >= 0,
    decreases outs.len() - i,
{
    if !(i < 0 || i >= outs.len()) {
        lemma_suffix_sum_nonneg(outs, i + 1);
    }
}

proof fn lemma_prefix_plus_suffix(s: Seq<int>, k: int)
    requires
        0 <= k <= s.len(),
    ensures
        seq_sum(s.take(k)) + suffix_sum(s, k) == seq_sum(s),
    decreases s.len() - k,
{
    if k == s.len() {
        assert(s.take(k) =~= s);
    } else {
        lemma_prefix_plus_suffix(s, k + 1);
        assert(s.take(k + 1).drop_last() =~= s.take(k));
        assert(s.take(k + 1).last() == s[k]);
    }
}

proof fn lemma_drawdown_total(p: Payment, outs: Seq<int>, i: int, rem: int)
    requires
        rem >= 0,
        i >= 0,
        forall|k: int| 0 <= k < outs.len() ==> #[trigger] outs[k] >= 0,
    ensures
        seq_sum(posting_amounts(drawdown(p, outs, i, rem))) == if rem <= suffix_sum(outs, i) {
            rem
        } else {
            suffix_sum(outs, i)
        },
    decreases outs.len() - i,
{
    let d = drawdown(p, outs, i, rem);
    lemma_suffix_sum_nonneg(outs, i);
    if i >= outs.len() || rem == 0 {
        assert(posting_amounts(d) =~= Seq::<int>::empty());
    } else {
        let next = if outs[i] <= rem { rem - outs[i] } else { 0 };
        lemma_drawdown_total(p, outs, i + 1, next);
        lemma_suffix_sum_nonneg(outs, i + 1);
        let rest = drawdown(p, outs, i + 1, next);
        assert(posting_amounts(d) =~= seq![d[0].amount] + posting_amounts(rest));
        lemma_seq_sum_prepend(d[0].amount, posting_amounts(rest));
        if outs[i] > rem {
            assert(posting_amounts(rest) =~= Seq::<int>::empty());
        }
    }
}

/// For a non-negative payment against a non-negative payee, the payment
/// clears as much receivable as it can: in all (what settles receivables on
/// the payment's day and what is released against the following days) it
/// clears the smaller of its amount and the payee's outstanding amount, and
/// only what exceeds the outstanding amount stays deferred. With nothing paid
/// before, the outstanding amount is the payee's whole amount.
pub proof fn lemma_payment_settles_then_defers(p: Payment)
    requires
        service_period_ok(p.payee_service_start_date, p.payee_service_end_date),
        p.effective_on.valid(),
        instant_nanos(p.payee_service_start_date.unwrap()) <= instant_nanos(p.effective_on),
        p.amount.pennies >= 0,
        p.payee_amount.pennies >= 0,
    ensures
        payment_to_receivable(p) + seq_sum(
            posting_amounts(drawdown(p, payment_outstanding(p), payment_cut(p), payment_to_deferred(p))),
        ) == if p.amount.pennies <= seq_sum(payment_outstanding(p)) {
            p.amount.pennies as int
        } else {
            seq_sum(payment_outstanding(p))
        },
        payment_to_deferred(p) - seq_sum(
            posting_amounts(drawdown(p, payment_outstanding(p), payment_cut(p), payment_to_deferred(p))),
        ) == if p.amount.pennies <= seq_sum(payment_outstanding(p)) {
            0
        } else {
            p.amount.pennies - seq_sum(payment_outstanding(p))
        },
        p.previously_paid_amount.pennies <= 0 ==> seq_sum(payment_outstanding(p)) == p.payee_amount.pennies,
{
    let start = p.payee_service_start_date.unwrap();
    let end = p.payee_service_end_date.unwrap();
    let n = service_days(start, end);
    let total = p.payee_amount.pennies as int;
    let paid = p.previously_paid_amount.pennies as int;
    let a = schedule_amounts(total, n);
    let outs = payment_outstanding(p);
    lemma_whole_days_bounds(end, start);
    lemma_whole_days_bounds(p.effective_on, start);
    let cut = payment_cut(p);
    assert(0 <= cut <= n);
    lemma_quot_rem(total, n);
    lemma_outstanding_shape(a, paid);
    assert forall|k: int| 0 <= k < outs.len() implies #[trigger] outs[k] >= 0 by {
        assert(a[k] == per_day_amount(total, n, k));
    }
    lemma_outstanding_prefix_bounded(total, n, paid, cut);
    lemma_prefix_plus_suffix(outs, cut);
    lemma_suffix_sum_nonneg(outs, cut);
    lemma_drawdown_total(p, outs, cut, payment_to_deferred(p));
    if paid <= 0 {
        lemma_nothing_paid_before(a, paid);
        lemma_schedule_conserves_total(total, n);
    }
}

/// The sum of non-negative amounts is not negative.
proof fn lemma_seq_sum_nonneg(s: Seq<int>)
    requires
        forall|k: int| 0 <= k < s.len() ==> #[trigger] s[k] >= 0,
    ensures
        seq_sum(s) >= 0,
{
    lemma_prefix_sums_ordered(s, s, s.len() as int);
    assert(s.take(s.len() as int) =~= s);
}

/// Earlier payments are taken day by day and lose nothing: where the daily
/// amounts and what was paid before are not negative, what stays owed adds
/// up to the amounts' total less what was paid (none where that is more),
/// and each day keeps its amount less the part of the earlier payments left
/// after the days before it (a day only partly covered keeps the remainder).
pub proof fn lemma_outstanding_takes_paid_in_order(amounts: Seq<int>, paid: int)
    requires
        paid >= 0,
        forall|k: int| 0 <= k < amounts.len() ==> #[trigger] amounts[k] >= 0,
    ensures
        outstanding(amounts, paid).len() == amounts.len(),
        seq_sum(outstanding(amounts, paid)) == if seq_sum(amounts) <= paid {
            0
        } else {
            seq_sum(amounts) - paid
        },
        forall|i: int|
            0 <= i < amounts.len() ==> #[trigger] outstanding(amounts, paid)[i] == amounts[i] - {
                let left = paid - seq_sum(amounts.take(i));
                if left <= 0 {
                    0
                } else if amounts[i] <= left {
                    amounts[i]
                } else {
                    left
                }
            },
    decreases amounts.len(),
{
    let o = outstanding(amounts, paid);
    if amounts.len() == 0 {
        assert(o =~= Seq::<int>::empty());
    } else {
        let x = amounts[0];
        let rest = amounts.drop_first();
        let covered = if paid > 0 && x > 0 {
            if paid < x { paid } else { x }
        } else {
            0
        };
        assert(covered == if paid < x { paid } else { x });
        assert forall|k: int| 0 <= k < rest.len() implies #[trigger] rest[k] >= 0 by {
            assert(rest[k] == amounts[k + 1]);
        }
        lemma_outstanding_takes_paid_in_order(rest, paid - covered);
        let ro = outstanding(rest, paid - covered);
        assert(o == seq![x - covered] + ro);
        assert(amounts =~= seq![x] + rest);
        lemma_seq_sum_prepend(x, rest);
        lemma_seq_sum_prepend(x - covered, ro);
        lemma_seq_sum_nonneg(rest);
        assert forall|i: int| 0 <= i < amounts.len() implies #[trigger] o[i] == amounts[i] - {
            let left = paid - seq_sum(amounts.take(i));
            if left <= 0 {
                0
            } else if amounts[i] <= left {
                amounts[i]
            } else {
                left
            }
        } by {
            if i == 0 {
                assert(amounts.take(0) =~= Seq::<int>::empty());
            } else {
                assert(amounts.take(i) =~= seq![x] + rest.take(i - 1));
                lemma_seq_sum_prepend(x, rest.take(i - 1));
                assert(o[i] == ro[i - 1]);
                assert(amounts[i] == rest[i - 1]);
                assert forall|k: int| 0 <= k < rest.take(i - 1).len() implies #[trigger] rest.take(i - 1)[k] >= 0 by {
                    assert(rest.take(i - 1)[k] == rest[k]);
                }
                lemma_seq_sum_nonneg(rest.take(i - 1));
            }
        }
    }
}

/// A payment's outstanding daily amounts add up to the payee's amount less
/// what earlier payments covered, and to nothing once those covered it all.
pub proof fn lemma_payment_outstanding_total(p: Payment)
    requires
        service_period_ok(p.payee_service_start_date, p.payee_service_end_date),
        p.payee_amount.pennies >= 0,
        p.previously_paid_amount.pennies >= 0,
    ensures
        seq_sum(payment_outstanding(p)) == if p.payee_amount.pennies <= p.previously_paid_amount.pennies {
            0
        } else {
            p.payee_amount.pennies - p.previously_paid_amount.pennies
        },
{
    let start = p.payee_service_start_date.unwrap();
    let end = p.payee_service_end_date.unwrap();
    let n = service_days(start, end);
    let total = p.payee_amount.pennies as int;
    let a = schedule_amounts(total, n);
    lemma_whole_days_bounds(end, start);
    lemma_quot_rem(total, n);
    assert forall|k: int| 0 <= k < a.len() implies #[trigger] a[k] >= 0 by {
        assert(a[k] == per_day_amount(total, n, k));
    }
    lemma_schedule_conserves_total(total, n);
    lemma_outstanding_takes_paid_in_order(a, p.previously_paid_amount.pennies as int);
}

/// The receivable days of a payment are the whole days elapsed from the
/// payee's service start to the payment, capped at the number of days of the
/// service period.
pub proof fn lemma_payment_cut_is_elapsed_days(p: Payment)
    requires
        service_period_ok(p.payee_service_start_date, p.payee_service_end_date),
        p.effective_on.valid(),
        instant_nanos(p.payee_service_start_date.unwrap()) <= instant_nanos(p.effective_on),
    ensures
        ({
            let start = p.payee_service_start_date.unwrap();
            let n = service_days(start, p.payee_service_end_date.unwrap());
            let elapsed = whole_days(p.effective_on, start);
            &&& payment_cut(p) == if elapsed <= n { elapsed } else { n }
            &&& 0 <= payment_cut(p) <= n
            &&& n >= 1
        }),
{
    let start = p.payee_service_start_date.unwrap();
    lemma_whole_days_bounds(p.payee_service_end_date.unwrap(), start);
    lemma_whole_days_bounds(p.effective_on, start);
}

/// A payment made once every day of the payee's service period has elapsed,
/// of no more than is still owed, settles the receivable with all of its
/// amount and defers nothing: its only double entry is the payment into the
/// receivable account on its day.
pub proof fn lemma_late_payment_defers_nothing(p: Payment)
    requires
        service_period_ok(p.payee_service_start_date, p.payee_service_end_date),
        p.effective_on.valid(),
        whole_days(p.effective_on, p.payee_service_start_date.unwrap()) >= service_days(
            p.payee_service_start_date.unwrap(),
            p.payee_service_end_date.unwrap(),
        ),
        0 <= p.amount.pennies <= seq_sum(payment_outstanding(p)),
    ensures
        payment_creditable(p) == seq_sum(payment_outstanding(p)),
        payment_to_receivable(p) == p.amount.pennies,
        payment_to_deferred(p) == 0,
        payment_daily_postings(p) == seq![
            PostingView {
                day: day_number(p.effective_on.secs as int),
                amount: p.amount.pennies as int,
                debit: p.account_code@,
                credit: receivable_code_of(p.payee_account_code@).unwrap(),
            },
        ],
{
    let start = p.payee_service_start_date.unwrap();
    let n = service_days(start, p.payee_service_end_date.unwrap());
    let a = schedule_amounts(p.payee_amount.pennies as int, n);
    lemma_whole_days_bounds(p.payee_service_end_date.unwrap(), start);
    lemma_outstanding_shape(a, p.previously_paid_amount.pennies as int);
    assert(payment_cut(p) == n);
    assert(payment_outstanding(p).take(n) =~= payment_outstanding(p));
    assert(drawdown(p, payment_outstanding(p), payment_cut(p), payment_to_deferred(p)) =~= Seq::<PostingView>::empty());
    assert(payment_daily_postings(p) =~= seq![
        PostingView {
            day: day_number(p.effective_on.secs as int),
            amount: p.amount.pennies as int,
            debit: p.account_code@,
            credit: receivable_code_of(p.payee_account_code@).unwrap(),
        },
    ]);
}

/// Accruing an assessment at once touches only its effective day, whatever
/// its service dates: the receivable balance on that day grows by the
/// assessment's amount, the revenue balance on that day shrinks by it, and
/// every other balance stays as it was.
pub proof fn lemma_accrual_books_on_effective_day(m: Map<(int, Seq<char>), int>, a: Assessment, k: (int, Seq<char>))
    requires
        assessment_accrual_ready(a),
    ensures
        receivable_code_of(a.account_code@).unwrap() != a.account_code@,
        balance(apply_postings(m, assessment_accrual_postings(a)), k) == balance(m, k) + (if k == (
            day_number(a.effective_on.secs as int),
            receivable_code_of(a.account_code@).unwrap(),
        ) {
            a.amount.pennies as int
        } else {
            0
        }) - (if k == (day_number(a.effective_on.secs as int), a.account_code@) {
            a.amount.pennies as int
        } else {
            0
        }),
{
    let ps = assessment_accrual_postings(a);
    let receivable = receivable_code_of(a.account_code@).unwrap();
    let revenue = a.account_code@;
    reveal_strlit("4000");
    reveal_strlit("4050");
    reveal_strlit("1101");
    reveal_strlit("1103");
    assert(receivable != revenue) by {
        assert(receivable[0] == '1');
        assert(revenue[0] == '4');
    }
    assert(ps.drop_first() =~= Seq::<PostingView>::empty());
    assert(net_change(ps.drop_first(), k) == 0);
    lemma_apply_postings_balance(m, ps, k);
}

/// The release for index `i + j` of the payee's service period is the `j`th
/// entry of the drawdown from index `i`: each release falls on the day that
/// lies that many days after the service start, and there is at most one
/// release per remaining day of the period.
pub proof fn lemma_drawdown_days(p: Payment, outs: Seq<int>, i: int, rem: int)
    requires
        i >= 0,
    ensures
        i <= outs.len() ==> drawdown(p, outs, i, rem).len() <= outs.len() - i,
        i > outs.len() ==> drawdown(p, outs, i, rem).len() == 0,
        forall|j: int|
            0 <= j < drawdown(p, outs, i, rem).len() ==> #[trigger] drawdown(p, outs, i, rem)[j].day == day_number(
                p.payee_service_start_date.unwrap().secs + SECONDS_PER_DAY * (i + j),
            ),
    decreases outs.len() - i,
{
    if !(i >= outs.len() || rem == 0) {
        let next = if outs[i] <= rem { rem - outs[i] } else { 0 };
        lemma_drawdown_days(p, outs, i + 1, next);
        let d = drawdown(p, outs, i, rem);
        let rest = drawdown(p, outs, i + 1, next);
        assert forall|j: int| 0 < j < d.len() implies d[j] == rest[j - 1] by {}
        assert forall|j: int| 0 <= j < d.len() implies #[trigger] d[j].day == day_number(
            p.payee_service_start_date.unwrap().secs + SECONDS_PER_DAY * (i + j),
        ) by {
            if j > 0 {
                assert(d[j] == rest[j - 1]);
                assert(i + 1 + (j - 1) == i + j);
            }
        }
    }
}

/// Every release of deferred revenue that a payment makes falls on a day of
/// the payee's service period, counted from the service start (whatever the
/// payee's own effective date): the `j`th release is dated the day that lies
/// `payment_cut(p) + j` days after the service start, and that day lies
/// between the first and the last day of the service period.
pub proof fn lemma_payment_releases_within_service(p: Payment)
    requires
        service_period_ok(p.payee_service_start_date, p.payee_service_end_date),
        p.effective_on.valid(),
        instant_nanos(p.payee_service_start_date.unwrap()) <= instant_nanos(p.effective_on),
    ensures
        forall|j: int|
            0 <= j < drawdown(p, payment_outstanding(p), payment_cut(p), payment_to_deferred(p)).len() ==> {
                let start = p.payee_service_start_date.unwrap();
                let end = p.payee_service_end_date.unwrap();
                let day = (#[trigger] drawdown(p, payment_outstanding(p), payment_cut(p), payment_to_deferred(p))[j]).day;
                &&& 0 <= payment_cut(p) + j < service_days(start, end)
                &&& day == day_number(start.secs + SECONDS_PER_DAY * (payment_cut(p) + j))
                &&& day_number(start.secs as int) <= day <= day_number(end.secs as int)
            },
{
    let start = p.payee_service_start_date.unwrap();
    let end = p.payee_service_end_date.unwrap();
    let n = service_days(start, end);
    let outs = payment_outstanding(p);
    let cut = payment_cut(p);
    let d = drawdown(p, outs, cut, payment_to_deferred(p));
    lemma_whole_days_bounds(end, start);
    lemma_whole_days_bounds(p.effective_on, start);
    lemma_outstanding_shape(schedule_amounts(p.payee_amount.pennies as int, n), p.previously_paid_amount.pennies as int);
    assert(outs.len() == n);
    lemma_drawdown_days(p, outs, cut, payment_to_deferred(p));
    let last = whole_days(end, start);
    lemma_day_number_shift(start.secs as int, last);
    vstd::arithmetic::div_mod::lemma_div_is_ordered(
        start.secs + SECONDS_PER_DAY * last,
        end.secs as int,
        SECONDS_PER_DAY as int,
    );
    assert forall|j: int| 0 <= j < d.len() implies {
        let day = (#[trigger] d[j]).day;
        &&& 0 <= cut + j < n
        &&& day == day_number(start.secs + SECONDS_PER_DAY * (cut + j))
        &&& day_number(start.secs as int) <= day <= day_number(end.secs as int)
    } by {
        lemma_day_number_shift(start.secs as int, cut + j);
    }
}

/// Each release of a drawdown from index `i` with remainder `rem` is that
/// day's own outstanding amount where what is left of the remainder (after
/// the days released before it) covers it, and otherwise only what is left.
pub proof fn lemma_drawdown_amounts(p: Payment, outs: Seq<int>, i: int, rem: int)
    requires
        i >= 0,
    ensures
        forall|j: int|
            0 <= j < drawdown(p, outs, i, rem).len() ==> i + j < outs.len() && #[trigger] drawdown(p, outs, i, rem)[j].amount
                == {
                let left = rem - seq_sum(outs.subrange(i, i + j));
                if outs[i + j] <= left {
                    outs[i + j]
                } else {
                    left
                }
            },
    decreases outs.len() - i,
{
    if !(i >= outs.len() || rem == 0) {
        let next = if outs[i] <= rem { rem - outs[i] } else { 0 };
        lemma_drawdown_amounts(p, outs, i + 1, next);
        let d = drawdown(p, outs, i, rem);
        let rest = drawdown(p, outs, i + 1, next);
        assert forall|j: int| 0 <= j < d.len() implies i + j < outs.len() && #[trigger] d[j].amount == {
            let left = rem - seq_sum(outs.subrange(i, i + j));
            if outs[i + j] <= left {
                outs[i + j]
            } else {
                left
            }
        } by {
            if j == 0 {
                assert(outs.subrange(i, i) =~= Seq::<int>::empty());
            } else {
                assert(d[j] == rest[j - 1]);
                assert(rest[j - 1].amount == d[j].amount);
                assert(i + 1 + (j - 1) < outs.len());
                assert(outs[i] <= rem) by {
                    if outs[i] > rem {
                        assert(rest =~= Seq::<PostingView>::empty());
                    }
                }
                assert(outs.subrange(i, i + j) =~= seq![outs[i]] + outs.subrange(i + 1, i + 1 + (j - 1)));
                lemma_seq_sum_prepend(outs[i], outs.subrange(i + 1, i + 1 + (j - 1)));
            }
        }
    }
}

} // verus!
