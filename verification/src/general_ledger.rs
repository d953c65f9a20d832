use vstd::prelude::*;

use crate::text::{text_eq, compare_text, text_lt, lemma_text_lt_irreflexive, lemma_text_lt_transitive, Cmp};
use crate::time::Day;
use crate::usd::USD;

verus! {

/// One balance of the ledger, as a mathematical value: the balance of
/// `account` on `day` (a day number from the common era), in pennies.
pub struct EntryView {
    pub day: int,
    pub account: Seq<char>,
    pub amount: int,
}

/// A key of the ledger: a day number and an account code.
pub type LedgerKey = (int, Seq<char>);

/// The order of the ledger's keys: by day, then by account code as text.
pub open spec fn key_lt(a: EntryView, b: EntryView) -> bool {
    a.day < b.day || (a.day == b.day && text_lt(a.account, b.account))
}

/// The key of a balance.
pub open spec fn key_of(e: EntryView) -> LedgerKey {
    (e.day, e.account)
}

/// Balances in strictly increasing order of their keys (so no key occurs twice).
pub open spec fn lines_sorted(s: Seq<EntryView>) -> bool {
    forall|i: int, j: int| 0 <= i < j < s.len() ==> #[trigger] key_lt(s[i], s[j])
}

/// Whether some balance in `s` has key `k`.
pub open spec fn lines_have(s: Seq<EntryView>, k: LedgerKey) -> bool {
    exists|i: int| 0 <= i < s.len() && #[trigger] key_of(s[i]) == k
}

/// The map from keys to balances that a list of balances holds.
pub open spec fn lines_map(s: Seq<EntryView>) -> Map<LedgerKey, int> {
    Map::new(
        |k: LedgerKey| lines_have(s, k),
        |k: LedgerKey| s[choose|i: int| 0 <= i < s.len() && #[trigger] key_of(s[i]) == k].amount,
    )
}

/// The sum of the balances of all accounts on day `d`.
pub open spec fn day_sum(s: Seq<EntryView>, d: int) -> int
    decreases s.len(),
{
    if s.len() == 0 {
        0
    } else {
        day_sum(s.drop_last(), d) + if s.last().day == d {
            s.last().amount
        } else {
            0
        }
    }
}

/// The balance of key `k` in `m`, zero where `m` has none.
pub open spec fn balance(m: Map<LedgerKey, int>, k: LedgerKey) -> int {
    if m.contains_key(k) {
        m[k]
    } else {
        0
    }
}

/// `m` after adding `delta` to the balance of `k` (opening it at zero where absent).
pub open spec fn adjusted(m: Map<LedgerKey, int>, k: LedgerKey, delta: int) -> Map<LedgerKey, int> {
    m.insert(k, balance(m, k) + delta)
}

/// Whether a sum fits in an `i64`.
pub open spec fn fits_i64(x: int) -> bool {
    i64::MIN <= x <= i64::MAX
}

/// `m` after a double entry of `amount` on `day`: debited to `debit`, then
/// credited to `credit`.
pub open spec fn posted(m: Map<LedgerKey, int>, day: int, amount: int, debit: Seq<char>, credit: Seq<char>) -> Map<LedgerKey, int> {
    adjusted(adjusted(m, (day, debit), amount), (day, credit), -amount)
}

/// Whether the double entry `posted` describes keeps both balances in an `i64`.
pub open spec fn posting_fits(m: Map<LedgerKey, int>, day: int, amount: int, debit: Seq<char>, credit: Seq<char>) -> bool {
    &&& fits_i64(balance(m, (day, debit)) + amount)
    &&& fits_i64(balance(adjusted(m, (day, debit), amount), (day, credit)) - amount)
}

/// A double entry: `amount` debited to one account and credited to another on one day.
pub struct Posting {
    pub date: Day,
    pub amount: USD,
    pub debit_account: String,
    pub credit_account: String,
}

/// A double entry as a mathematical value.
pub struct PostingView {
    pub day: int,
    pub amount: int,
    pub debit: Seq<char>,
    pub credit: Seq<char>,
}

impl View for Posting {
    type V = PostingView;

    open spec fn view(&self) -> PostingView {
        PostingView {
            day: self.date.days_from_ce as int,
            amount: self.amount.pennies as int,
            debit: self.debit_account@,
            credit: self.credit_account@,
        }
    }
}

/// The values of a list of double entries.
pub open spec fn posting_views(ps: Seq<Posting>) -> Seq<PostingView> {
    ps.map_values(|p: Posting| p@)
}

/// `m` after the double entries `ps`, in order.
pub open spec fn apply_postings(m: Map<LedgerKey, int>, ps: Seq<PostingView>) -> Map<LedgerKey, int>
    decreases ps.len(),
{
    if ps.len() == 0 {
        m
    } else {
        apply_postings(posted(m, ps[0].day, ps[0].amount, ps[0].debit, ps[0].credit), ps.drop_first())
    }
}

/// Whether the double entries `ps`, made in order from `m`, keep every balance in an `i64`.
pub open spec fn postings_fit(m: Map<LedgerKey, int>, ps: Seq<PostingView>) -> bool
    decreases ps.len(),
{
    ps.len() == 0 || {
        &&& posting_fits(m, ps[0].day, ps[0].amount, ps[0].debit, ps[0].credit)
        &&& postings_fit(posted(m, ps[0].day, ps[0].amount, ps[0].debit, ps[0].credit), ps.drop_first())
    }
}

#[derive(Debug)]
struct Entry {
    day: Day,
    account: String,
    amount: USD,
}

impl Entry {
    spec fn view(&self) -> EntryView {
        EntryView { day: self.day.days_from_ce as int, account: self.account@, amount: self.amount.pennies as int }
    }
}

spec fn entry_views(s: Seq<Entry>) -> Seq<EntryView> {
    s.map_values(|e: Entry| e.view())
}

/// A general ledger: the balance of each account on each day, by double entry.
#[derive(Debug)]
pub struct GeneralLedger {
    entries: Vec<Entry>,
}


proof fn lemma_key_lt_irreflexive(a: EntryView)
    ensures
        !key_lt(a, a),
{
    lemma_text_lt_irreflexive(a.account);
}

proof fn lemma_key_lt_transitive(a: EntryView, b: EntryView, c: EntryView)
    requires
        key_lt(a, b),
        key_lt(b, c),
    ensures
        key_lt(a, c),
{
    if a.day == b.day && b.day == c.day {
        lemma_text_lt_transitive(a.account, b.account, c.account);
    }
}

proof fn lemma_key_lt_distinct(a: EntryView, b: EntryView)
    requires
        key_lt(a, b),
    ensures
        key_of(a) != key_of(b),
        !key_lt(b, a),
{
    lemma_text_lt_irreflexive(a.account);
    if key_lt(b, a) {
        lemma_key_lt_transitive(a, b, a);
        lemma_key_lt_irreflexive(a);
    }
}

/// In a sorted list, the balance at index `i` is the one the map gives for its key.
proof fn lemma_lines_lookup(s: Seq<EntryView>, i: int)
    requires
        lines_sorted(s),
        0 <= i < s.len(),
    ensures
        lines_map(s).contains_key(key_of(s[i])),
        lines_map(s)[key_of(s[i])] == s[i].amount,
{
    let k = key_of(s[i]);
    assert(lines_have(s, k));
    let j = choose|j: int| 0 <= j < s.len() && #[trigger] key_of(s[j]) == k;
    if j < i {
        assert(key_lt(s[j], s[i]));
        lemma_key_lt_distinct(s[j], s[i]);
    } else if i < j {
        assert(key_lt(s[i], s[j]));
        lemma_key_lt_distinct(s[i], s[j]);
    }
}

/// Replacing a balance by another with the same key.
proof fn lemma_lines_update(s: Seq<EntryView>, i: int, e: EntryView)
    requires
        lines_sorted(s),
        0 <= i < s.len(),
        key_of(e) == key_of(s[i]),
    ensures
        lines_sorted(s.update(i, e)),
        lines_map(s.update(i, e)) == lines_map(s).insert(key_of(e), e.amount),
{
    let t = s.update(i, e);
    assert forall|a: int, b: int| 0 <= a < b < t.len() implies #[trigger] key_lt(t[a], t[b]) by {
        assert(key_lt(s[a], s[b]));
    }
    let m = lines_map(s).insert(key_of(e), e.amount);
    assert forall|k: LedgerKey| #[trigger] lines_map(t).contains_key(k) <==> m.contains_key(k) by {
        if lines_have(t, k) {
            let j = choose|j: int| 0 <= j < t.len() && #[trigger] key_of(t[j]) == k;
            if j != i {
                assert(key_of(s[j]) == k);
            }
        }
        if lines_have(s, k) {
            let j = choose|j: int| 0 <= j < s.len() && #[trigger] key_of(s[j]) == k;
            assert(key_of(t[j]) == k);
        }
        if k == key_of(e) {
            assert(key_of(t[i]) == k);
        }
    }
    assert forall|k: LedgerKey| #[trigger] lines_map(t).contains_key(k) implies lines_map(t)[k] == m[k] by {
        let j = choose|j: int| 0 <= j < t.len() && #[trigger] key_of(t[j]) == k;
        lemma_lines_lookup(t, j);
        if j < i {
            assert(key_lt(t[j], t[i]));
            lemma_key_lt_distinct(t[j], t[i]);
            lemma_lines_lookup(s, j);
        } else if j > i {
            assert(key_lt(t[i], t[j]));
            lemma_key_lt_distinct(t[i], t[j]);
            lemma_lines_lookup(s, j);
        }
    }
    assert(lines_map(t) =~= m);
}

/// Inserting a balance whose key falls strictly between its neighbours.
proof fn lemma_lines_insert(s: Seq<EntryView>, p: int, e: EntryView)
    requires
        lines_sorted(s),
        0 <= p <= s.len(),
        forall|j: int| 0 <= j < p ==> #[trigger] key_lt(s[j], e),
        forall|j: int| p <= j < s.len() ==> #[trigger] key_lt(e, s[j]),
    ensures
        lines_sorted(s.insert(p, e)),
        !lines_map(s).contains_key(key_of(e)),
        lines_map(s.insert(p, e)) == lines_map(s).insert(key_of(e), e.amount),
{
    let t = s.insert(p, e);
    assert forall|a: int, b: int| 0 <= a < b < t.len() implies #[trigger] key_lt(t[a], t[b]) by {
        if b < p {
            assert(key_lt(s[a], s[b]));
        } else if b == p {
            assert(key_lt(s[a], e));
        } else if a < p {
            assert(key_lt(s[a], s[b - 1]));
        } else if a == p {
            assert(key_lt(e, s[b - 1]));
        } else {
            assert(key_lt(s[a - 1], s[b - 1]));
        }
    }
    if lines_have(s, key_of(e)) {
        let j = choose|j: int| 0 <= j < s.len() && #[trigger] key_of(s[j]) == key_of(e);
        if j < p {
            lemma_key_lt_distinct(s[j], e);
        } else {
            lemma_key_lt_distinct(e, s[j]);
        }
    }
    let m = lines_map(s).insert(key_of(e), e.amount);
    assert forall|k: LedgerKey| #[trigger] lines_map(t).contains_key(k) <==> m.contains_key(k) by {
        if lines_have(t, k) {
            let j = choose|j: int| 0 <= j < t.len() && #[trigger] key_of(t[j]) == k;
            if j < p {
                assert(key_of(s[j]) == k);
            } else if j > p {
                assert(key_of(s[j - 1]) == k);
            }
        }
        if lines_have(s, k) {
            let j = choose|j: int| 0 <= j < s.len() && #[trigger] key_of(s[j]) == k;
            if j < p {
                assert(key_of(t[j]) == k);
            } else {
                assert(key_of(t[j + 1]) == k);
            }
        }
        if k == key_of(e) {
            assert(key_of(t[p]) == k);
        }
    }
    assert forall|k: LedgerKey| #[trigger] lines_map(t).contains_key(k) implies lines_map(t)[k] == m[k] by {
        let j = choose|j: int| 0 <= j < t.len() && #[trigger] key_of(t[j]) == k;
        lemma_lines_lookup(t, j);
        if j < p {
            lemma_lines_lookup(s, j);
        } else if j > p {
            lemma_lines_lookup(s, j - 1);
        }
    }
    assert(lines_map(t) =~= m);
}

/// How replacing one balance changes a day's sum.
proof fn lemma_day_sum_update(s: Seq<EntryView>, i: int, e: EntryView, d: int)
    requires
        0 <= i < s.len(),
    ensures
        day_sum(s.update(i, e), d) == day_sum(s, d) - (if s[i].day == d { s[i].amount } else { 0 })
            + (if e.day == d { e.amount } else { 0 }),
    decreases s.len(),
{
    let t = s.update(i, e);
    if i == s.len() - 1 {
        assert(t.drop_last() =~= s.drop_last());
    } else {
        assert(t.drop_last() =~= s.drop_last().update(i, e));
        lemma_day_sum_update(s.drop_last(), i, e, d);
    }
}

/// How inserting one balance changes a day's sum.
proof fn lemma_day_sum_insert(s: Seq<EntryView>, p: int, e: EntryView, d: int)
    requires
        0 <= p <= s.len(),
    ensures
        day_sum(s.insert(p, e), d) == day_sum(s, d) + (if e.day == d { e.amount } else { 0 }),
    decreases s.len(),
{
    let t = s.insert(p, e);
    if p == s.len() {
        assert(t.drop_last() =~= s);
    } else {
        assert(t.drop_last() =~= s.drop_last().insert(p, e));
        lemma_day_sum_insert(s.drop_last(), p, e, d);
    }
}


/// The value that a key is compared as: a balance of zero on `day` in `account`.
spec fn probe(day: Day, account: Seq<char>) -> EntryView {
    EntryView { day: day.days_from_ce as int, account, amount: 0 }
}

fn compare_key(e: &Entry, day: Day, account: &String) -> (r: Cmp)
    ensures
        r == Cmp::Less <==> key_lt(e.view(), probe(day, account@)),
        r == Cmp::Equal <==> key_of(e.view()) == key_of(probe(day, account@)),
        r == Cmp::Greater <==> key_lt(probe(day, account@), e.view()),
{
    proof {
        lemma_text_lt_irreflexive(account@);
    }
    if e.day.days_from_ce < day.days_from_ce {
        Cmp::Less
    } else if e.day.days_from_ce > day.days_from_ce {
        Cmp::Greater
    } else {
        compare_text(e.account.as_str(), account.as_str())
    }
}

/// Where the key `(day, account)` stands in sorted entries: its index and
/// `true` where present, else the index at which it would be inserted and `false`.
fn locate(entries: &Vec<Entry>, day: Day, account: &String) -> (r: (usize, bool))
    requires
        lines_sorted(entry_views(entries@)),
    ensures
        r.0 <= entries.len(),
        r.1 ==> r.0 < entries.len() && key_of(entries@[r.0 as int].view()) == key_of(probe(day, account@)),
        !r.1 ==> (forall|j: int| 0 <= j < r.0 ==> #[trigger] key_lt(entry_views(entries@)[j], probe(day, account@))),
        !r.1 ==> (forall|j: int| r.0 <= j < entries.len() ==> #[trigger] key_lt(probe(day, account@), entry_views(entries@)[j])),
{
    let ghost target = probe(day, account@);
    let ghost ev = entry_views(entries@);
    let mut i: usize = 0;
    while i < entries.len()
        invariant
            i <= entries.len(),
            ev == entry_views(entries@),
            target == probe(day, account@),
            lines_sorted(ev),
            forall|j: int| 0 <= j < i ==> #[trigger] key_lt(ev[j], target),
        decreases entries.len() - i,
    {
        let c = compare_key(&entries[i], day, account);
        assert(ev[i as int] == entries@[i as int].view());
        match c {
            Cmp::Less => {},
            Cmp::Equal => {
                return (i, true);
            },
            Cmp::Greater => {
                proof {
                    assert forall|j: int| i <= j < entries.len() implies #[trigger] key_lt(target, ev[j]) by {
                        if j > i {
                            assert(key_lt(ev[i as int], ev[j]));
                            lemma_key_lt_transitive(target, ev[i as int], ev[j]);
                        }
                    }
                }
                return (i, false);
            },
        }
        i = i + 1;
    }
    (i, false)
}

/// Debits (`credit == false`) or credits `amount` to `account` on `day`,
/// opening the balance at zero where it is absent.
fn adjust(entries: &mut Vec<Entry>, day: Day, account: &String, amount: USD, credit: bool)
    requires
        lines_sorted(entry_views(old(entries)@)),
        fits_i64(balance(lines_map(entry_views(old(entries)@)), key_of(probe(day, account@)))
            + if credit { -amount.pennies } else { amount.pennies as int }),
    ensures
        lines_sorted(entry_views(final(entries)@)),
        lines_map(entry_views(final(entries)@)) == adjusted(
            lines_map(entry_views(old(entries)@)),
            key_of(probe(day, account@)),
            if credit { -amount.pennies } else { amount.pennies as int },
        ),
        forall|d: int| #[trigger] day_sum(entry_views(final(entries)@), d) == day_sum(entry_views(old(entries)@), d)
            + if d == day.days_from_ce { if credit { -amount.pennies } else { amount.pennies as int } } else { 0 },
{
    let ghost ev = entry_views(entries@);
    let ghost k = key_of(probe(day, account@));
    let (i, found) = locate(entries, day, account);
    if found {
        proof {
            lemma_lines_lookup(ev, i as int);
        }
        let mut total = entries[i].amount;
        if credit {
            total.sub_assign(amount);
        } else {
            total.add_assign(amount);
        }
        let e = Entry { day: entries[i].day, account: entries[i].account.clone(), amount: total };
        entries.set(i, e);
        proof {
            assert(entry_views(entries@) =~= ev.update(i as int, e.view()));
            lemma_lines_update(ev, i as int, e.view());
            assert forall|d: int| #[trigger] day_sum(entry_views(entries@), d) == day_sum(ev, d)
                + if d == day.days_from_ce { if credit { -amount.pennies } else { amount.pennies as int } } else { 0 } by {
                lemma_day_sum_update(ev, i as int, e.view(), d);
            }
        }
    } else {
        proof {
            assert forall|j: int| 0 <= j < i implies #[trigger] key_lt(ev[j], probe(day, account@)) by {}
            lemma_lines_insert(ev, i as int, probe(day, account@));
        }
        let mut total = USD::zero();
        if credit {
            total.sub_assign(amount);
        } else {
            total.add_assign(amount);
        }
        let e = Entry { day: day, account: account.clone(), amount: total };
        entries.insert(i, e);
        proof {
            assert(entry_views(entries@) =~= ev.insert(i as int, e.view()));
            assert forall|j: int| 0 <= j < i implies #[trigger] key_lt(ev[j], e.view()) by {
                assert(key_lt(ev[j], probe(day, account@)));
            }
            assert forall|j: int| i <= j < ev.len() implies #[trigger] key_lt(e.view(), ev[j]) by {
                assert(key_lt(probe(day, account@), ev[j]));
            }
            lemma_lines_insert(ev, i as int, e.view());
            assert forall|d: int| #[trigger] day_sum(entry_views(entries@), d) == day_sum(ev, d)
                + if d == day.days_from_ce { if credit { -amount.pennies } else { amount.pennies as int } } else { 0 } by {
                lemma_day_sum_insert(ev, i as int, e.view(), d);
            }
        }
    }
}


/// Where a balance is shown in the ledger's report: a positive balance in the
/// debit column, a negative one (by its size) in the credit column, zero in neither.
#[derive(Clone, Copy, Debug, PartialEq, Eq, Structural)]
pub enum Column {
    Debit(USD),
    Credit(USD),
    Blank,
}

/// The column a balance of `amount` pennies is shown in.
pub open spec fn column_for(amount: int) -> Column {
    if amount > 0 {
        Column::Debit(USD { pennies: amount as i64 })
    } else if amount < 0 {
        Column::Credit(USD { pennies: (-amount) as i64 })
    } else {
        Column::Blank
    }
}

/// One row of the ledger's report.
pub struct ReportLine {
    pub date: Day,
    pub account: String,
    pub column: Column,
}

/// Whether a report row shows the balance `e`.
pub open spec fn shows(r: ReportLine, e: EntryView) -> bool {
    &&& r.date.days_from_ce == e.day
    &&& r.account@ == e.account
    &&& r.column == column_for(e.amount)
}

impl GeneralLedger {
    #[verifier::type_invariant]
    spec fn sorted(self) -> bool {
        lines_sorted(entry_views(self.entries@))
    }

    /// The balances, in increasing order of day and then account code.
    pub closed spec fn lines(&self) -> Seq<EntryView> {
        entry_views(self.entries@)
    }

    /// The sum of the balances of all accounts on day `d` (a day number from
    /// the common era): zero wherever the books balance.
    pub open spec fn day_total(&self, d: int) -> int {
        day_sum(self.lines(), d)
    }

    /// An empty ledger.
    pub fn new() -> (r: GeneralLedger)
        ensures
            r@ == Map::<LedgerKey, int>::empty(),
            r.lines() == Seq::<EntryView>::empty(),
            forall|d: int| #[trigger] r.day_total(d) == 0,
    {
        let r = GeneralLedger { entries: Vec::new() };
        assert(r.lines() =~= Seq::<EntryView>::empty());
        assert(r@ =~= Map::<LedgerKey, int>::empty());
        r
    }

    /// Records `amount` on `date` as a debit to one account and a credit to
    /// another: the first balance grows by `amount`, then the second shrinks
    /// by it, each opened at zero where absent.
    pub fn record_double_entry(
        &mut self,
        date: Day,
        amount: USD,
        debit_account_code: &String,
        credit_account_code: &String,
    )
        requires
            posting_fits(
                old(self)@,
                date.days_from_ce as int,
                amount.pennies as int,
                debit_account_code@,
                credit_account_code@,
            ),
        ensures
            final(self)@ == posted(
                old(self)@,
                date.days_from_ce as int,
                amount.pennies as int,
                debit_account_code@,
                credit_account_code@,
            ),
            forall|d: int| #[trigger] final(self).day_total(d) == old(self).day_total(d),
    {
        proof {
            use_type_invariant(&*self);
        }
        let ghost before = self.lines();
        let mut entries: Vec<Entry> = Vec::new();
        std::mem::swap(&mut entries, &mut self.entries);
        assert(entry_views(entries@) == before);
        adjust(&mut entries, date, debit_account_code, amount, false);
        let ghost middle = entry_views(entries@);
        adjust(&mut entries, date, credit_account_code, amount, true);
        self.entries = entries;
        assert forall|d: int| #[trigger] day_sum(self.lines(), d) == day_sum(before, d) by {
            assert(day_sum(middle, d) == day_sum(before, d) + if d == date.days_from_ce { amount.pennies as int } else { 0 });
        }
    }

    /// The balance of `account_code` on `date`, where the ledger has one.
    pub fn fetch_amount(&self, date: Day, account_code: String) -> (r: Option<&USD>)
        ensures
            r is Some <==> self@.contains_key((date.days_from_ce as int, account_code@)),
            r matches Some(u) ==> u.pennies == self@[(date.days_from_ce as int, account_code@)],
    {
        proof {
            use_type_invariant(self);
        }
        let (i, found) = locate(&self.entries, date, &account_code);
        proof {
            let ev = self.lines();
            let k = (date.days_from_ce as int, account_code@);
            if found {
                lemma_lines_lookup(ev, i as int);
            } else {
                if lines_have(ev, k) {
                    let j = choose|j: int| 0 <= j < ev.len() && #[trigger] key_of(ev[j]) == k;
                    if j < i {
                        assert(key_lt(ev[j], probe(date, account_code@)));
                    } else {
                        assert(key_lt(probe(date, account_code@), ev[j]));
                    }
                    lemma_key_lt_irreflexive(ev[j]);
                }
            }
        }
        if found {
            Some(&self.entries[i].amount)
        } else {
            None
        }
    }

    /// Records the double entries `postings` in order.
    pub fn record_postings(&mut self, postings: &Vec<Posting>)
        requires
            postings_fit(old(self)@, posting_views(postings@)),
        ensures
            final(self)@ == apply_postings(old(self)@, posting_views(postings@)),
            forall|d: int| #[trigger] final(self).day_total(d) == old(self).day_total(d),
    {
        let ghost pv = posting_views(postings@);
        let ghost start = self@;
        let ghost start_lines = self.lines();
        let mut i: usize = 0;
        assert(pv.skip(0) =~= pv);
        while i < postings.len()
            invariant
                i <= postings.len(),
                pv == posting_views(postings@),
                postings_fit(self@, pv.skip(i as int)),
                apply_postings(self@, pv.skip(i as int)) == apply_postings(start, pv),
                forall|d: int| #[trigger] self.day_total(d) == day_sum(start_lines, d),
            decreases postings.len() - i,
        {
            let p = &postings[i];
            proof {
                assert(pv.skip(i as int)[0] == p@);
                assert(pv.skip(i as int).drop_first() =~= pv.skip(i + 1));
            }
            self.record_double_entry(p.date, p.amount, &p.debit_account, &p.credit_account);
            i = i + 1;
        }
        assert(pv.skip(i as int) =~= Seq::<PostingView>::empty());
    }

    fn copy_entries(&self) -> (r: Vec<Entry>)
        ensures
            entry_views(r@) == self.lines(),
    {
        let mut r: Vec<Entry> = Vec::new();
        let mut i: usize = 0;
        while i < self.entries.len()
            invariant
                i <= self.entries.len(),
                entry_views(r@) == entry_views(self.entries@).take(i as int),
            decreases self.entries.len() - i,
        {
            let e = &self.entries[i];
            let copy = Entry { day: e.day, account: e.account.clone(), amount: e.amount };
            let ghost before = entry_views(r@);
            assert(copy.view() == entry_views(self.entries@)[i as int]);
            r.push(copy);
            assert(entry_views(r@) =~= before.push(copy.view()));
            assert(entry_views(r@) =~= entry_views(self.entries@).take(i + 1));
            i = i + 1;
        }
        assert(entry_views(self.entries@).take(i as int) =~= entry_views(self.entries@));
        r
    }

    /// Whether recording the double entry `posting_fits` describes keeps
    /// both balances in an `i64`.
    pub fn can_record_double_entry(
        &self,
        date: Day,
        amount: USD,
        debit_account_code: &String,
        credit_account_code: &String,
    ) -> (r: bool)
        ensures
            r == posting_fits(
                self@,
                date.days_from_ce as int,
                amount.pennies as int,
                debit_account_code@,
                credit_account_code@,
            ),
    {
        let debited: i128 = match self.fetch_amount(date, debit_account_code.clone()) {
            Some(u) => u.pennies as i128,
            None => 0,
        };
        let after_debit: i128 = debited + amount.pennies as i128;
        if after_debit < i64::MIN as i128 || after_debit > i64::MAX as i128 {
            return false;
        }
        let credited: i128 = if text_eq(debit_account_code.as_str(), credit_account_code.as_str()) {
            after_debit
        } else {
            match self.fetch_amount(date, credit_account_code.clone()) {
                Some(u) => u.pennies as i128,
                None => 0,
            }
        };
        let after_credit: i128 = credited - amount.pennies as i128;
        !(after_credit < i64::MIN as i128 || after_credit > i64::MAX as i128)
    }

    /// Whether the double entries `postings` can be recorded in order
    /// without any balance leaving an `i64`: the condition of `record_postings`.
    pub fn can_record_postings(&self, postings: &Vec<Posting>) -> (r: bool)
        ensures
            r == postings_fit(self@, posting_views(postings@)),
    {
        proof {
            use_type_invariant(self);
        }
        let ghost pv = posting_views(postings@);
        let mut shadow = GeneralLedger { entries: self.copy_entries() };
        let mut i: usize = 0;
        assert(pv.skip(0) =~= pv);
        while i < postings.len()
            invariant
                i <= postings.len(),
                pv == posting_views(postings@),
                postings_fit(self@, pv) == postings_fit(shadow@, pv.skip(i as int)),
            decreases postings.len() - i,
        {
            let p = &postings[i];
            proof {
                assert(pv.skip(i as int)[0] == p@);
                assert(pv.skip(i as int).drop_first() =~= pv.skip(i + 1));
            }
            if !shadow.can_record_double_entry(p.date, p.amount, &p.debit_account, &p.credit_account) {
                return false;
            }
            shadow.record_double_entry(p.date, p.amount, &p.debit_account, &p.credit_account);
            i = i + 1;
        }
        true
    }

    /// The rows of the ledger's report, one per balance in increasing order of
    /// day and then account code; `None` where a balance is `i64::MIN` pennies,
    /// whose size as a credit does not fit.
    pub fn report_lines(&self) -> (r: Option<Vec<ReportLine>>)
        ensures
            lines_sorted(self.lines()),
            self@ == lines_map(self.lines()),
            r is None <==> exists|i: int| 0 <= i < self.lines().len() && #[trigger] self.lines()[i].amount == i64::MIN,
            r matches Some(rows) ==> rows.len() == self.lines().len()
                && forall|i: int| 0 <= i < rows.len() ==> #[trigger] shows(rows@[i], self.lines()[i]),
    {
        proof {
            use_type_invariant(self);
        }
        let ghost ev = self.lines();
        let mut rows: Vec<ReportLine> = Vec::new();
        let mut i: usize = 0;
        while i < self.entries.len()
            invariant
                i <= self.entries.len(),
                ev == self.lines(),
                lines_sorted(ev),
                rows.len() == i,
                forall|j: int| 0 <= j < i ==> ev[j].amount != i64::MIN,
                forall|j: int| 0 <= j < i ==> #[trigger] shows(rows@[j], ev[j]),
            decreases self.entries.len() - i,
        {
            let e = &self.entries[i];
            assert(ev[i as int] == e.view());
            let column = if e.amount.pennies > 0 {
                Column::Debit(e.amount)
            } else if e.amount.pennies < 0 {
                if e.amount.pennies == i64::MIN {
                    assert(self.lines()[i as int].amount == i64::MIN);
                    return None;
                }
                Column::Credit(e.amount.inverse())
            } else {
                Column::Blank
            };
            rows.push(ReportLine { date: e.day, account: e.account.clone(), column });
            i = i + 1;
        }
        Some(rows)
    }
}

impl View for GeneralLedger {
    type V = Map<LedgerKey, int>;

    /// The balance of each (day, account code) key the ledger holds.
    open spec fn view(&self) -> Map<LedgerKey, int> {
        lines_map(self.lines())
    }
}


/// Double entry: recording `amount` on `day` from `debit` to `credit` raises
/// the debited balance by `amount`, lowers the credited one by `amount` (both
/// opened at zero where absent, and unchanged where the two accounts are the
/// same), and leaves every other balance as it was.
pub proof fn lemma_posted_balances(
    m: Map<LedgerKey, int>,
    day: int,
    amount: int,
    debit: Seq<char>,
    credit: Seq<char>,
)
    ensures
        posted(m, day, amount, debit, credit).contains_key((day, debit)),
        posted(m, day, amount, debit, credit).contains_key((day, credit)),
        debit != credit ==> posted(m, day, amount, debit, credit)[(day, debit)] == balance(m, (day, debit)) + amount,
        debit != credit ==> posted(m, day, amount, debit, credit)[(day, credit)] == balance(m, (day, credit)) - amount,
        debit == credit ==> posted(m, day, amount, debit, credit)[(day, debit)] == balance(m, (day, debit)),
        forall|k: LedgerKey| k != (day, debit) && k != (day, credit) ==> {
            &&& (#[trigger] posted(m, day, amount, debit, credit).contains_key(k) <==> m.contains_key(k))
            &&& (m.contains_key(k) ==> posted(m, day, amount, debit, credit)[k] == m[k])
        },
{
}


/// Whether a double entry touches key `k`: as its debited or its credited balance.
pub open spec fn touches(p: PostingView, k: LedgerKey) -> bool {
    k == (p.day, p.debit) || k == (p.day, p.credit)
}

/// What a double entry adds to the balance of key `k`: its amount where it
/// debits `k`, less its amount where it credits `k`.
pub open spec fn posting_delta(p: PostingView, k: LedgerKey) -> int {
    (if k == (p.day, p.debit) { p.amount } else { 0 }) - (if k == (p.day, p.credit) { p.amount } else { 0 })
}

/// The net of the double entries `ps` on the balance of key `k`.
pub open spec fn net_change(ps: Seq<PostingView>, k: LedgerKey) -> int
    decreases ps.len(),
{
    if ps.len() == 0 {
        0
    } else {
        posting_delta(ps[0], k) + net_change(ps.drop_first(), k)
    }
}

/// After a batch of double entries, each balance is what it was plus the
/// net of the entries on it; a balance exists afterwards exactly where it
/// existed before or some entry touched it.
pub proof fn lemma_apply_postings_balance(m: Map<LedgerKey, int>, ps: Seq<PostingView>, k: LedgerKey)
    ensures
        balance(apply_postings(m, ps), k) == balance(m, k) + net_change(ps, k),
        apply_postings(m, ps).contains_key(k) <==> (m.contains_key(k) || exists|j: int|
            0 <= j < ps.len() && #[trigger] touches(ps[j], k)),
    decreases ps.len(),
{
    if ps.len() > 0 {
        let p0 = ps[0];
        let m1 = posted(m, p0.day, p0.amount, p0.debit, p0.credit);
        lemma_apply_postings_balance(m1, ps.drop_first(), k);
        assert(balance(m1, k) == balance(m, k) + posting_delta(p0, k));
        if m1.contains_key(k) && !m.contains_key(k) {
            assert(touches(ps[0], k));
        }
        if exists|j: int| 0 <= j < ps.drop_first().len() && #[trigger] touches(ps.drop_first()[j], k) {
            let j = choose|j: int| 0 <= j < ps.drop_first().len() && #[trigger] touches(ps.drop_first()[j], k);
            assert(touches(ps[j + 1], k));
        }
        if exists|j: int| 0 <= j < ps.len() && #[trigger] touches(ps[j], k) {
            let j = choose|j: int| 0 <= j < ps.len() && #[trigger] touches(ps[j], k);
            if j > 0 {
                assert(touches(ps.drop_first()[j - 1], k));
            }
        }
    }
}

/// Where only the entry at `j` touches key `k`, the net on `k` is that entry's.
pub proof fn lemma_net_change_single(ps: Seq<PostingView>, k: LedgerKey, j: int)
    requires
        0 <= j < ps.len(),
        forall|l: int| 0 <= l < ps.len() && l != j ==> !#[trigger] touches(ps[l], k),
    ensures
        net_change(ps, k) == posting_delta(ps[j], k),
    decreases ps.len(),
{
    if j == 0 {
        lemma_net_change_untouched(ps.drop_first(), k);
    } else {
        assert(!touches(ps[0], k));
        lemma_net_change_single(ps.drop_first(), k, j - 1);
    }
}


/// The net of two batches of double entries, one after the other, is the
/// sum of their nets.
pub proof fn lemma_net_change_concat(a: Seq<PostingView>, b: Seq<PostingView>, k: LedgerKey)
    ensures
        net_change(a + b, k) == net_change(a, k) + net_change(b, k),
    decreases a.len(),
{
    if a.len() == 0 {
        assert(a + b =~= b);
    } else {
        lemma_net_change_concat(a.drop_first(), b, k);
        assert((a + b).drop_first() =~= a.drop_first() + b);
        assert((a + b)[0] == a[0]);
    }
}

/// Where no entry touches key `k`, the net on `k` is zero.
pub proof fn lemma_net_change_untouched(ps: Seq<PostingView>, k: LedgerKey)
    requires
        forall|l: int| 0 <= l < ps.len() ==> !#[trigger] touches(ps[l], k),
    ensures
        net_change(ps, k) == 0,
    decreases ps.len(),
{
    if ps.len() > 0 {
        assert(!touches(ps[0], k));
        lemma_net_change_untouched(ps.drop_first(), k);
    }
}

} // verus!
