use chrono::{DateTime, Datelike, NaiveDate, Utc};

use ledger::account_map::{accounts_receivable_code, deferred_code};
use ledger::general_ledger::{Column, GeneralLedger, Posting};
use ledger::schedule::{amount_per_day, days_in_service_period};
use ledger::text::{compare_text, text_eq, Cmp};
use ledger::time::{Day, Timestamp, MAX_UNIX_SECONDS, MIN_UNIX_SECONDS};
use ledger::transaction::{Assessment, Payment, Route, Transaction};
use ledger::usd::USD;

const NOV_1_2017: i64 = 1_509_494_400;
const DAY: i64 = 86_400;

fn at(secs: i64) -> Timestamp {
    Timestamp::from_unix_seconds(secs).unwrap()
}

fn nov(day: i64) -> Timestamp {
    at(NOV_1_2017 + (day - 1) * DAY)
}

fn nov_day(day: i64) -> Day {
    nov(day).date()
}

fn s(text: &str) -> String {
    String::from(text)
}

fn rent(pennies: i64, first: i64, last: i64) -> Assessment {
    Assessment::new(USD::from_pennies(pennies), s("4000"), nov(first), Some(nov(first)), Some(nov(last)))
}

fn rent_payment(pennies: i64, on: i64, payee_pennies: i64, previously_paid: i64) -> Payment {
    Payment::new(
        USD::from_pennies(pennies),
        s("1000"),
        nov(on),
        USD::from_pennies(payee_pennies),
        s("4000"),
        Some(nov(1)),
        Some(nov(30)),
        nov(1),
        None,
        USD::from_pennies(previously_paid),
    )
}

fn balance(gl: &GeneralLedger, day: i64, account: &str) -> Option<i64> {
    gl.fetch_amount(nov_day(day), s(account)).map(|u| u.pennies)
}

#[test]
fn usd_arithmetic() {
    let mut a = USD::from_pennies(250);
    a.add_assign(USD::from_pennies(100));
    assert_eq!(a.pennies, 350);
    a.sub_assign(USD::from_pennies(500));
    assert_eq!(a.pennies, -150);
    assert_eq!(a.inverse().pennies, 150);
    assert_eq!(USD::zero().pennies, 0);
}

#[test]
fn usd_debug_string_formats_like_the_debug_output() {
    assert_eq!(USD::from_pennies(3000).debug_string(), "$30.0");
    assert_eq!(USD::from_pennies(123456).debug_string(), "$1234.56");
    assert_eq!(USD::from_pennies(5).debug_string(), "$0.5");
    assert_eq!(USD::from_pennies(0).debug_string(), "-$0.0");
    assert_eq!(USD::from_pennies(-150).debug_string(), "-$1.-50");
    assert_eq!(USD::from_pennies(-5).debug_string(), "-$0.-5");
    assert_eq!(USD::from_pennies(i64::MIN).debug_string(), "-$92233720368547758.-8");
}

#[test]
fn text_order_is_by_code_point_with_prefixes_first() {
    assert_eq!(compare_text("1101", "4000"), Cmp::Less);
    assert_eq!(compare_text("4000", "1101"), Cmp::Greater);
    assert_eq!(compare_text("2020", "2020"), Cmp::Equal);
    assert_eq!(compare_text("10", "100"), Cmp::Less);
    assert_eq!(compare_text("", "0"), Cmp::Less);
    assert_eq!(compare_text("é", "z"), Cmp::Greater);
    assert!(text_eq("4501", "4501"));
    assert!(!text_eq("4501", "450"));
    assert_eq!(s("Z") < s("a"), compare_text("Z", "a") == Cmp::Less);
}

#[test]
fn account_map_links_revenue_accounts() {
    assert_eq!(accounts_receivable_code("4000"), Some(s("1101")));
    assert_eq!(accounts_receivable_code("4050"), Some(s("1103")));
    assert_eq!(accounts_receivable_code("4100"), None);
    assert_eq!(deferred_code("4000"), Some(s("2020")));
    assert_eq!(deferred_code("4050"), None);
}

#[test]
fn timestamps_cover_chrono_range_exactly() {
    assert!(DateTime::<Utc>::from_timestamp(MAX_UNIX_SECONDS, 0).is_some());
    assert!(DateTime::<Utc>::from_timestamp(MAX_UNIX_SECONDS + 1, 0).is_none());
    assert!(DateTime::<Utc>::from_timestamp(MIN_UNIX_SECONDS, 0).is_some());
    assert!(DateTime::<Utc>::from_timestamp(MIN_UNIX_SECONDS - 1, 0).is_none());
    assert!(Timestamp::from_unix_seconds(MAX_UNIX_SECONDS).is_some());
    assert!(Timestamp::from_unix_seconds(MAX_UNIX_SECONDS + 1).is_none());
    assert!(Timestamp::from_unix_seconds(MIN_UNIX_SECONDS).is_some());
    assert!(Timestamp::from_unix_seconds(MIN_UNIX_SECONDS - 1).is_none());
    assert!(!Timestamp { secs: i64::MAX, nanos: 0 }.is_valid());
    assert!(!Timestamp { secs: 0, nanos: 1_000_000_000 }.is_valid());
    assert!(Timestamp::from_unix(0, 1_000_000_000).is_none());
    assert_eq!(Timestamp::from_unix(5, 7), Some(Timestamp { secs: 5, nanos: 7 }));
}

#[test]
fn dates_follow_chrono() {
    let expected = NaiveDate::from_ymd_opt(2017, 11, 1).unwrap().num_days_from_ce();
    assert_eq!(at(NOV_1_2017).date().days_from_ce, expected);
    assert_eq!(at(NOV_1_2017 + DAY - 1).date().days_from_ce, expected);
    assert_eq!(at(NOV_1_2017 + DAY).date().days_from_ce, expected + 1);
    assert_eq!(at(-1).date().days_from_ce, 719_162);
    assert_eq!(at(0).date().days_from_ce, 719_163);
    let last = NaiveDate::from_ymd_opt(262_142, 12, 31).unwrap().num_days_from_ce();
    assert_eq!(at(MAX_UNIX_SECONDS).date().days_from_ce, last);
    let first = NaiveDate::from_ymd_opt(-262_143, 1, 1).unwrap().num_days_from_ce();
    assert_eq!(at(MIN_UNIX_SECONDS).date().days_from_ce, first);
}

#[test]
fn day_arithmetic_follows_chrono() {
    assert_eq!(at(NOV_1_2017).checked_add_days(29), Some(at(NOV_1_2017 + 29 * DAY)));
    assert_eq!(at(NOV_1_2017).checked_add_days(-1), Some(at(NOV_1_2017 - DAY)));
    assert_eq!(at(MAX_UNIX_SECONDS).checked_add_days(1), None);
    assert_eq!(at(MIN_UNIX_SECONDS).checked_add_days(-1), None);
    assert_eq!(at(NOV_1_2017).checked_add_days(i64::MAX), None);
    assert_eq!(nov(30).whole_days_since(&nov(1)), Some(29));
    assert_eq!(at(NOV_1_2017 + DAY - 1).whole_days_since(&nov(1)), Some(0));
    assert_eq!(nov(1).whole_days_since(&nov(2)), None);
}

#[test]
fn service_period_counts_both_ends() {
    assert_eq!(days_in_service_period(&nov(1), &nov(30)), 30);
    assert_eq!(days_in_service_period(&nov(5), &nov(5)), 1);
    assert_eq!(rent(3000, 1, 30).days_in_payee_service_period(), 30);
}

#[test]
fn amount_per_day_spreads_the_remainder_over_the_first_days() {
    let days = amount_per_day(USD::from_pennies(1000), &nov(1), &nov(3));
    let shares: Vec<i64> = days.iter().map(|d| d.1.pennies).collect();
    assert_eq!(shares, vec![334, 333, 333]);
    assert_eq!(days[2].0, nov(3));
    assert_eq!(shares.iter().sum::<i64>(), 1000);
    let per_day = rent(3000, 1, 30).payee_amount_per_day();
    assert_eq!(per_day.len(), 30);
    assert!(per_day.iter().all(|d| d.1.pennies == 100));
}

#[test]
fn amount_per_day_of_a_negative_amount_drops_the_remainder() {
    let days = amount_per_day(USD::from_pennies(-1000), &nov(1), &nov(3));
    let shares: Vec<i64> = days.iter().map(|d| d.1.pennies).collect();
    assert_eq!(shares, vec![-333, -333, -333]);
}

#[test]
fn double_entry_debits_one_account_and_credits_another() {
    let mut gl = GeneralLedger::new();
    assert_eq!(balance(&gl, 1, "1000"), None);
    gl.record_double_entry(nov_day(1), USD::from_pennies(250), &s("1000"), &s("1101"));
    assert_eq!(balance(&gl, 1, "1000"), Some(250));
    assert_eq!(balance(&gl, 1, "1101"), Some(-250));
    gl.record_double_entry(nov_day(1), USD::from_pennies(50), &s("1101"), &s("2020"));
    assert_eq!(balance(&gl, 1, "1101"), Some(-200));
    assert_eq!(balance(&gl, 1, "2020"), Some(-50));
    assert_eq!(balance(&gl, 2, "1000"), None);
    let day_total: i64 = ["1000", "1101", "2020"].iter().map(|a| balance(&gl, 1, a).unwrap()).sum();
    assert_eq!(day_total, 0);
}

#[test]
fn double_entry_to_the_same_account_opens_it_at_zero() {
    let mut gl = GeneralLedger::new();
    gl.record_double_entry(nov_day(3), USD::from_pennies(70), &s("1000"), &s("1000"));
    assert_eq!(balance(&gl, 3, "1000"), Some(0));
}

#[test]
fn overflowing_entries_are_detected_before_recording() {
    let mut gl = GeneralLedger::new();
    gl.record_double_entry(nov_day(1), USD::from_pennies(i64::MAX), &s("A"), &s("B"));
    assert!(!gl.can_record_double_entry(nov_day(1), USD::from_pennies(1), &s("A"), &s("C")));
    assert!(gl.can_record_double_entry(nov_day(1), USD::from_pennies(1), &s("C"), &s("B")));
    assert!(!gl.can_record_double_entry(nov_day(1), USD::from_pennies(5), &s("A"), &s("A")));
    assert!(gl.can_record_double_entry(nov_day(1), USD::from_pennies(-5), &s("A"), &s("A")));
    let postings = vec![
        Posting { date: nov_day(1), amount: USD::from_pennies(1), debit_account: s("C"), credit_account: s("B") },
        Posting { date: nov_day(1), amount: USD::from_pennies(1), debit_account: s("C"), credit_account: s("B") },
    ];
    assert!(!gl.can_record_postings(&postings));
    let single = vec![Posting {
        date: nov_day(1),
        amount: USD::from_pennies(1),
        debit_account: s("C"),
        credit_account: s("B"),
    }];
    assert!(gl.can_record_postings(&single));
}

#[test]
fn report_lines_are_ordered_by_day_then_account() {
    let mut gl = GeneralLedger::new();
    gl.record_double_entry(nov_day(10), USD::from_pennies(100), &s("2020"), &s("1000"));
    gl.record_double_entry(nov_day(9), USD::from_pennies(50), &s("1000"), &s("1101"));
    gl.record_double_entry(nov_day(11), USD::from_pennies(0), &s("X"), &s("Y"));
    let rows = gl.report_lines().unwrap();
    let keys: Vec<(i32, String)> = rows.iter().map(|r| (r.date.days_from_ce, r.account.clone())).collect();
    let d = |n: i64| nov_day(n).days_from_ce;
    assert_eq!(
        keys,
        vec![
            (d(9), s("1000")),
            (d(9), s("1101")),
            (d(10), s("1000")),
            (d(10), s("2020")),
            (d(11), s("X")),
            (d(11), s("Y")),
        ]
    );
    assert_eq!(rows[0].column, Column::Debit(USD::from_pennies(50)));
    assert_eq!(rows[1].column, Column::Credit(USD::from_pennies(50)));
    assert_eq!(rows[2].column, Column::Credit(USD::from_pennies(100)));
    assert_eq!(rows[3].column, Column::Debit(USD::from_pennies(100)));
    assert_eq!(rows[4].column, Column::Blank);
}

#[test]
fn report_lines_refuse_a_balance_whose_credit_does_not_fit() {
    let mut gl = GeneralLedger::new();
    gl.record_double_entry(nov_day(1), USD::from_pennies(i64::MAX), &s("A"), &s("B"));
    gl.record_double_entry(nov_day(1), USD::from_pennies(1), &s("C"), &s("B"));
    assert_eq!(balance(&gl, 1, "B"), Some(i64::MIN));
    assert!(gl.report_lines().is_none());
}

#[test]
fn daily_accrual_moves_each_share_into_receivables() {
    let mut gl = GeneralLedger::new();
    let charge = rent(1000, 1, 3);
    assert_eq!(charge.process(&mut gl), Route::DailyAccrual);
    assert_eq!(balance(&gl, 1, "1101"), Some(334));
    assert_eq!(balance(&gl, 1, "4000"), Some(-334));
    assert_eq!(balance(&gl, 2, "1101"), Some(333));
    assert_eq!(balance(&gl, 3, "4000"), Some(-333));
    assert_eq!(balance(&gl, 4, "1101"), None);
}

#[test]
fn accrual_at_once_is_booked_on_the_effective_day() {
    let mut gl = GeneralLedger::new();
    let fee = Assessment::new(USD::from_pennies(4500), s("4050"), nov(7), None, None);
    assert_eq!(gl.process_assessment(&fee), Route::Accrual);
    assert_eq!(balance(&gl, 7, "1103"), Some(4500));
    assert_eq!(balance(&gl, 7, "4050"), Some(-4500));
}

#[test]
fn cash_and_unknown_assessments_record_nothing() {
    let mut gl = GeneralLedger::new();
    let cash = Assessment::new(USD::from_pennies(100), s("4100"), nov(1), None, None);
    let other = Assessment::new(USD::from_pennies(100), s("9999"), nov(1), None, None);
    assert_eq!(gl.process_assessment(&cash), Route::Cash);
    assert_eq!(gl.process_assessment(&other), Route::Unrecognized);
    assert_eq!(cash.process(&mut gl), Route::Cash);
    assert_eq!(other.process(&mut gl), Route::Unrecognized);
    assert_eq!(gl.report_lines().unwrap().len(), 0);
}

#[test]
fn general_ledger_processes_rent_assessments_daily() {
    let mut gl = GeneralLedger::new();
    assert_eq!(gl.process_assessment(&rent(3000, 1, 30)), Route::DailyAccrual);
    assert_eq!(balance(&gl, 15, "1101"), Some(100));
    assert_eq!(balance(&gl, 30, "4000"), Some(-100));
}

#[test]
fn payment_after_the_start_settles_receivables_then_defers_the_rest() {
    let mut gl = GeneralLedger::new();
    let payment = rent_payment(3000, 11, 3000, 0);
    assert_eq!(gl.process_payment(&payment), Route::DailyAccrual);
    assert_eq!(balance(&gl, 11, "1000"), Some(3000));
    assert_eq!(balance(&gl, 11, "1101"), Some(-1100));
    assert_eq!(balance(&gl, 11, "2020"), Some(-1900));
    assert_eq!(balance(&gl, 12, "2020"), Some(100));
    assert_eq!(balance(&gl, 30, "1101"), Some(-100));
    assert_eq!(balance(&gl, 10, "2020"), None);
}

#[test]
fn partial_payment_settles_only_receivables() {
    let mut gl = GeneralLedger::new();
    let payment = rent_payment(500, 11, 3000, 0);
    payment.process(&mut gl);
    assert_eq!(balance(&gl, 11, "1000"), Some(500));
    assert_eq!(balance(&gl, 11, "1101"), Some(-500));
    assert_eq!(balance(&gl, 11, "2020"), None);
    assert_eq!(gl.report_lines().unwrap().len(), 2);
}

#[test]
fn previously_paid_days_are_skipped() {
    let mut gl = GeneralLedger::new();
    let payment = rent_payment(1000, 11, 3000, 500);
    payment.process(&mut gl);
    assert_eq!(balance(&gl, 11, "1000"), Some(1000));
    assert_eq!(balance(&gl, 11, "1101"), Some(-600));
    assert_eq!(balance(&gl, 11, "2020"), Some(-400));
    assert_eq!(balance(&gl, 15, "2020"), Some(100));
    assert_eq!(balance(&gl, 16, "2020"), None);
}

#[test]
fn payment_postings_split_the_payment_without_loss() {
    let postings = rent_payment(3000, 11, 3000, 0).daily_postings();
    let deposited: i64 = postings.iter().filter(|p| p.debit_account == "1000").map(|p| p.amount.pennies).sum();
    assert_eq!(deposited, 3000);
    let released: i64 = postings.iter().filter(|p| p.debit_account == "2020").map(|p| p.amount.pennies).sum();
    assert_eq!(released, 2000);
}

#[test]
fn credit_with_unresolved_payee_records_nothing() {
    let mut gl = GeneralLedger::new();
    let mut credit = rent_payment(3000, 1, 3000, 0);
    credit.account_code = s("4501");
    assert_eq!(credit.process(&mut gl), Route::DailyAccrual);
    assert_eq!(gl.report_lines().unwrap().len(), 0);
    assert_eq!(credit.try_accrual_postings().map(|v| v.len()), Some(0));
    credit.payee_resolved_on = Some(nov(1));
    credit.process(&mut gl);
    assert_eq!(balance(&gl, 1, "4501"), Some(3000));
}

#[test]
fn payments_against_other_payees_are_not_handled() {
    let mut gl = GeneralLedger::new();
    let mut payment = rent_payment(3000, 1, 3000, 0);
    payment.payee_account_code = s("4050");
    assert_eq!(gl.process_payment(&payment), Route::Unrecognized);
    assert_eq!(payment.process(&mut gl), Route::Accrual);
    assert_eq!(gl.report_lines().unwrap().len(), 0);
}

#[test]
fn postings_are_refused_where_their_inputs_are_incomplete() {
    let undated = Assessment::new(USD::from_pennies(100), s("4000"), nov(1), None, Some(nov(3)));
    assert!(undated.try_daily_accrual_postings().is_none());
    let reversed = rent(100, 3, 1);
    assert!(reversed.try_daily_accrual_postings().is_none());
    let unmapped = Assessment::new(USD::from_pennies(100), s("4100"), nov(1), Some(nov(1)), Some(nov(3)));
    assert!(unmapped.try_daily_accrual_postings().is_none());
    assert!(unmapped.try_accrual_postings().is_none());
    assert_eq!(rent(300, 1, 3).try_daily_accrual_postings().map(|v| v.len()), Some(3));
    let mut early = rent_payment(3000, 1, 3000, 0);
    early.effective_on = at(NOV_1_2017 - 1);
    assert!(early.try_daily_postings().is_none());
    let mut huge = rent_payment(i64::MAX, 1, -3000, 0);
    huge.effective_on = nov(30);
    assert!(huge.try_daily_postings().is_none());
    assert!(rent_payment(3000, 1, 3000, 0).try_daily_postings().is_some());
}

#[test]
fn nanoseconds_count_in_day_differences() {
    let half_past = Timestamp::from_unix(NOV_1_2017, 500_000_000).unwrap();
    assert_eq!(nov(2).whole_days_since(&half_past), Some(0));
    assert_eq!(nov(3).whole_days_since(&half_past), Some(1));
    assert_eq!(half_past.whole_days_since(&nov(1)), Some(0));
    assert_eq!(nov(1).whole_days_since(&half_past), None);
    assert!(half_past.is_after(&nov(1)));
    assert!(!nov(1).is_after(&half_past));
    assert_eq!(days_in_service_period(&half_past, &nov(3)), 2);
    assert_eq!(half_past.checked_add_days(1), Timestamp::from_unix(NOV_1_2017 + DAY, 500_000_000));
    let days = amount_per_day(USD::from_pennies(200), &half_past, &nov(3));
    assert_eq!(days.len(), 2);
    assert_eq!(days[1].0, Timestamp::from_unix(NOV_1_2017 + DAY, 500_000_000).unwrap());
    let later = DateTime::<Utc>::from_timestamp(NOV_1_2017 + 10 * DAY, 0).unwrap();
    let earlier = DateTime::<Utc>::from_timestamp(NOV_1_2017, 500_000_000).unwrap();
    let chrono_days = later.signed_duration_since(earlier).to_std().unwrap().as_secs() / 86_400;
    assert_eq!(nov(11).whole_days_since(&half_past), Some(chrono_days));
}

#[test]
fn payment_just_after_a_day_boundary_counts_one_day_less() {
    let mut payment = rent_payment(3000, 11, 3000, 0);
    payment.payee_service_start_date = Some(Timestamp::from_unix(NOV_1_2017, 1).unwrap());
    assert_eq!(payment.days_in_payee_service_period(), 29);
    let postings = payment.daily_postings();
    assert_eq!(postings[0].amount.pennies, 9 * 104);
}

#[test]
fn payment_clears_what_it_can_and_defers_only_the_excess() {
    let postings = rent_payment(4000, 11, 3000, 0).daily_postings();
    let cleared: i64 = postings.iter().filter(|p| p.credit_account == "1101").map(|p| p.amount.pennies).sum();
    assert_eq!(cleared, 3000);
    let deferred: i64 = postings.iter().filter(|p| p.credit_account == "2020").map(|p| p.amount.pennies).sum();
    let released: i64 = postings.iter().filter(|p| p.debit_account == "2020").map(|p| p.amount.pennies).sum();
    assert_eq!(deferred - released, 1000);
}

#[test]
fn release_of_deferred_revenue_stops_once_spent() {
    assert!(rent_payment(1500, 1, 3000, 0).releases_stop_early());
    assert!(!rent_payment(3000, 1, 3000, 0).releases_stop_early());
    assert!(rent_payment(500, 11, 3000, 0).releases_stop_early());
    assert!(!rent_payment(4000, 11, 3000, 0).releases_stop_early());
}
