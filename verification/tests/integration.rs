#![allow(deprecated)]

use chrono::{DateTime, Datelike, NaiveDate, TimeZone, Utc};

use ledger::general_ledger::GeneralLedger;
use ledger::time::{Day, Timestamp};
use ledger::transaction::{Assessment, Payment, Transaction};
use ledger::usd::USD;

fn usd(d: f64) -> USD {
    USD::from_pennies((d * 100.0) as i64)
}

fn instant(t: DateTime<Utc>) -> Timestamp {
    Timestamp::from_unix_seconds(t.timestamp()).expect("representable")
}

fn next_day(d: Day) -> Day {
    let date = NaiveDate::from_num_days_from_ce_opt(d.days_from_ce)
        .unwrap()
        .checked_add_signed(chrono::Duration::days(1))
        .expect("Overflow");
    Day { days_from_ce: date.num_days_from_ce() }
}

#[test]
fn test_rent_account_balance_accrues_daily() {
    let rent_charge = Assessment::new(
        usd(30.0),
        String::from("4000"),
        instant(Utc.ymd(2017, 11, 1).and_hms(0, 0, 0)),
        Some(instant(Utc.ymd(2017, 11, 1).and_hms(0, 0, 0))),
        Some(instant(Utc.ymd(2017, 11, 30).and_hms(0, 0, 0))),
    );

    let mut gl = GeneralLedger::new();
    rent_charge.process(&mut gl);
    let start = rent_charge.service_start_date.unwrap().date();
    let end = rent_charge.service_end_date.unwrap().date();

    let mut date_stepper = start;
    while date_stepper <= end {
        assert_eq!(gl.fetch_amount(date_stepper, String::from("1101")), Some(&usd(1.0)));
        assert_eq!(gl.fetch_amount(date_stepper, String::from("4000")), Some(&usd(-1.0)));

        date_stepper = next_day(date_stepper);
    }
}

#[test]
fn test_fee_account_balance_accrues_periodically() {
    let fee_charge = Assessment::new(
        usd(30.0),
        String::from("4050"),
        instant(Utc.ymd(2017, 11, 1).and_hms(0, 0, 0)),
        None,
        None,
    );

    let mut gl = GeneralLedger::new();
    fee_charge.process(&mut gl);

    assert_eq!(gl.fetch_amount(fee_charge.effective_on.date(), String::from("1103")), Some(&usd(30.0)));
    assert_eq!(gl.fetch_amount(fee_charge.effective_on.date(), String::from("4050")), Some(&usd(-30.0)));
}

#[test]
fn test_a_full_payment_against_rent() {
    let mut gl = GeneralLedger::new();

    let rent_charge = Assessment::new(
        usd(30.0),
        String::from("4000"),
        instant(Utc.ymd(2017, 11, 1).and_hms(0, 0, 0)),
        Some(instant(Utc.ymd(2017, 11, 1).and_hms(0, 0, 0))),
        Some(instant(Utc.ymd(2017, 11, 30).and_hms(0, 0, 0))),
    );

    let payment = Payment::new(
        usd(30.0),
        String::from("1000"),
        instant(Utc.ymd(2017, 11, 1).and_hms(0, 0, 0)),
        usd(30.0),
        String::from("4000"),
        Some(instant(Utc.ymd(2017, 11, 1).and_hms(0, 0, 0))),
        Some(instant(Utc.ymd(2017, 11, 30).and_hms(0, 0, 0))),
        instant(Utc.ymd(2017, 11, 1).and_hms(0, 0, 0)),
        None,
        usd(0.0),
    );

    rent_charge.process(&mut gl);
    payment.process(&mut gl);

    assert_eq!(gl.fetch_amount(payment.effective_on.date(), String::from("1000")), Some(&usd(30.0)));
    assert_eq!(gl.fetch_amount(payment.effective_on.date(), String::from("2020")), Some(&usd(-29.0)));
    assert_eq!(gl.fetch_amount(payment.effective_on.date(), String::from("4000")), Some(&usd(-1.0)));

    let start = rent_charge.service_start_date.unwrap().date();
    let end = rent_charge.service_end_date.unwrap().date();
    let mut date_stepper = next_day(start);
    while date_stepper <= end {
        assert_eq!(gl.fetch_amount(date_stepper, String::from("2020")), Some(&usd(1.0)));
        assert_eq!(gl.fetch_amount(date_stepper, String::from("4000")), Some(&usd(-1.0)));

        date_stepper = next_day(date_stepper);
    }
}

#[test]
fn test_two_even_partial_payments_against_rent() {
    let mut gl = GeneralLedger::new();

    let rent_charge = Assessment::new(
        usd(30.0),
        String::from("4000"),
        instant(Utc.ymd(2017, 11, 1).and_hms(0, 0, 0)),
        Some(instant(Utc.ymd(2017, 11, 1).and_hms(0, 0, 0))),
        Some(instant(Utc.ymd(2017, 11, 30).and_hms(0, 0, 0))),
    );

    let payment1 = Payment::new(
        usd(15.0),
        String::from("1000"),
        instant(Utc.ymd(2017, 11, 1).and_hms(0, 0, 0)),
        usd(30.0),
        String::from("4000"),
        Some(instant(Utc.ymd(2017, 11, 1).and_hms(0, 0, 0))),
        Some(instant(Utc.ymd(2017, 11, 30).and_hms(0, 0, 0))),
        instant(Utc.ymd(2017, 11, 1).and_hms(0, 0, 0)),
        None,
        usd(0.0),
    );

    let payment2 = Payment::new(
        usd(15.0),
        String::from("1000"),
        instant(Utc.ymd(2017, 11, 1).and_hms(0, 0, 0)),
        usd(30.0),
        String::from("4000"),
        Some(instant(Utc.ymd(2017, 11, 1).and_hms(0, 0, 0))),
        Some(instant(Utc.ymd(2017, 11, 30).and_hms(0, 0, 0))),
        instant(Utc.ymd(2017, 11, 1).and_hms(0, 0, 0)),
        None,
        usd(15.0),
    );

    rent_charge.process(&mut gl);
    payment1.process(&mut gl);
    payment2.process(&mut gl);

    assert_eq!(gl.fetch_amount(payment1.effective_on.date(), String::from("1000")), Some(&usd(30.0)));
    assert_eq!(gl.fetch_amount(payment1.effective_on.date(), String::from("2020")), Some(&usd(-29.0)));
    assert_eq!(gl.fetch_amount(payment1.effective_on.date(), String::from("4000")), Some(&usd(-1.0)));

    let start = rent_charge.service_start_date.unwrap().date();
    let end = rent_charge.service_end_date.unwrap().date();
    let mut date_stepper = next_day(start);
    while date_stepper <= end {
        assert_eq!(gl.fetch_amount(date_stepper, String::from("2020")), Some(&usd(1.0)));
        assert_eq!(gl.fetch_amount(date_stepper, String::from("4000")), Some(&usd(-1.0)));

        date_stepper = next_day(date_stepper);
    }
}
