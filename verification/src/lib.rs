//! A general ledger for rent and fee accounting, kept by double entry: every
//! amount recorded is debited to one account and credited to another on the
//! same day, so each day's balances add up to zero.

pub mod account_map;
pub mod general_ledger;
pub mod schedule;
pub mod text;
pub mod time;
pub mod transaction;
pub mod usd;
