use vstd::prelude::*;

use crate::text::text_eq;

verus! {

/// The accounts-receivable account that a revenue account is billed against:
/// rent (4000) against 1101, fees (4050) against 1103.
pub open spec fn receivable_code_of(account_code: Seq<char>) -> Option<Seq<char>> {
    if account_code == "4000"@ {
        Some("1101"@)
    } else if account_code == "4050"@ {
        Some("1103"@)
    } else {
        None
    }
}

/// The deferred-revenue account that prepayments of a revenue account are
/// held in: rent (4000) in 2020.
pub open spec fn deferred_code_of(account_code: Seq<char>) -> Option<Seq<char>> {
    if account_code == "4000"@ {
        Some("2020"@)
    } else {
        None
    }
}

/// The accounts-receivable account of a revenue account, where it has one.
pub fn accounts_receivable_code(account_code: &str) -> (r: Option<String>)
    ensures
        r matches Some(s) ==> receivable_code_of(account_code@) == Some(s@),
        r is None ==> receivable_code_of(account_code@) is None,
{
    if text_eq(account_code, "4000") {
        Some(String::from_str("1101"))
    } else if text_eq(account_code, "4050") {
        Some(String::from_str("1103"))
    } else {
        None
    }
}

/// The deferred-revenue account of a revenue account, where it has one.
pub fn deferred_code(account_code: &str) -> (r: Option<String>)
    ensures
        r matches Some(s) ==> deferred_code_of(account_code@) == Some(s@),
        r is None ==> deferred_code_of(account_code@) is None,
{
    if text_eq(account_code, "4000") {
        Some(String::from_str("2020"))
    } else {
        None
    }
}

} // verus!
