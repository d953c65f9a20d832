# ledger

A double-entry general ledger for rent and fee accounting, verified with Verus.

Every amount is recorded as a debit to one account and a credit to another on
the same day, so every day's balances sum to zero. Rent (account 4000) accrues
day by day over its service period, fees (4050) at once; payments settle what
is receivable and hold the rest as deferred revenue, released day by day.

Layout:

- `src/usd.rs`: amounts in whole pennies, and their printed form.
- `src/time.rs`: instants and calendar days, with the date arithmetic done by chrono.
- `src/text.rs`: comparison of account codes.
- `src/account_map.rs`: the receivable and deferred accounts of each revenue account.
- `src/schedule.rs`: spreading an amount over the days of a service period.
- `src/general_ledger.rs`: the ledger itself, its double entries and its report.
- `src/transaction.rs`: assessments and payments, the double entries they make, and their processing.
- `app/main.rs`: printing the ledger, reading float amounts, and converting chrono values.
