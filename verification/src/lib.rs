//! Folds an ordered stream of deposits, withdrawals, disputes, resolves and
//! chargebacks into one balance record per client.
//!
//! Balances are exact fixed-point numbers with four fractional digits. The
//! rules by which a record changes an account are the model in [`rules`];
//! [`ledger`] applies them, [`partition`] groups the records by client and
//! folds each group, and [`laws`] proves what holds of every ledger. Decimals
//! are rounded and compared by `rust_decimal`, events are put in order by
//! `rayon`, and [`generate`] draws random records with `rand`.

pub mod account;
pub mod amount;
pub mod cli;
pub mod generate;
pub mod laws;
pub mod ledger;
pub mod partition;
pub mod rules;
pub mod table;
pub mod transaction;
