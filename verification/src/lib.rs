//! A personal budget ledger: income and expense entries in whole cents, their
//! totals, the check of expenses against a budget limit, and the text rows in
//! which a ledger is shown and stored.

pub mod amount;
pub mod date;
pub mod input;
pub mod ledger;
pub mod money;
pub mod persist;
pub mod report;
pub mod text;
