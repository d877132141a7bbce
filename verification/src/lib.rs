//! An append-only donation ledger: an indexed record store with a monotonic
//! counter, per-recipient running totals, and paginated backward lookups by
//! donor or recipient.
//!
//! The ledger itself performs no value transfer and no I/O: authorization and
//! timestamps are supplied by the caller, and every operation is a function of
//! the ledger state and its plain-value arguments.

pub mod laws;
pub mod ledger;
pub mod records;
pub mod scan;
pub mod totals;
