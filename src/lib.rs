//! Import of bank CSV exports into a personal ledger: recognition of the bank's
//! layout, tolerant parsing of dates and amounts, position-aware deduplication
//! hashes, rule-based categorisation, and the wizard that categorises the rest.

pub mod text;
pub mod amount;
pub mod date;
pub mod models;
pub mod profile;
pub mod csv_import;
pub mod dedup;
pub mod pattern;
pub mod categorize;
pub mod wizard;
pub mod util;
