//! A registry that leases a fixed pool of named accounts: at most one holder
//! per account, a first-come-first-served waiting list, and a consistent
//! status report.

pub mod laws;
pub mod registry;
