//! A deterministic transaction-processing core for a mobility-asset
//! financing program: a loan pool that crowdfunds mobility assets, an
//! equity-aware rate adjuster for loan applications, a revenue
//! distributor with equity bonuses, and equity-weighted governance.
//!
//! Principals, symbols and locations are byte strings, as the host
//! ledger renders them; timestamps and the calling principal enter
//! every transaction as explicit arguments.
pub mod arith;
pub mod bytes;
pub mod digest;
pub mod equity_rate_adjuster;
pub mod governance;
pub mod loan_pool;
pub mod revenue_distributor;
