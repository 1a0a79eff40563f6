//! Envelope budgeting: dated transactions are recorded against named
//! categories, monthly allocations move money between categories, and
//! per-category, per-month summaries are kept up to date on every write.

pub mod budget;
pub mod category;
mod ident;
pub mod ledger;
pub mod summary;
pub mod text;
pub mod transaction;
pub mod types;

pub use crate::budget::Budget;
pub use crate::category::{Categories, Category, CategoryId, MasterCategory};
pub use crate::ledger::Ledger;
pub use crate::summary::{Allocation, Summary};
pub use crate::transaction::{Source, Transaction};
pub use crate::types::amount::Amount;
pub use crate::types::month::{CalendarMonth, Month};
pub use crate::types::timestamp::Timestamp;
