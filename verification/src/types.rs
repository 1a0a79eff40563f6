//! Small value types shared by the rest of the crate.

pub mod amount;
pub mod month;
pub mod timestamp;
