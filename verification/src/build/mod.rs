//! Build reporting types.

pub mod plan;
pub mod rebuild;
pub mod types;
