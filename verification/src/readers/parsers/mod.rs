//! The banks whose statements can be read, and the choice among them.

pub mod types;
pub mod hdfcind;
pub mod icicind;
pub mod sources;
pub mod amounts;
pub mod hdfcind_xls;
pub mod patterns;
pub mod hdfcind_pdf;
