//! A small inventory ledger: product records keyed by monotonically
//! allocated 64-bit identifiers, with validated create/read/update/delete
//! and stock-adjustment operations.

pub mod inventory;
pub mod product;
