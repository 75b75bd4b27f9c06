//! Best-first layout search on an integer grid.

pub mod asset_import;
pub mod category_types;
pub mod furniture_types;
pub mod layout;
pub mod models;
pub mod search;
pub mod types;
