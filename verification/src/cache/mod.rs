//! Cache stores: where entries live and how reads and writes of them go.
pub mod errors;
pub mod store;
pub mod evict;
