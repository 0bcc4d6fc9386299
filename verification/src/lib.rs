//! A versioned, transactional object store for binary assets.
//!
//! The library models a local persistent store of named record
//! collections ("stores"): schema creation and forward-only migration,
//! scoped read and read-write transactions with all-or-nothing commits,
//! and the pipeline that turns stored binary payloads into consumable
//! forms (display references for binary assets, decoded text for style
//! content).

pub mod errors;
pub mod record;
pub mod store;
pub mod db;
pub mod schema;
pub mod txn;
pub mod pipeline;
pub mod phase;
