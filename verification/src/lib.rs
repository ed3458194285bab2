//! Verified core of the Strecklistan inventory and payment logic.
//!
//! Database access, HTTP plumbing and the browser runtime stay outside this
//! crate; what remains here are the decisions those layers act upon.

pub mod bundles;
pub mod csv_import;
pub mod csv_response;
pub mod events;
pub mod inventory;
pub mod izettle;
pub mod models;
