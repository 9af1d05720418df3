//! Verified core of a command-line client for a project-tracking GraphQL API.
//!
//! The library holds the logic worth proving: classification of a decoded
//! response envelope into payload or error, the cursor-based pagination
//! driver with its limit and filtering rules, and the filter predicates
//! themselves. Network transport, argument parsing and rendering live in the
//! surrounding application, which drives the state machine defined here.

pub mod args;
pub mod client;
pub mod filter;
pub mod item;
pub mod paginate;
pub mod shared;
