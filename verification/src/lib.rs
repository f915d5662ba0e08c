//! Aggregation engine for a field-level transit-query resolver.
//!
//! The library receives plain, already-fetched transit data (stops, routes,
//! trips, alerts) and reshapes it into the nested structures the query layer
//! expects: nearby-train-time lookups and route-status lookups.  All
//! transport, logging and process bootstrap live outside the library.

pub mod direction;
pub mod dispatch;
pub mod epoch;
pub mod error;
pub mod model;
pub mod nearby;
pub mod status;
pub mod text;

use vstd::prelude::*;
use vstd::string::*;

verus! {

/// Error raised by the dispatcher when the requested field name is not one
/// of the operations this resolver knows.
#[derive(Debug, Clone, PartialEq, Eq)]
pub enum GraphQLError {
    UnknownFieldName(String),
}

impl GraphQLError {
    /// Human-readable description, naming the unrecognized field.
    pub fn message(&self) -> (r: String)
        ensures
            (match self {
                GraphQLError::UnknownFieldName(f) => r@ == "Unknown fieldName: "@ + f@,
            }),
    {
        match self {
            GraphQLError::UnknownFieldName(f) => {
                let head = String::from_str("Unknown fieldName: ");
                head.concat(f.as_str())
            },
        }
    }
}

} // verus!
