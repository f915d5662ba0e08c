//! Error taxonomy of the resolver core.
//!
//! Validation failures reject a request before any aggregation runs;
//! integrity failures abort a whole aggregation with no partial result.
//! Transport failures never arise here: the library only sees data that
//! was already fetched.

use vstd::prelude::*;

verus! {

/// A request argument is missing or malformed.
#[derive(Debug, Clone, PartialEq, Eq, Structural)]
pub enum ValidationError {
    /// The direction argument is not a recognized code or word.
    InvalidDirection,
}

/// The fetched data breaks an assumption the aggregation relies on; the
/// whole request fails and no partial result is returned.
#[derive(Debug, Clone, PartialEq, Eq)]
pub enum IntegrityError {
    /// A stop retained for the answer carries no coordinate, so no
    /// distance could be computed for it.  Carries the stop identifier.
    MissingCoordinate(String),
    /// A stop retained for the answer carries no name.  Carries the stop
    /// identifier.
    MissingStopName(String),
    /// A route references an alert identifier absent from the alerts
    /// fetch.  Carries the referenced alert identifier.
    UnknownAlertId(String),
}

} // verus!
