pub mod api;
pub mod assign;
pub mod auth;
pub mod codes;
pub mod datetime;
pub mod fees;
pub mod household;
pub mod laws;
pub mod model;
pub mod password;
pub mod settle;
pub mod store;
pub mod users;

use vstd::prelude::*;

verus! {

/// The error taxonomy of the service: every fallible operation of the
/// library reports one of these, mirroring the HTTP statuses of the API.
#[derive(Clone, Copy, Debug, PartialEq, Eq, Structural)]
pub enum ApiError {
    /// Missing or invalid credentials.
    Unauthorized,
    /// The caller's role does not permit the operation.
    Forbidden,
    /// A fee, room, assignment or user does not exist.
    NotFound,
    /// The request is well-formed but its content is rejected.
    BadRequest,
    /// A store write failed or an internal step could not complete.
    Internal,
    /// The endpoint exists but is not implemented.
    NotImplemented,
}

} // verus!
