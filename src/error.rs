use vstd::prelude::*;
use crate::token::TokenError;

verus! {

/// Why an authorization rule denied a request.
#[derive(Debug, Clone, Copy, PartialEq, Eq, Structural)]
pub enum AuthorizationError {
    /// The caller's role is not in the action's allow-set.
    RoleDenied,
    /// The caller neither owns the resource nor is an admin.
    OwnershipDenied,
}

/// Every failure the core can report, typed where it arises.
#[derive(Debug, Clone, Copy, PartialEq, Eq, Structural)]
pub enum Error {
    /// Unknown username or wrong password at login; the two are not told apart.
    InvalidCredentials,
    /// A protected request carried no credential header.
    MissingToken,
    /// The presented token was rejected.
    Token(TokenError),
    /// An authorization rule denied the request.
    Forbidden(AuthorizationError),
    /// An uploaded file is not an executable.
    Datatype,
    /// The request payload could not be read.
    Json,
    /// A timestamp does not fit the token's integer width.
    Conversion,
    /// The password hashing step failed.
    Hashing,
    /// The credential or resource store failed.
    Upstream,
}

/// The external status code of each failure: 401 for authentication, 403 for
/// authorization, 400 for malformed requests, 500 otherwise.
pub open spec fn status_of(e: Error) -> u16 {
    match e {
        Error::InvalidCredentials | Error::MissingToken | Error::Token(_) => 401,
        Error::Forbidden(_) => 403,
        Error::Datatype | Error::Json => 400,
        Error::Conversion | Error::Hashing | Error::Upstream => 500,
    }
}

/// The external message of each failure; it never carries internal detail.
pub open spec fn message_of(e: Error) -> &'static str {
    match e {
        Error::InvalidCredentials => "Invalid credentials",
        Error::MissingToken | Error::Token(_) => "You're not allowed to be in here, please login",
        Error::Forbidden(_) => "You are not authorized to access this resource",
        Error::Datatype => "Expected an executable (.exe) file",
        Error::Json => "Invalid JSON format in the request",
        Error::Conversion | Error::Hashing | Error::Upstream => "Something went wrong on the server",
    }
}

impl Error {
    /// The HTTP status code that this failure is reported with.
    pub fn status(&self) -> (r: u16)
        ensures
            r == status_of(*self),
    {
        match self {
            Error::InvalidCredentials | Error::MissingToken | Error::Token(_) => 401,
            Error::Forbidden(_) => 403,
            Error::Datatype | Error::Json => 400,
            Error::Conversion | Error::Hashing | Error::Upstream => 500,
        }
    }

    /// The message that this failure is reported with.
    pub fn message(&self) -> (r: &'static str)
        ensures
            r == message_of(*self),
    {
        match self {
            Error::InvalidCredentials => "Invalid credentials",
            Error::MissingToken | Error::Token(_) =>
                "You're not allowed to be in here, please login",
            Error::Forbidden(_) => "You are not authorized to access this resource",
            Error::Datatype => "Expected an executable (.exe) file",
            Error::Json => "Invalid JSON format in the request",
            Error::Conversion | Error::Hashing | Error::Upstream =>
                "Something went wrong on the server",
        }
    }
}

} // verus!
