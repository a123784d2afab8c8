//! Authentication and authorization core for a resource API: password
//! checks, signed identity tokens, request authentication, and the role and
//! ownership rules that guard mutations.

pub mod role;
pub mod error;
pub mod model;
pub mod base64url;
pub mod payload;
pub mod token;
pub mod credential;
pub mod policy;
pub mod auth;
