//! A structured error value for request-handling code.
//!
//! One error type carries an HTTP status code, an application-defined domain
//! tag and a human-readable message, packed into a single colon-separated
//! string, together with the display strings of the causal chain that led to
//! it. The [`codec`] module proves the encode/decode scheme correct.

pub mod codec;
pub mod error;
pub mod response;

pub use crate::error::HttpResult;
pub use crate::error::HttpWhatever;
