//! Declarations of the outside crates' types that appear in this library's
//! signatures and fields, and the trusted wrappers around their functions.

pub mod gimli_api;
pub mod object_api;
