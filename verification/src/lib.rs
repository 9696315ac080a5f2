//! Building and sealing of claim sets for version 4 local authentication
//! tokens.
//!
//! The crate models a claim set as an ordered list of named entries together
//! with a non-expiring marker, assembles it from caller-supplied registered
//! and custom claims under the reserved-name and expiry-precedence rules,
//! serializes it to its canonical JSON text, and hands the result to the
//! external encryption primitive. It also decodes and generates the symmetric
//! keys the primitive works with.

pub mod claims;
pub mod keys;
pub mod seal;
pub mod serialize;
pub mod strutil;
pub mod timefmt;
