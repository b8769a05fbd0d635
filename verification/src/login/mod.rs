//! Login credentials: identifiers, keys, at-rest encryption and portable
//! export.
pub mod crypto;
pub mod transfer;
