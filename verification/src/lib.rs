//! Dispatch key and region registry.
//!
//! Loads, validates, and indexes the per-region routing metadata and the
//! cryptographic key material (RSA keypairs selected by a numeric key
//! identifier, and XOR-obfuscation "EC2B" keypairs) that a dispatch server
//! hands to connecting game clients.

pub mod errors;
pub mod ini_model;
pub mod keys;
pub mod laws;
pub mod parse;
pub mod registry;
pub mod rsa;
pub mod store;
