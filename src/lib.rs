//! Parsing and formatting of `arn:partition:service:region:account-id:resource` identifiers.
pub mod naive;
pub mod round_trip;
pub mod split;
mod utf8_facts;
