//! The AWS provider: the shared configuration file format, credential and
//! region resolution, and request signing.

pub mod config;
pub mod credentials;
pub mod signing;
