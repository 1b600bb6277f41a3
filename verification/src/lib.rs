//! Credential resolution and request signing for a command-line HTTP client
//! that talks to AWS-style services.

pub mod auth;
pub mod aws;
pub mod config;
pub mod request;
pub mod text;
