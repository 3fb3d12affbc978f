//! What GitLab sends and is sent.
pub mod client;
pub mod diff;
pub mod types;
