//! Verified core of an HTTP traffic recorder and replay debugger: JSON
//! diffing of response bodies, list pagination and query planning,
//! captured-header encoding, replay planning and error reporting.

pub mod db;
pub mod diff;
pub mod diff_entries;
pub mod diff_laws;
pub mod diff_swap;
pub mod errors;
pub mod headers;
pub mod json;
pub mod json_text;
pub mod listing;
pub mod models;
pub mod replay;
pub mod text;
