//! Verified core of a broadcast server: broadcasters publish a version string
//! per channel, readers fetch the snapshot of all of them.
//!
//! The library holds the rules and no I/O: the token registry and the
//! authorization decisions ([`auth`]), the table of versions ([`db`]), the
//! errors and how they are answered ([`error`], [`response`]), what each
//! route decides ([`http`]), the form of the logs ([`logging`]) and the tags
//! of metrics ([`tags`]). A server hands it plain values and carries out
//! what it returns.

pub mod auth;
pub mod db;
pub mod error;
pub mod http;
pub mod logging;
pub mod response;
pub mod string_map;
pub mod tags;
