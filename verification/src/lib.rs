//! A small service that stores files and logs, and its command line client.
//!
//! The library holds what the two decide and compute; reading, writing and sending are left to
//! the programs around it.
//!
//! - `calendar`, `timestamp`: dates as numbers of days, timestamps as milliseconds.
//! - `namespace`, `like`, `text`, `json`: the texts and values that requests are made of.
//! - `logs`, `query`, `error`: what a request to write or to find logs is answered, and the SQL
//!   that carries it out.
//! - `cli`, `url`, `client`, `archive`: what the client asks of the server, and what it does with
//!   the answers.

pub mod archive;
pub mod calendar;
pub mod cli;
pub mod client;
pub mod error;
pub mod json;
pub mod like;
pub mod logs;
pub mod namespace;
pub mod query;
pub mod text;
pub mod timestamp;
pub mod url;
