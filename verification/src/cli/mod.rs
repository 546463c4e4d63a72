//! The command line: reading commands, asking the daemon, showing answers.

pub mod bgp;
pub mod bmp;
pub mod commands;
pub mod endpoint;
pub mod error;
pub mod fmt;
pub mod grammar;
pub mod http;
pub mod lex;
pub mod lines;
pub mod pipe;
pub mod prompt;
pub mod routes;
pub mod session;
pub mod system;
pub mod table;
pub mod tree;
