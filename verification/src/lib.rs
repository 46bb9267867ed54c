//! The core of a superserver in the inetd tradition: an xinetd-style
//! configuration language with a `default` block, typed options, strict
//! duplicate detection and span-carrying errors, and the decisions of
//! the readiness loop that listens for many services and runs one child
//! program per accepted connection.
//!
//! Every function here carries a contract; the binding, accepting,
//! forking and reaping themselves belong to the program built on top,
//! which asks this crate what to do at each step.

pub mod addr;
pub mod config;
pub mod config_types;
pub mod error;
pub mod laws;
pub mod num;
pub mod parse;
pub mod serve;
pub mod service;
pub mod span;
pub mod text;

pub use config_types::{InetType, ProgArgs, SocketType};
pub use error::Error;
