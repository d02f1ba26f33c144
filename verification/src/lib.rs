//! The core of an HTTP/1.1 server for Rack applications: what it reads, what it
//! answers and what it decides, without the input and output around it.
//!
//! - [`connection`] takes one connection from its first byte to its last, with
//!   [`head`] for the requests and [`response`] for the answers; [`laws`] says
//!   what holds of connections as a whole, and [`runs`] what becomes of all that
//!   arrives on one.
//! - [`handler`] is the interface to the application behind the server, and
//!   [`rack`] and [`spool`] are what a Rack application needs besides.
//! - [`server`], [`counter`], [`config`] and [`watchdog`] run the server as a
//!   whole, and [`io_backend`] looks at the kernel beneath it.
//! - [`text`] holds the letters and numbers that all of them deal in.
//! - [`promises`] says what all of it comes to for clients and applications.

pub mod config;
pub mod connection;
pub mod counter;
pub mod handler;
pub mod head;
pub mod io_backend;
pub mod laws;
pub mod promises;
pub mod rack;
pub mod response;
pub mod runs;
pub mod server;
pub mod spool;
pub mod text;
pub mod watchdog;

pub use crate::counter::ConnectionCounter;
pub use crate::handler::{Handler, HandlerResponse, ParsedRequest, ResponseBody};
