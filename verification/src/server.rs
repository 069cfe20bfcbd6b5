//! The connection pipeline: framing, dispatch and what goes back on the
//! wire.

pub mod connection;
pub mod endpoints;
pub mod files;
pub mod framing;
pub mod round_trip;

pub use connection::{Action, Connection, Event, State};
pub use endpoints::{Endpoint, FileHandlers, Server};
pub use framing::parse_request;
