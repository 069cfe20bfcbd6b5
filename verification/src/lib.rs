//! An HTTP/1.1 server core: request framing, pattern routing and response
//! serialization, with contracts proved by Verus.

pub mod bindings;
pub mod config;
pub mod error;
pub mod http;
pub mod router;
pub mod server;
pub mod text;
pub mod utils;

pub use error::Error;
