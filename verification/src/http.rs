//! The message model: requests, responses and what they are made of.

pub mod headers;
pub mod method;
pub mod pairs;
pub mod params;
pub mod request;
pub mod response;
pub mod status;
pub mod uri;

pub use headers::{HeaderMap, HeaderValue};
pub use method::{Method, Version};
pub use params::Params;
pub use request::{Request, RequestView};
pub use response::{Response, ResponseView};
pub use status::StatusCode;
pub use uri::Uri;
