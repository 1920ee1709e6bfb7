//! A small HTTP/1.1 engine over raw byte streams: methods, status codes,
//! query strings, a request parser, response serialisation, and the
//! decisions of the connection routine and of the accept loop.
pub mod bytes;
pub mod connection;
pub mod error;
pub mod headers;
pub mod method;
pub mod query_string;
pub mod request;
pub mod request_lemmas;
pub mod response;
pub mod response_lemmas;
pub mod server;
pub mod status_code;

pub use connection::{Handler, Outcome};
pub use error::ParseError;
pub use headers::Headers;
pub use method::Method;
pub use query_string::{QueryString, Value as QueryStringValue};
pub use request::Request;
pub use response::Response;
pub use server::Server;
pub use status_code::StatusCode;
