//! A verified parser for HTTP/1.1 request framing.
//!
//! The library turns a raw byte sequence holding one HTTP/1.1 request into a
//! structured value: method, target path, header mapping and body. Malformed,
//! truncated or adversarial input never panics the parser; every failure is a
//! typed error.

pub mod headers;
pub mod laws;
pub mod method;
pub mod request;
pub mod scan;

pub use headers::HttpHeaders;
pub use method::HttpRequestMethod;
pub use method::http_request_method_from_string;
pub use request::HttpParseError;
pub use request::HttpRequest;
pub use request::parse_http_header;
pub use request::parse_http_request;
pub use request::parse_http_start_line;
