//! A gateway core that turns an HTTP request into a CGI/1.1 invocation and the
//! program's output back into an HTTP response, behind a cookie-token guard.
//!
//! All text is handled as octets: a header value, an environment value or a
//! line of program output is a `Vec<u8>` whose view is a `Seq<u8>`.

pub mod text;
pub mod outside;
pub mod cgi;
pub mod env;
pub mod gateway;
pub mod auth;
