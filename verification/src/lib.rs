//! A small verified HTTP/1.1 framing engine for hosting a JSON API, one
//! request per connection: request-head parsing with case-insensitive
//! headers, an exactly-length-delimited body codec, and byte-exact response
//! writing, all over an in-memory byte stream that the caller feeds and
//! drains.

pub mod ascii;
pub mod errors;
pub mod headers;
pub mod request;
pub mod json;
pub mod context;
pub mod lines;
pub mod route;
pub mod snake;
