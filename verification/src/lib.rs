//! A zero-copy HTTP/1.x request parser paired with a response builder and
//! serializer, for use inside a non-blocking connection pipeline.
//!
//! Every function here is synchronous and works on memory it is handed: the
//! transport appends inbound bytes to a [`ByteBuffer`], asks the [`Parser`]
//! for a [`Request`], and writes out what the [`Serializer`] renders from a
//! [`Response`]. The clock is the caller's too: the serializer is told the
//! moment that it dates a response with.
//!
//! [`site`] holds what a server of static files decides between a request
//! and its response, as far as that can be said without touching the disk.

pub mod buffer;
pub mod date;
pub mod decimal;
pub mod request;
pub mod response;
pub mod scan;
pub mod site;
pub mod text;

pub use buffer::ByteBuffer;
pub use request::{Parsed, Parser, Request, RequestHeaders, Span};
pub use response::{Response, Serializer, StatusCode};
