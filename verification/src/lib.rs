//! A small HTTP routing and middleware engine.
//!
//! An inbound request is matched, by method and path pattern, to a handler;
//! the request and response are threaded through an ordered middleware
//! pipeline; handlers read a buffered request body and write exactly one
//! response.

pub mod blog;
pub mod codec;
pub mod http;
pub mod matcher;
pub mod pipeline;
pub mod router;
pub mod posts;
pub mod strings;
