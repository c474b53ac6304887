//! Event-driven HTTP/1.1 server core, verified with Verus.
//!
//! - [`engine`]: the per-connection state machine that frames a request out
//!   of the bytes read, enforces the payload limit and hands the reply back.
//! - [`trace`]: what holds of every run of the engine.
//! - [`head`]: the request head, as parsed by `httparse`.
//! - [`meta`], [`content`]: what the headers say about the body.
//! - [`response`], [`status`]: responses and their bytes on the wire.
//! - [`config`]: the server's settings.
//! - [`lines`]: a lenient, line-based reader of header blocks.
//! - [`text`]: the byte and text primitives underneath.

pub mod config;
pub mod content;
pub mod engine;
pub mod head;
pub mod lines;
pub mod meta;
pub mod response;
pub mod status;
pub mod text;
pub mod trace;
