//! Engine pieces for a markdown-driven site server.
//!
//! The heart of the crate is [`bridge`], a model of the coroutine-to-future
//! bridge that lets synchronous, callback-driven code wait on asynchronous
//! results without blocking a worker thread.  Around it stand the pure parts
//! of the server: argument parsing, text sanitisation, ANSI-to-HTML log
//! conversion, page-metadata handling and date formatting.

pub mod args;
pub mod bridge;
pub mod embed;
pub mod log;
pub mod markdown;
pub mod sanitize;
pub mod supervisor;
pub mod template;
pub mod text;
pub mod utils;
