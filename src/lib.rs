//! Host side of a small single-threaded JavaScript runtime: the decisions of
//! its event loop, its wire formats and its bookkeeping of script callbacks.

pub mod text;
pub mod headers;
pub mod response;
pub mod request;
pub mod wire;
pub mod client;
pub mod stream;
pub mod emitter;
pub mod runtime;
