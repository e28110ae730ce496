//! A minimal static-content HTTP server library.
//!
//! The verified core of a tiny file server: percent-encoding of URL paths,
//! the request-line grammar, path resolution, the MIME table, the bytes of
//! each response, and the dispatch queue that a worker pool drains.
//! Listening sockets, filesystem reads and threads live in the surrounding
//! binary; everything that decides or builds bytes lives here.

pub mod codec;
pub mod mime;
pub mod paths;
pub mod pool;
pub mod request;
pub mod response;
pub mod util;
