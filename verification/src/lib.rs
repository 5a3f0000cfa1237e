//! A minimal concurrent static-file server, as a verified library.
//!
//! The library holds the pure core of the server: parsing the request
//! line, resolving the requested path, deciding between serving a file
//! and answering not-found, formatting the append-only request log, and
//! the shutdown coordinator's state machine.  The surrounding process
//! (sockets, threads, signal handling, file I/O) lives outside and calls
//! into these functions with plain values.

pub mod handler;
pub mod lifecycle;
pub mod logfmt;
pub mod parse;
