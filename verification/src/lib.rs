//! A verified library for a multi-tenant personal-homepage HTTP/1.0 server.
//!
//! The library holds the logic of the server: request parsing and response
//! composition, URL percent coding, path resolution with sandboxing,
//! handler selection, the transcluding file expander, the autoindex page
//! generator, and the shared admission-and-cache state.  All file, socket
//! and process I/O lives outside the library; callers gather plain values
//! (strings, bytes, flags) and hand them to the verified functions here.

pub mod autoindex;
pub mod datetime;
pub mod dispatch;
pub mod escape;
pub mod httpmsg;
pub mod kvmap;
pub mod outside;
pub mod paths;
pub mod percent;
pub mod shared_state;
pub mod strutil;
pub mod transclude;
