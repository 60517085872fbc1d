//! Client-side access to a remote virtual-filesystem service.
//!
//! A process that cannot touch local storage delegates file operations to a
//! mediating service, reachable only through addressed request/response
//! messages over a message bus.  This crate maps each POSIX-like file
//! operation (open, read at offset, write at offset, truncate, length query)
//! onto exactly one canonical request, correlates and validates the matching
//! response and its optional binary payload, and presents the whole as a
//! stateless file handle with create-if-missing open semantics.
//!
//! The message bus itself is outside the crate: callers inject a
//! [`transport::Transport`] capability, and every contract here is stated
//! relative to the ghost log of interactions that the capability records.

pub mod handles;
pub mod laws;
pub mod protocol;
pub mod transport;
