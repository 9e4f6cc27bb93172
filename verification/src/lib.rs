//! Path resolution and directory-listing engine for a static-content server.
//!
//! The crate turns an untrusted, already percent-decoded request path into a
//! safe filesystem lookup: traversal attempts are rejected lexically before
//! any filesystem probe, a trailing-slash variant and the path as given are
//! tried as regular files, and finally a bounded upward walk looks for an
//! `index.html`, stopping at the root.  Every path the resolver probes or
//! serves lies lexically within the configured root.  A companion renderer
//! produces a self-contained HTML listing of a directory's visible entries
//! with independently computed URL and HTML encodings of each name.

pub mod config;
pub mod encoding;
pub mod listing;
pub mod paths;
pub mod resolve;
