//! Verified core of a directory-browser backend.
//!
//! The library takes the raw children of a directory, as plain values that the
//! caller read from the filesystem, and produces the listing a file browser
//! shows: hidden directories dropped, every entry classified and given its
//! extension, directories first, each group sorted by name. Two small helpers
//! collapse fallible probes (a metadata query, a home-directory lookup) into
//! the benign defaults the interface promises.

pub mod commands;
pub mod entry;
pub mod listing;
pub mod name_order;
