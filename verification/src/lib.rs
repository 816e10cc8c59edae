//! A pull-mode producer of tar archives.
//!
//! Entries are scheduled on a [`streamer::Streamer`]; the archive is then
//! pulled out of it piece by piece into buffers that the caller owns. The
//! producer touches no file and no stream: it says what it needs, and is
//! told what was found.
//!
//! - [`block`]: blocks of 512 bytes and their padding.
//! - [`header`]: the header record and its fields.
//! - [`paths`]: paths as the bytes that an archive stores.
//! - [`prepare`]: the bytes that open an entry, with the extension records
//!   for long paths and long link targets.
//! - [`model`]: the producer as a mathematical object.
//! - [`streamer`]: the producer.
//! - [`walk`]: the decisions of a walk through a directory tree.
//! - [`laws`]: what holds of every producer.

pub mod block;
pub mod error;
pub mod header;
pub mod laws;
pub mod model;
pub mod paths;
pub mod prepare;
pub mod streamer;
pub mod walk;
