//! A media-library catalog kept in step with a directory of audio files.
//!
//! The crate holds the rules of the library: how a file's tags become a
//! normalised record, how records fold into an artist / album / song tree,
//! and how that tree is reconciled with the rows already stored.

pub mod auth;
pub mod budget;
pub mod convergence;
pub mod database_sync;
pub mod endpoint_handlers;
pub mod entities;
pub mod explorer;
pub mod faithful;
pub mod flac_frame;
pub mod id3_frame;
pub mod keys;
pub mod matching;
pub mod media;
pub mod plan;
pub mod queries;
pub mod reconciler;
pub mod responses;
pub mod retention;
pub mod tag_parser;
pub mod text;
pub mod tree;
