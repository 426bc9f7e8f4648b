//! Catalog ingestion and playlist scheduling for an unattended video stream.
//!
//! The crate holds the decisions of the pipeline: how catalog pages are walked,
//! how batches are persisted, how the playlist advances and how downloads are
//! recorded. Network, disk and database traffic is left to the caller, which
//! hands plain values in and takes plain values back.
//!
//! * [`ia`]: the archive's requests and answers, the walk over the pages of a
//!   search, and the choice of the file to download.
//! * [`db`]: the store with its catalog, playlist and pointer, and the
//!   operations on it.
//! * [`model`]: the store as a mathematical value, and the laws that its
//!   operations obey.
//! * [`downloader`]: the bookkeeping of downloads and the worker behind the
//!   download queue.
//! * [`stream`] and [`ffmpeg`]: the manifest that the encoder reads, and the
//!   encoder's command line.
//! * [`text`] and [`error`]: helpers on text, and the kinds of failure.

pub mod error;
pub mod text;
pub mod ia;
pub mod model;
pub mod db;
pub mod downloader;
pub mod ffmpeg;
pub mod stream;
