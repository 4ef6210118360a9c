//! Control plane of a self-hosted anime media server, stated and proved with
//! Verus.
//!
//! - `parse`: filename parsing through anitomy into a parse record.
//! - `matcher`: title normalization, bigram similarity, subject scoring,
//!   episode resolution and auto-match planning.
//! - `catalog`: catalog records and the client's input rules.
//! - `index`: reconciling the media index with a directory scan.
//! - `jobs`: the job queue with deduplication, leases, retries, stuck-job
//!   recovery and retention.
//! - `media`, `hls`, `paths`: media files, HLS output and its serving rules.
//! - `ratelimit`, `auth`: the gateway's rate limiting, tokens and roles.
//! - `torrent`: input and answer rules of the torrent daemon client.
//! - `config`: settings, their defaults, files and validation.
//! - `text`: character-level helpers shared by the rest.

pub mod parse;
pub mod text;
pub mod matcher;
pub mod catalog;
pub mod jobs;
pub mod paths;
pub mod media;
pub mod hls;
pub mod config;
pub mod ratelimit;
pub mod auth;
pub mod index;
pub mod torrent;
