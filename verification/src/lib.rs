//! Core logic of an MPRIS scrobbler daemon: the playback-tracking state
//! machine that decides when a "now playing" update and a scrobble must
//! fire, the multi-service dispatch and cache-replay decisions, the filter
//! process line protocol, and the durable cache store codec.

pub mod cache;
pub mod codec;
pub mod config;
pub mod filter;
pub mod player;
pub mod service;
pub mod strings;
pub mod track;
pub mod tracker;
