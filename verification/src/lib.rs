//! A verified core for a multi-tenant reverse proxy.
//!
//! The library covers the request-processing pipeline: configuration
//! normalization, longest-prefix routing, the authentication check, header
//! rewriting, the retry/fallback attempt engine, response classification and
//! capture, the bounded log ring, and per-upstream statistics. All of it is
//! stated in contracts and checked; the hosting process supplies the actual
//! network I/O and drives the engine with the outcomes it observes.

pub mod auth;
pub mod config;
pub mod engine;
pub mod forward;
pub mod headers;
pub mod logentry;
pub mod logring;
pub mod network;
pub mod stats;
pub mod paths;
pub mod route;
pub mod text;
