//! Dependency resolution and download planning for Minecraft mod packs.
//!
//! The crate holds the decisions of a mod-pack manager: which registry files
//! are compatible with a game version and loader, which packages a pack
//! transitively requires, and how a set of downloads is scheduled and summed
//! up. It performs no I/O itself: a caller fetches and stores bytes and feeds
//! the results back in.

pub mod api;
pub mod cli_helpers;
pub mod config;
pub mod dependency_resolver;
pub mod downloader;
pub mod error;
pub mod fmt;
pub mod local_pack;
pub mod models;
pub mod modpack;
pub mod objects;
pub mod resolver;
pub mod resolver_meta;
pub mod text;
