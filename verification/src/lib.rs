//! Core of a static-site build orchestrator: a content-addressable build
//! cache, a tree builder that turns a nested-list book summary into linked
//! chapters, and the state machines behind change watching and live reload.

pub mod book;
pub mod build_cache;
pub mod builder;
pub mod config;
pub mod document;
pub mod document_operations;
pub mod error;
pub mod executor;
pub mod front_matter;
pub mod list;
pub mod parse_event_handlers;
pub mod reload;
pub mod server;
pub mod strings;
pub mod style;
pub mod utils;
