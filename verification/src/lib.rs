//! A dictionary-lookup server core for Japanese text input.
//!
//! Input-method clients open a byte stream and issue one-character commands;
//! the server answers with candidate lists composed from locally loaded
//! dictionaries and an optional remote transliteration fallback.  This crate
//! holds the protocol codec, the dictionary parsers and store, the lookup
//! pipeline, the per-connection session state machine, and the controller
//! that supervises the desired server state.  Network and file I/O live in
//! the surrounding application.

pub mod codec;
pub mod config;
pub mod controller;
pub mod dict;
pub mod encoding;
pub mod error;
pub mod handler;
pub mod interface;
pub mod log;
pub mod session;
pub mod shell;
pub mod store;
pub mod text;
