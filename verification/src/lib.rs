//! Toto: a fuzzy finder for shell tricks kept in Markdown files.
//!
//! The library holds the verified logic: the trick-file grammar, the
//! variable store, fuzzy ranking, the picker's key handling and layout,
//! placeholder interpolation and the usage counts.

pub mod text;
pub mod display;
pub mod item;
pub mod matcher;
pub mod parser;
pub mod parser_laws;
pub mod picker;
pub mod frame;
pub mod runner;
pub mod usage;
pub mod config;
pub mod files;
pub mod laws;
