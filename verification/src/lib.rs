//! A library that extracts a navigable keybinding reference from an annotated
//! window-manager configuration file and makes it searchable.
//!
//! The annotation grammar is stated as spec functions over character
//! sequences; the executable parser is proved to compute exactly that
//! grammar. A fuzzy-search layer filters and ranks the extracted keybindings.

pub mod app;
pub mod color;
pub mod error;
pub mod grammar;
pub mod parser;
pub mod render;
pub mod scan;
pub mod search;
pub mod token;
pub mod user_config;
