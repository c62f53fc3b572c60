//! Finds the translation files that mods and datapacks carry, parses them and merges
//! them into one map per locale, which a holder serves and refreshes.
//!
//! Nothing here touches the file system: a caller lists directories and reads files, and
//! hands over what it found as plain values.

pub mod archive;
pub mod config;
pub mod dictionary;
pub mod extract;
pub mod json;
pub mod merge;
pub mod pattern;
pub mod resolver;
pub mod text;
pub mod translations;
pub mod util;
pub mod web;
