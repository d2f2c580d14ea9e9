//! A verified core for a game mod manager: importing mods into staging, enabling and
//! disabling them (and their option sub-mods) by journaled file moves, profiles of enabled
//! mods, and the startup integrity scan.
pub mod archive;
pub mod error;
pub mod file_ops;
pub mod games;
pub mod import;
pub mod integrity;
pub mod journal;
pub mod migrations;
pub mod mods;
pub mod paths;
pub mod profiles;
pub mod records;
pub mod text;
pub mod toggle;
