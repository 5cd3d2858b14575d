//! Decision logic of a developer cleanup tool for macOS and Linux.

pub mod binary64;
pub mod bounds;
pub mod caches;
pub mod cleanup;
pub mod config;
pub mod docker;
pub mod extra;
pub mod filesystem;
pub mod index;
pub mod inquiry;
pub mod json;
pub mod laws;
pub mod macos;
pub mod managed;
pub mod model;
pub mod natural;
pub mod options;
pub mod order;
pub mod overlap;
pub mod path;
pub mod platform;
pub mod process;
pub mod projects;
pub mod providers;
pub mod removal;
pub mod rows;
pub mod scan;
pub mod screen;
pub mod stores;
pub mod text;
pub mod ui;
pub mod unique;
