//! What holds of the library as a whole, told by what goes in and what comes out.
pub mod caches;
pub mod categories;
pub mod cleanup;
pub mod details;
pub mod devices;
pub mod docker;
pub mod items;
pub mod macos;
pub mod places;
pub mod projects;
pub mod safety;
pub mod screen;
pub mod session;
pub mod sizes;
pub mod steps;
pub mod stores;
pub mod words;
