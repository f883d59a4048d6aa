//! Profiles for the SpacetimeDB command line: named pairs of a credential and a
//! server address, and the rules that keep the command line's own configuration
//! document in step with the profile that is active.

pub mod address;
pub mod commands;
pub mod document;
pub mod error;
pub mod mask;
pub mod order;
pub mod profile;
pub mod registry;
pub mod select;
pub mod settings;
pub mod store;
pub mod sync;
pub mod text;
