//! A library for managing a directory of installed game-mod packages.
//!
//! It keeps a versioned index of the mods found on disk, tracks which mods
//! are enabled in a persisted manifest, and decodes the version and mod-list
//! metadata embedded in the game's save archives.

pub mod cli;
pub mod directory;
pub mod ident;
pub mod json;
pub mod settings;
pub mod sync;
pub mod version;
