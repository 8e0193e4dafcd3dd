//! Terrain patch caching and delivery for a virtual-world viewer.
//!
//! The crate holds the decisions of the viewer: which cache entry is the
//! least recently used, which files a write makes obsolete, whether a patch
//! stays resident in memory, how a pending request advances. It performs no
//! file or network access itself. Callers carry out the file operations the
//! functions ask for and hand their outcome back.

pub mod cache;
pub mod camera;
pub mod config;
pub mod data;
pub mod networking;
pub mod render;
pub mod util;
