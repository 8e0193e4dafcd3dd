//! Small data structures used across the viewer.

pub mod bimap;
