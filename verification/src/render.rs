//! What the renderer draws, prepared for it.

pub mod terrain_land;
