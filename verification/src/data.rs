//! The types that represent the state of the simulated world.

pub mod avatar;
pub mod config;
pub mod ids;
pub mod locators;
pub mod region;
pub mod terrain;
pub mod texture;
