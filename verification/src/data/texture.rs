//! Textures.

use std::sync::Arc;
use vstd::prelude::*;

verus! {

/// A texture of the simulated world.
pub struct Texture {
    /// The texture id on the grid.
    pub id: u128,
    /// The loaded texture, shared by everything that shows it.
    pub handle: Arc<TextureHandle>,
}

/// A loaded texture.
pub struct TextureHandle {}

} // verus!
