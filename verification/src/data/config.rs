//! Where the viewer keeps its files.

use vstd::prelude::*;

verus! {

/// The directories of the viewer.
#[derive(Clone, Copy, Debug)]
pub struct Paths {}

impl Paths {
    /// The directory of the terrain disk cache, relative to the working
    /// directory.
    pub fn terrain_cache(&self) -> (path: String)
        ensures
            path@ == "target/cache/terrain"@,
    {
        "target/cache/terrain".to_owned()
    }
}

} // verus!
