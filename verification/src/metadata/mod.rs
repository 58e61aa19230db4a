//! The `global-metadata.dat` file of an il2cpp game.

use vstd::prelude::*;

pub mod method_indices;
pub mod method_indices_laws;
pub mod structural;
pub mod structural_laws;

verus! {

/// First word of a metadata file.
pub const MAGIC: u32 = 0xFAB1_1BAF;

} // verus!
