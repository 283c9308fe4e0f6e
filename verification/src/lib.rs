//! Verified core of a heightmap generator: it picks the terrain chunk among
//! exported chunk files, gathers the meshes that the chunks list, resolves
//! mesh asset paths, stitches loaded meshes into one face list, crops and
//! rotates the rendered height grid, and builds the per-pixel mesh lookup.
pub mod chunk;
pub mod error;
pub mod mesh;
pub mod crop;
pub mod text;
pub mod lookup;
