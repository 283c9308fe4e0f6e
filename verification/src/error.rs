use vstd::prelude::*;

verus! {

/// The ways in which assembling the scene can fail inside the library.
pub enum GenerationError {
    /// A mesh entry names no asset path.
    MeshPathMalformed(String),
    /// No mesh contributed any vertex or face.
    LoadMeshError,
    /// The chunk files do not fit what was asked of them.
    ChunkError(String),
}

} // verus!
