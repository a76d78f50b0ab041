use vstd::prelude::*;

verus! {

/// Why a room could not be loaded. Every error aborts the whole load.
#[derive(Copy, Clone, Debug, PartialEq, Eq, Structural)]
pub enum LoadError {
    /// The file could not be read, or is not text.
    Io,
    /// The records are not nine, a bracket is unbalanced, or a record is not
    /// valid JSON once rewritten.
    Format,
    /// The room size is missing, is not a string, or is not a `point` literal
    /// of two non-negative integers.
    Size,
    /// A cell of the geometry record is missing, has the wrong shape, or holds
    /// an unknown geometry code.
    TileDecode,
    /// An effect entry lacks its name or its matrix, or one of them has the
    /// wrong type.
    EffectDecode,
}

} // verus!
