use vstd::prelude::*;

use crate::json::{JsonValue, Number};

verus! {

/// A named visual layer of a room.
#[derive(Debug)]
pub struct Effect {
    pub name: String,
    /// The blend mask, row by row; its size is independent of the tile grid.
    pub matrix: Vec<Vec<Number>>,
    /// The effect's options, kept as they were written.
    pub options: JsonValue,
}

} // verus!
