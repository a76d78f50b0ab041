//! Loading of rooms saved by a tile-based game's level editor: the editor's
//! bracket-delimited text is rewritten into JSON, and the JSON tree is
//! assembled into a typed room of tile layers and effect layers.

pub mod effect;
pub mod error;
pub mod json;
pub mod lingo_dsl;
pub mod lingo_to_json;
pub mod rwlevel;
pub mod text;
pub mod tile;
