use vstd::prelude::*;

verus! {

/// A grid coordinate attached to an entity.
#[derive(Clone, Copy, PartialEq, Eq, Structural, Debug)]
pub struct Position {
    pub x: i32,
    pub y: i32,
}

/// An 8-bit-per-channel color, the plain value a draw surface is handed.
#[derive(Clone, Copy, PartialEq, Eq, Structural, Debug)]
pub struct Rgb {
    pub r: u8,
    pub g: u8,
    pub b: u8,
}

/// How an entity is drawn: a glyph code and its colors.
#[derive(Clone, Copy, PartialEq, Eq, Structural, Debug)]
pub struct Renderable {
    pub glyph: u16,
    pub fg: Rgb,
    pub bg: Rgb,
}

/// Marks the one player-controlled entity.
#[derive(Clone, Copy, Debug)]
pub struct Player {}

/// The set of tiles an entity currently sees, and how far it can see.
/// `visible_tiles` is recomputed from scratch every frame.
#[derive(PartialEq, Eq, Debug)]
pub struct Viewshed {
    pub visible_tiles: Vec<(i32, i32)>,
    pub range: i32,
}

} // verus!
