use vstd::prelude::*;

verus! {

/// An RGBA color with 8 bits per channel.
#[derive(Clone, Copy, PartialEq, Eq, Structural, Debug)]
pub struct Rgba8 {
    pub r: u8,
    pub g: u8,
    pub b: u8,
    pub a: u8,
}

/// One tile cell: the sprite it shows (an index into its atlas, which is also
/// the array-texture layer the sprite is copied to) and a tint color.
#[derive(Clone, Copy, PartialEq, Eq, Structural, Debug)]
pub struct Tile {
    pub sprite_index: u32,
    pub color: Rgba8,
}

/// A cell position: x and y in tile units, plus the z-ordered layer the cell
/// sits on. Layers are independent planes; lower layers draw first.
#[derive(Clone, Copy, PartialEq, Eq, Structural, Debug)]
pub struct TileCoordinate {
    pub x: i32,
    pub y: i32,
    pub layer: i32,
}

} // verus!
