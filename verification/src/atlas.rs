use vstd::prelude::*;

verus! {

/// How the sampler filters when a sprite is scaled.
#[derive(Clone, Copy, PartialEq, Eq, Structural, Debug)]
pub enum FilterMode {
    Nearest,
    Linear,
}

/// Static description of a source atlas image: sprite tile size, full texture
/// size, inter-tile padding, and sampler filter mode. Immutable once
/// registered.
#[derive(Clone, Copy, PartialEq, Eq, Structural, Debug)]
pub struct AtlasDescriptor {
    pub tile_width: u32,
    pub tile_height: u32,
    pub texture_width: u32,
    pub texture_height: u32,
    pub padding_x: u32,
    pub padding_y: u32,
    pub filter: FilterMode,
}

/// Number of sprite columns: the padded texture width over the padded tile
/// width.
pub open spec fn spec_columns(d: AtlasDescriptor) -> int {
    (d.texture_width + d.padding_x) / (d.tile_width + d.padding_x)
}

/// Number of sprite rows: the padded texture height over the padded tile
/// height.
pub open spec fn spec_rows(d: AtlasDescriptor) -> int {
    (d.texture_height + d.padding_y) / (d.tile_height + d.padding_y)
}

/// Number of array layers the atlas turns into: one per sprite cell.
pub open spec fn spec_layer_count(d: AtlasDescriptor) -> int {
    spec_columns(d) * spec_rows(d)
}

/// A descriptor is well formed when the tiles are non-empty, the padded
/// texture divides evenly into padded tiles on both axes, at least one sprite
/// results, and the derived sizes stay within `u32`.
pub open spec fn valid_geometry(d: AtlasDescriptor) -> bool {
    &&& d.tile_width > 0
    &&& d.tile_height > 0
    &&& d.texture_width + d.padding_x <= u32::MAX
    &&& d.texture_height + d.padding_y <= u32::MAX
    &&& (d.texture_width + d.padding_x) % (d.tile_width + d.padding_x) == 0
    &&& (d.texture_height + d.padding_y) % (d.tile_height + d.padding_y) == 0
    &&& spec_columns(d) >= 1
    &&& spec_rows(d) >= 1
    &&& spec_layer_count(d) <= u32::MAX
}

/// Law: a descriptor whose padded texture does not divide evenly into
/// padded tiles on both axes is malformed, so registration rejects it.
pub proof fn lemma_indivisible_geometry_invalid(d: AtlasDescriptor)
    requires
        (d.texture_width + d.padding_x) % (d.tile_width + d.padding_x) != 0
            || (d.texture_height + d.padding_y) % (d.tile_height + d.padding_y) != 0,
    ensures
        !valid_geometry(d),
{
}

/// Decides `valid_geometry` for a descriptor.
pub fn is_valid_geometry(d: &AtlasDescriptor) -> (b: bool)
    ensures
        b == valid_geometry(*d),
{
    if d.tile_width == 0 || d.tile_height == 0 {
        return false;
    }
    let num_x: u64 = d.texture_width as u64 + d.padding_x as u64;
    let num_y: u64 = d.texture_height as u64 + d.padding_y as u64;
    if num_x > u32::MAX as u64 || num_y > u32::MAX as u64 {
        return false;
    }
    let den_x: u64 = d.tile_width as u64 + d.padding_x as u64;
    let den_y: u64 = d.tile_height as u64 + d.padding_y as u64;
    if num_x % den_x != 0 || num_y % den_y != 0 {
        return false;
    }
    let cols: u64 = num_x / den_x;
    let rows: u64 = num_y / den_y;
    if cols < 1 || rows < 1 {
        return false;
    }
    proof {
        vstd::arithmetic::div_mod::lemma_fundamental_div_mod(num_x as int, den_x as int);
        vstd::arithmetic::div_mod::lemma_fundamental_div_mod(num_y as int, den_y as int);
        assert(cols <= num_x && rows <= num_y) by (nonlinear_arith)
            requires
                den_x >= 1 && den_y >= 1 && num_x >= 0 && num_y >= 0
                    && cols == num_x as int / den_x as int
                    && rows == num_y as int / den_y as int
                    && num_x as int == den_x as int * cols + num_x as int % den_x as int
                    && num_y as int == den_y as int * rows + num_y as int % den_y as int
                    && num_x as int % den_x as int >= 0 && num_y as int % den_y as int >= 0;
        assert(cols as int * rows as int <= (u32::MAX as int) * (u32::MAX as int))
            by (nonlinear_arith)
            requires 0 <= cols as int <= u32::MAX as int && 0 <= rows as int <= u32::MAX as int;
    }
    cols * rows <= u32::MAX as u64
}

proof fn lemma_columns_le_count(d: AtlasDescriptor)
    requires
        spec_columns(d) >= 1,
        spec_rows(d) >= 1,
    ensures
        spec_columns(d) <= spec_layer_count(d),
        spec_rows(d) <= spec_layer_count(d),
{
    assert(spec_columns(d) * spec_rows(d) >= spec_columns(d)) by (nonlinear_arith)
        requires spec_columns(d) >= 1 && spec_rows(d) >= 1;
    assert(spec_columns(d) * spec_rows(d) >= spec_rows(d)) by (nonlinear_arith)
        requires spec_columns(d) >= 1 && spec_rows(d) >= 1;
}

/// Number of sprite columns of a well-formed atlas.
pub fn columns(d: &AtlasDescriptor) -> (n: u32)
    requires
        valid_geometry(*d),
    ensures
        n as int == spec_columns(*d),
{
    proof {
        lemma_columns_le_count(*d);
    }
    let num_x: u64 = d.texture_width as u64 + d.padding_x as u64;
    let den_x: u64 = d.tile_width as u64 + d.padding_x as u64;
    (num_x / den_x) as u32
}

/// Number of sprite rows of a well-formed atlas.
pub fn rows(d: &AtlasDescriptor) -> (n: u32)
    requires
        valid_geometry(*d),
    ensures
        n as int == spec_rows(*d),
{
    proof {
        lemma_columns_le_count(*d);
    }
    let num_y: u64 = d.texture_height as u64 + d.padding_y as u64;
    let den_y: u64 = d.tile_height as u64 + d.padding_y as u64;
    (num_y / den_y) as u32
}

/// Number of array layers a well-formed atlas turns into.
pub fn layer_count(d: &AtlasDescriptor) -> (n: u32)
    requires
        valid_geometry(*d),
    ensures
        n as int == spec_layer_count(*d),
{
    let c = columns(d);
    let r = rows(d);
    let prod: u64 = c as u64 * r as u64;
    prod as u32
}

/// Source x origin in the atlas image for array layer `i`: sprites sit in
/// row-major order, `spec_columns(d)` per row, each cell one padded tile wide.
pub open spec fn spec_copy_src_x(d: AtlasDescriptor, i: int) -> int {
    (i % spec_columns(d)) * (d.tile_width + d.padding_x)
}

/// Source y origin in the atlas image for array layer `i`.
pub open spec fn spec_copy_src_y(d: AtlasDescriptor, i: int) -> int {
    (i / spec_columns(d)) * (d.tile_height + d.padding_y)
}

/// The copy origins stay within `u32` for every layer of a well-formed atlas.
pub proof fn lemma_copy_src_in_range(d: AtlasDescriptor, i: int)
    requires
        valid_geometry(d),
        0 <= i < spec_layer_count(d),
    ensures
        0 <= spec_copy_src_x(d, i) <= u32::MAX,
        0 <= spec_copy_src_y(d, i) <= u32::MAX,
{
    let cols = spec_columns(d);
    let rws = spec_rows(d);
    let tw = (d.tile_width + d.padding_x) as int;
    let th = (d.tile_height + d.padding_y) as int;
    vstd::arithmetic::div_mod::lemma_fundamental_div_mod(
        (d.texture_width + d.padding_x) as int, tw);
    vstd::arithmetic::div_mod::lemma_fundamental_div_mod(
        (d.texture_height + d.padding_y) as int, th);
    assert(cols * tw == d.texture_width + d.padding_x);
    assert(rws * th == d.texture_height + d.padding_y);
    vstd::arithmetic::div_mod::lemma_fundamental_div_mod(i, cols);
    assert(0 <= i % cols < cols);
    assert((i % cols) * tw <= (cols - 1) * tw) by (nonlinear_arith)
        requires i % cols <= cols - 1 && tw >= 0;
    assert((cols - 1) * tw == cols * tw - tw) by (nonlinear_arith);
    assert((i % cols) * tw >= 0) by (nonlinear_arith)
        requires i % cols >= 0 && tw >= 0;
    // i / cols < rows, else i would reach cols * rows
    assert(i / cols < rws) by {
        if i / cols >= rws {
            assert(cols * (i / cols) >= cols * rws) by (nonlinear_arith)
                requires i / cols >= rws && cols >= 1;
            assert(cols * rws == rws * cols) by (nonlinear_arith);
        }
    }
    assert((i / cols) * th <= (rws - 1) * th) by (nonlinear_arith)
        requires i / cols <= rws - 1 && th >= 0;
    assert((rws - 1) * th == rws * th - th) by (nonlinear_arith);
    assert((i / cols) * th >= 0) by (nonlinear_arith)
        requires i / cols >= 0 && th >= 0;
}

/// Computes the source origin for array layer `i` of a well-formed atlas.
pub fn copy_src_origin(d: &AtlasDescriptor, i: u32) -> (r: (u32, u32))
    requires
        valid_geometry(*d),
        i < spec_layer_count(*d),
    ensures
        r.0 == spec_copy_src_x(*d, i as int),
        r.1 == spec_copy_src_y(*d, i as int),
{
    proof {
        lemma_copy_src_in_range(*d, i as int);
    }
    let cols = columns(d);
    let sx: u64 = (i % cols) as u64 * (d.tile_width as u64 + d.padding_x as u64);
    let sy: u64 = (i / cols) as u64 * (d.tile_height as u64 + d.padding_y as u64);
    (sx as u32, sy as u32)
}

} // verus!
