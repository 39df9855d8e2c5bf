use vstd::prelude::*;
use crate::arith::{lemma_floor_div_bounds, lemma_floor_div_unique};
use crate::deck_geometry::{
    cast_coordinates, in_i32, tile_coordinates, tile_index, tile_position, tile_position_ok,
    tile_query_ok, BoundsModel,
};

verus! {

proof fn lemma_negative_cast_is_large(c: i32)
    requires
        c < 0,
    ensures
        (c as usize) >= 0x8000_0000usize,
{
    assert(c < 0 ==> (c as usize) >= 0x8000_0000usize) by (bit_vector);
}

pub(crate) proof fn lemma_row_major_split(i: int, s0: int, x: int, y: int)
    requires
        s0 > 0,
        0 <= x < s0,
        i == x + y * s0,
    ensures
        i % s0 == x,
        i / s0 == y,
{
    assert(y * s0 == s0 * y) by (nonlinear_arith);
    lemma_floor_div_unique(i, s0, y);
}

/// The tile center at index `i` of a grid maps back to index `i`.
pub proof fn law_index_of_tile_position(bounds: BoundsModel, i: int)
    requires
        in_i32(bounds.0.0),
        in_i32(bounds.0.1),
        bounds.1.1 > 0,
        0 <= i < bounds.1.0 * bounds.1.1,
        i <= usize::MAX,
        tile_position_ok(bounds, i),
    ensures
        tile_query_ok(bounds, tile_position(bounds, i)),
        tile_index(bounds, tile_position(bounds, i)) == Some(i),
{
    let s0 = bounds.1.0;
    let s1 = bounds.1.1;
    lemma_floor_div_bounds(i, s0);
    let x = i % s0;
    let y = i / s0;
    assert(y >= 0) by (nonlinear_arith)
        requires
            y * s0 <= i,
            i < y * s0 + s0,
            i >= 0,
            s0 > 0,
    ;
    assert(y < s1) by (nonlinear_arith)
        requires
            y * s0 <= i,
            i < s0 * s1,
            s0 > 0,
            y >= 0,
    ;
    let p = tile_position(bounds, i);
    assert(tile_coordinates(bounds, p) == (x, y));
    assert(cast_coordinates(bounds, p) == (x, y));
    assert(x + y * s0 == i);
}

/// A position that the index query maps to index `i` is the tile center at `i`.
pub proof fn law_tile_position_of_index(bounds: BoundsModel, position: (int, int), i: int)
    requires
        tile_query_ok(bounds, position),
        tile_index(bounds, position) == Some(i),
        tile_position_ok(bounds, i),
    ensures
        tile_position(bounds, i) == position,
{
    let s0 = bounds.1.0;
    let c = tile_coordinates(bounds, position);
    let u = cast_coordinates(bounds, position);
    assert(0 <= u.0 < s0);
    lemma_row_major_split(i, s0, u.0, u.1);
    if c.0 < 0 {
        lemma_negative_cast_is_large(c.0 as i32);
    }
    if c.1 < 0 {
        lemma_negative_cast_is_large(c.1 as i32);
    }
    assert(u == c);
}

} // verus!
