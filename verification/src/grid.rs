//! The pixel grid: where a pixel lies relative to the centre, and where its
//! bytes lie in a row-major buffer.

use vstd::prelude::*;

verus! {

/// The offset of coordinate `x` from the centre of an axis of `extent`
/// pixels. The centre is at `extent / 2`, rounded down, so on an axis of even
/// extent one more pixel lies before the centre than after it.
pub open spec fn centered(x: int, extent: int) -> int {
    x - extent / 2
}

/// The place of pixel `(x, y)` in a row-major grid of the given width: rows
/// from top to bottom, and within a row from left to right.
pub open spec fn pixel_index(x: int, y: int, width: int) -> int {
    y * width + x
}

/// Computes the offset of a coordinate from the centre of its axis.
pub fn offset(x: u32, extent: u32) -> (d: i32)
    requires
        x < extent,
    ensures
        d == centered(x as int, extent as int),
{
    let half: u32 = extent / 2;
    if x >= half {
        (x - half) as i32
    } else {
        -((half - x) as i32)
    }
}

/// A coordinate and its mirror image on the same axis have opposite offsets
/// only where the extent is odd; on an axis of even extent the two offsets
/// sum to -1.
pub proof fn lemma_mirror_offset(x: int, extent: int)
    requires
        0 <= x < extent,
    ensures
        centered(extent - 1 - x, extent) + centered(x, extent) == (if extent % 2 == 0 {
            -1int
        } else {
            0int
        }),
{
}

/// Row-major order: a pixel that comes earlier in reading order has the
/// smaller index.
pub proof fn lemma_index_order(x1: int, y1: int, x2: int, y2: int, width: int)
    requires
        0 <= x1 < width,
        0 <= x2 <= width,
        0 <= y1,
        y1 < y2 || (y1 == y2 && x1 < x2),
    ensures
        0 <= pixel_index(x1, y1, width) < pixel_index(x2, y2, width),
{
    assert(0 <= y1 * width) by (nonlinear_arith)
        requires
            0 <= y1,
            0 <= width,
    ;
    if y1 < y2 {
        assert((y1 + 1) * width <= y2 * width) by (nonlinear_arith)
            requires
                y1 + 1 <= y2,
                0 <= width,
        ;
        assert((y1 + 1) * width == y1 * width + width) by (nonlinear_arith);
    }
}

} // verus!
