//! Shared helpers of the rasterization algorithms: clipped index
//! computation and facts about the row-major pixel layout.

use vstd::prelude::*;

use crate::GraphikBuffer;

verus! {

/// Clip a signed coordinate `origin + delta` against `[0, limit)` and hand
/// back the in-bounds value as an index, or `None` when the pixel falls off
/// the canvas.
pub fn offset_in(origin: i32, delta: usize, limit: usize) -> (r: Option<usize>)
    ensures
        match r {
            Some(k) => 0 <= origin + delta < limit && k == origin + delta,
            None => !(0 <= origin + delta < limit),
        },
{
    if origin >= 0 {
        let base = origin as usize;
        if base < limit && delta < limit - base {
            Some(base + delta)
        } else {
            None
        }
    } else {
        let neg = (-(origin as i64)) as usize;
        if delta >= neg {
            let v = delta - neg;
            if v < limit { Some(v) } else { None }
        } else {
            None
        }
    }
}

/// Distinct in-bounds pixels occupy distinct cells of the row-major buffer.
pub proof fn lemma_pix_index_injective(w: int, x1: int, y1: int, x2: int, y2: int)
    requires
        0 <= x1 < w,
        0 <= x2 < w,
        y1 * w + x1 == y2 * w + x2,
    ensures
        x1 == x2 && y1 == y2,
{
    assert((y1 - y2) * w == x2 - x1) by (nonlinear_arith)
        requires
            y1 * w + x1 == y2 * w + x2,
    ;
    assert(y1 == y2) by (nonlinear_arith)
        requires
            (y1 - y2) * w == x2 - x1,
            0 <= x1 < w,
            0 <= x2 < w,
    ;
}

/// An in-bounds pixel's cell lies inside the buffer.
pub proof fn lemma_pix_index_in_range(b: GraphikBuffer, x: int, y: int)
    requires
        b.wf(),
        b.in_bounds(x, y),
    ensures
        0 <= y * b.width + x < b.buffer@.len(),
{
    assert(0 <= y * b.width + x && y * b.width + x < b.width * b.height) by (nonlinear_arith)
        requires
            0 <= x < b.width,
            0 <= y < b.height,
    ;
}

/// Writing one in-bounds pixel changes that pixel to the written color and
/// leaves every other pixel as it was.
pub proof fn lemma_pix_update(b1: GraphikBuffer, b2: GraphikBuffer, x: int, y: int, c: u32)
    requires
        b1.wf(),
        b1.in_bounds(x, y),
        b2.width == b1.width,
        b2.height == b1.height,
        b2.buffer@ == b1.buffer@.update(y * b1.width + x, c),
    ensures
        b2.wf(),
        b2.pix(x, y) == c,
        forall|xo: int, yo: int|
            b1.in_bounds(xo, yo) && !(xo == x && yo == y) ==> b2.pix(xo, yo) == b1.pix(xo, yo),
{
    lemma_pix_index_in_range(b1, x, y);
    assert forall|xo: int, yo: int|
        b1.in_bounds(xo, yo) && !(xo == x && yo == y) implies b2.pix(xo, yo) == b1.pix(xo, yo) by {
        lemma_pix_index_in_range(b1, xo, yo);
        if yo * b1.width + xo == y * b1.width + x {
            lemma_pix_index_injective(b1.width as int, xo, yo, x, y);
        }
    }
}

} // verus!
