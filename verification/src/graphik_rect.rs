//! Axis-aligned rectangle descriptor.

use vstd::prelude::*;

verus! {

/// An axis-aligned box of `width * height` pixels whose origin is
/// `(x0, y0)`, unless `center` asks for the origin to be recomputed from the
/// buffer dimensions before filling.
#[derive(Debug, Clone, Copy)]
pub struct GraphikRect {
    pub x0: i32,
    pub y0: i32,
    pub width: usize,
    pub height: usize,
    pub color: u32,
    pub center: bool,
}

impl GraphikRect {
    pub fn new(x0: i32, y0: i32, width: usize, height: usize, color: u32, center: bool) -> (r:
        Self)
        ensures
            r == (GraphikRect { x0, y0, width, height, color, center }),
    {
        Self { x0, y0, width, height, color, center }
    }

    /// Move the rectangle's origin.
    pub fn origin(&mut self, x0: i32, y0: i32)
        ensures
            *final(self) == (GraphikRect { x0, y0, ..*old(self) }),
    {
        self.x0 = x0;
        self.y0 = y0;
    }

    /// The box of pixels the rectangle covers.
    pub open spec fn covers(self, x: int, y: int) -> bool {
        &&& self.x0 <= x < self.x0 + self.width
        &&& self.y0 <= y < self.y0 + self.height
    }

    /// The rectangle as the fill operation sees it: when `center` is set,
    /// the origin is recomputed so that the box sits centered on a
    /// `bw * bh` buffer (truncating division).
    pub open spec fn resolved(self, bw: int, bh: int) -> GraphikRect {
        if self.center {
            GraphikRect {
                x0: ((bw - self.width) / 2) as i32,
                y0: ((bh - self.height) / 2) as i32,
                ..self
            }
        } else {
            self
        }
    }
}

/// A centered rectangle that fits the buffer gets the origin
/// `((bw - width) / 2, (bh - height) / 2)` by truncating division, and so
/// sits centered up to one pixel: on each axis the far margin equals the
/// near margin, or exceeds it by exactly one when the difference is odd.
pub proof fn lemma_rect_centering_margins(r: GraphikRect, bw: int, bh: int)
    requires
        r.center,
        r.width <= bw <= i32::MAX,
        r.height <= bh <= i32::MAX,
    ensures
        ({
            let rr = r.resolved(bw, bh);
            let left = rr.x0 as int;
            let right = bw - (rr.x0 + r.width);
            let top = rr.y0 as int;
            let bottom = bh - (rr.y0 + r.height);
            &&& left == (bw - r.width) / 2
            &&& top == (bh - r.height) / 2
            &&& left <= right <= left + 1
            &&& top <= bottom <= top + 1
        }),
{
    assert((bw - r.width) == 2 * ((bw - r.width) / 2) + ((bw - r.width) % 2));
    assert((bh - r.height) == 2 * ((bh - r.height) / 2) + ((bh - r.height) % 2));
}

} // verus!
