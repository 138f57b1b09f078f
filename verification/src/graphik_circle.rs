//! Circle descriptor.

use vstd::prelude::*;

verus! {

/// A filled circle of the given radius around `(x0, y0)`; when `center` is
/// set, the origin is moved to the buffer midpoint before filling.
#[derive(Debug, Clone, Copy)]
pub struct GraphikCircle {
    pub x0: i32,
    pub y0: i32,
    pub radius: usize,
    pub color: u32,
    pub center: bool,
}

impl GraphikCircle {
    pub fn new(x0: i32, y0: i32, radius: usize, color: u32, center: bool) -> (r: Self)
        ensures
            r == (GraphikCircle { x0, y0, radius, color, center }),
    {
        Self { x0, y0, radius, color, center }
    }

    /// Move the circle's origin.
    pub fn origin(&mut self, x0: i32, y0: i32)
        ensures
            *final(self) == (GraphikCircle { x0, y0, ..*old(self) }),
    {
        self.x0 = x0;
        self.y0 = y0;
    }

    /// The pixels the fill covers: those of the half-open bounding box
    /// `[x0 - radius, x0 + radius) * [y0 - radius, y0 + radius)` whose
    /// squared distance from the origin is at most `radius^2`.
    pub open spec fn covers(self, x: int, y: int) -> bool {
        &&& self.x0 - self.radius <= x < self.x0 + self.radius
        &&& self.y0 - self.radius <= y < self.y0 + self.radius
        &&& (x - self.x0) * (x - self.x0) + (y - self.y0) * (y - self.y0)
            <= self.radius * self.radius
    }

    /// The circle as the fill operation sees it: when `center` is set, the
    /// origin becomes the buffer midpoint (the circle's own size plays no
    /// part, unlike a rectangle's centering).
    pub open spec fn resolved(self, bw: int, bh: int) -> GraphikCircle {
        if self.center {
            GraphikCircle { x0: ((bw / 2) as i32), y0: ((bh / 2) as i32), ..self }
        } else {
            self
        }
    }
}

/// A pixel is covered exactly when its squared distance from the circle's
/// origin is at most `radius^2` — for every pixel but the two where the
/// half-open bounding box cuts the circle off, `(x0 + radius, y0)` on its
/// right edge and `(x0, y0 + radius)` on its bottom edge, which the scan
/// leaves out although their distance is exactly the radius.
pub proof fn lemma_circle_covers_distance(c: GraphikCircle, x: int, y: int)
    requires
        !(x == c.x0 + c.radius && y == c.y0),
        !(x == c.x0 && y == c.y0 + c.radius),
    ensures
        c.covers(x, y) <==> (x - c.x0) * (x - c.x0) + (y - c.y0) * (y - c.y0) <= c.radius
            * c.radius,
{
    let r = c.radius as int;
    let dx = x - c.x0;
    let dy = y - c.y0;
    if dx * dx + dy * dy <= r * r {
        assert(dx * dx >= 0 && dy * dy >= 0) by (nonlinear_arith);
        assert(-r <= dx <= r) by (nonlinear_arith)
            requires
                dx * dx <= r * r,
                r >= 0,
        ;
        assert(-r <= dy <= r) by (nonlinear_arith)
            requires
                dy * dy <= r * r,
                r >= 0,
        ;
        if dx == r {
            assert(dy == 0) by (nonlinear_arith)
                requires
                    dx == r,
                    dx * dx + dy * dy <= r * r,
            ;
        }
        if dy == r {
            assert(dx == 0) by (nonlinear_arith)
                requires
                    dy == r,
                    dx * dx + dy * dy <= r * r,
            ;
        }
    }
}

} // verus!
