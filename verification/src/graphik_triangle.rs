//! Triangle descriptor and the scanline interpolation it is filled by.

use vstd::prelude::*;

verus! {

/// A filled triangle; the fill algorithm requires the vertices sorted by
/// `y` ascending: `y1 <= y2 <= y3`.
#[derive(Debug, Clone, Copy)]
pub struct GraphikTriangle {
    pub x1: i32,
    pub y1: i32,
    pub x2: i32,
    pub y2: i32,
    pub x3: i32,
    pub y3: i32,
    pub color: u32,
}

/// Truncating integer division (the machine `/` on signed integers), which
/// rounds toward zero, unlike the Euclidean `/` of specifications.
pub open spec fn tdiv(a: int, b: int) -> int
    recommends
        b != 0,
{
    let n = if b > 0 { a } else { -a };
    let d = if b > 0 { b } else { -b };
    if n >= 0 {
        n / d
    } else {
        -((-n) / d)
    }
}

/// The x-intersection of scanline `y` with the edge from anchor
/// `(ax, ay)` toward a vertex `dx` across and `dy` down, by truncating
/// linear interpolation; a horizontal edge (`dy == 0`) answers the anchor.
pub open spec fn edge_x(y: int, ay: int, ax: int, dx: int, dy: int) -> int {
    if dy != 0 {
        tdiv((y - ay) * dx, dy) + ax
    } else {
        ax
    }
}

/// Compute `edge_x` for a scanline `y` lying between the anchor `(ax, ay)`
/// and the far vertex `(bx, by)` (in either vertical order), with the
/// magnitude arithmetic done in unsigned integers so that nothing
/// overflows.
pub fn edge_x_exec(y: i64, ay: i64, ax: i64, bx: i64, by: i64) -> (r: i64)
    requires
        -0x8000_0000 <= y <= 0x7fff_ffff,
        -0x8000_0000 <= ay <= 0x7fff_ffff,
        -0x8000_0000 <= ax <= 0x7fff_ffff,
        -0x8000_0000 <= bx <= 0x7fff_ffff,
        -0x8000_0000 <= by <= 0x7fff_ffff,
        ay <= y <= by || by <= y <= ay,
    ensures
        r == edge_x(y as int, ay as int, ax as int, bx - ax, by - ay),
        -0x1_8000_0000 <= r <= 0x1_8000_0000,
{
    let dy_raw: i64 = by - ay;
    if dy_raw == 0 {
        return ax;
    }
    let dx_raw: i64 = bx - ax;
    let u: u64 = if y >= ay {
        (y - ay) as u64
    } else {
        (ay - y) as u64
    };
    let d: u64 = if dy_raw >= 0 {
        dy_raw as u64
    } else {
        (-dy_raw) as u64
    };
    let m: u64 = if dx_raw >= 0 {
        dx_raw as u64
    } else {
        (-dx_raw) as u64
    };
    proof {
        assert((u as int) * (m as int) <= 0x1_0000_0000 * 0x1_0000_0000) by (nonlinear_arith)
            requires
                0 <= u as int <= 0x1_0000_0000,
                0 <= m as int <= 0x1_0000_0000,
        ;
    }
    let q128: u128 = ((u as u128) * (m as u128)) / (d as u128);
    proof {
        assert(u <= d);
        assert((u as int) * (m as int) == (u as u128) * (m as u128));
        assert(((u as int) * (m as int)) / (d as int) <= m as int) by (nonlinear_arith)
            requires
                0 <= u as int <= d as int,
                0 < d as int,
                0 <= m as int,
        ;
        assert(((u as int) * (m as int)) / (d as int) >= 0) by (nonlinear_arith)
            requires
                0 <= u as int,
                0 <= m as int,
                0 < d as int,
        ;
    }
    let q: i64 = q128 as i64;
    let t: i64 = if dx_raw >= 0 {
        q
    } else {
        -q
    };
    proof {
        let a: int = (y - ay) * (bx - ax);
        let nm: int = (u as int) * (m as int);
        if y >= ay {
            if dx_raw >= 0 {
                assert(a == nm);
            } else {
                assert(a == -nm) by (nonlinear_arith)
                    requires
                        a == (y - ay) * (bx - ax),
                        nm == (u as int) * (m as int),
                        y - ay == u as int,
                        bx - ax == -(m as int),
                ;
            }
        } else {
            if dx_raw >= 0 {
                assert(a == -nm) by (nonlinear_arith)
                    requires
                        a == (y - ay) * (bx - ax),
                        nm == (u as int) * (m as int),
                        y - ay == -(u as int),
                        bx - ax == m as int,
                ;
            } else {
                assert(a == nm) by (nonlinear_arith)
                    requires
                        a == (y - ay) * (bx - ax),
                        nm == (u as int) * (m as int),
                        y - ay == -(u as int),
                        bx - ax == -(m as int),
                ;
            }
        }
        let n: int = if by - ay > 0 {
            a
        } else {
            -a
        };
        assert(n == (if dx_raw >= 0 {
            nm
        } else {
            -nm
        }));
        assert(q == nm / (d as int));
        assert(tdiv(a, by - ay) == t);
    }
    ax + t
}

impl GraphikTriangle {
    pub fn new(x1: i32, y1: i32, x2: i32, y2: i32, x3: i32, y3: i32, color: u32) -> (r: Self)
        ensures
            r == (GraphikTriangle { x1, y1, x2, y2, x3, y3, color }),
    {
        Self { x1, y1, x2, y2, x3, y3, color }
    }

    /// The vertices are sorted by `y` ascending, as the fill requires.
    pub open spec fn sorted(self) -> bool {
        self.y1 <= self.y2 <= self.y3
    }

    /// First intersection of the top pass: scanline `y` against the edge
    /// from vertex 1 to vertex 2.
    pub open spec fn top_a(self, y: int) -> int {
        edge_x(y, self.y1 as int, self.x1 as int, self.x2 - self.x1, self.y2 - self.y1)
    }

    /// Second intersection of the top pass: scanline `y` against the edge
    /// from vertex 1 to vertex 3.
    pub open spec fn top_b(self, y: int) -> int {
        edge_x(y, self.y1 as int, self.x1 as int, self.x3 - self.x1, self.y3 - self.y1)
    }

    /// First intersection of the bottom pass: scanline `y` against the edge
    /// from vertex 3 to vertex 2.
    pub open spec fn bottom_a(self, y: int) -> int {
        edge_x(y, self.y3 as int, self.x3 as int, self.x2 - self.x3, self.y2 - self.y3)
    }

    /// Second intersection of the bottom pass: scanline `y` against the edge
    /// from vertex 3 to vertex 1.
    pub open spec fn bottom_b(self, y: int) -> int {
        edge_x(y, self.y3 as int, self.x3 as int, self.x1 - self.x3, self.y1 - self.y3)
    }

    /// Pixels covered by the top pass: scanlines from vertex 1 down to
    /// vertex 2, each filled between its two edge intersections.
    pub open spec fn top_covers(self, x: int, y: int) -> bool {
        let a = self.top_a(y);
        let b = self.top_b(y);
        &&& self.y1 <= y <= self.y2
        &&& (if a <= b {
            a <= x <= b
        } else {
            b <= x <= a
        })
    }

    /// Pixels covered by the bottom pass: scanlines from vertex 2 down to
    /// vertex 3, each filled between its two edge intersections.
    pub open spec fn bottom_covers(self, x: int, y: int) -> bool {
        let a = self.bottom_a(y);
        let b = self.bottom_b(y);
        &&& self.y2 <= y <= self.y3
        &&& (if a <= b {
            a <= x <= b
        } else {
            b <= x <= a
        })
    }

    /// The pixels the triangle fill covers.
    pub open spec fn covers(self, x: int, y: int) -> bool {
        self.top_covers(x, y) || self.bottom_covers(x, y)
    }
}

} // verus!
