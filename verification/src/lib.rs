//! A small software rasterizer over an in-memory pixel buffer.
//!
//! The buffer holds packed 24-bit colors (`c0 = bits 0..8`, `c1 = bits 8..16`,
//! `c2 = bits 16..24`); a binary image export writes the components in the
//! order `c0, c1, c2`, so callers pack `(blue << 16) | (green << 8) | red`.
//! Filled rectangles, circles, triangles and line segments are clipped
//! silently at the buffer edges.

use vstd::prelude::*;

pub mod graphik_circle;
pub mod graphik_line;
pub mod graphik_rect;
pub mod graphik_triangle;
pub mod ppm;
pub mod raster;

verus! {

use crate::graphik_circle::GraphikCircle;
use crate::graphik_line::bres_done;
use crate::graphik_line::bres_init;
use crate::graphik_line::bres_inv;
use crate::graphik_line::bres_points;
use crate::graphik_line::bres_step;
use crate::graphik_line::lemma_bres_coord_bounds;
use crate::graphik_line::lemma_bres_err_bound;
use crate::graphik_line::lemma_bres_init;
use crate::graphik_line::lemma_bres_points_has_target;
use crate::graphik_line::lemma_bres_step;
use crate::graphik_line::lemma_bres_points_unfold;
use crate::graphik_line::rem_x;
use crate::graphik_line::rem_y;
use crate::graphik_line::GraphikLine;
use crate::graphik_rect::GraphikRect;
use crate::graphik_triangle::edge_x_exec;
use crate::graphik_triangle::GraphikTriangle;
use crate::raster::lemma_pix_index_in_range;
use crate::raster::lemma_pix_update;
use crate::raster::offset_in;

/// Failures of the binary image export; the rasterization operations
/// themselves never fail.
#[derive(Debug, PartialEq, Eq, Structural)]
pub enum Error {
    FileOpenError,
    FileWriteError,
}

/// A fixed-size pixel buffer of packed colors, row-major, top row first.
#[derive(Debug)]
pub struct GraphikBuffer {
    pub width: usize,
    pub height: usize,
    pub buffer: Vec<u32>,
}

impl GraphikBuffer {
    /// The buffer holds exactly one packed color per pixel, and both
    /// dimensions fit in the signed 32-bit coordinate space the
    /// rasterization algorithms work in.
    pub open spec fn wf(self) -> bool {
        &&& self.buffer@.len() == self.width * self.height
        &&& self.width <= i32::MAX
        &&& self.height <= i32::MAX
    }

    /// The packed color stored for the pixel at column `x`, row `y`.
    pub open spec fn pix(self, x: int, y: int) -> u32 {
        self.buffer@[y * self.width + x]
    }

    /// Whether `(x, y)` lies on the canvas.
    pub open spec fn in_bounds(self, x: int, y: int) -> bool {
        0 <= x < self.width && 0 <= y < self.height
    }

    pub fn new(width: usize, height: usize) -> (r: Self)
        requires
            width * height <= usize::MAX,
            width <= i32::MAX,
            height <= i32::MAX,
        ensures
            r.wf(),
            r.width == width,
            r.height == height,
            forall|i: int| 0 <= i < r.buffer@.len() ==> r.buffer@[i] == 0u32,
    {
        let size = width * height;
        let mut buffer: Vec<u32> = Vec::new();
        while buffer.len() < size
            invariant
                buffer@.len() <= size,
                forall|i: int| 0 <= i < buffer@.len() ==> buffer@[i] == 0u32,
            decreases size - buffer@.len(),
        {
            buffer.push(0);
        }
        Self { width, height, buffer }
    }
}

/// The origin that centers an object of size `object` on a canvas of size
/// `canvas`, by truncating integer division.
pub fn get_center(canvas: usize, object: usize) -> (r: i32)
    requires
        object <= canvas,
        (canvas - object) / 2 <= i32::MAX,
    ensures
        r == (canvas - object) / 2,
{
    ((canvas - object) / 2) as i32
}

/// Owns the pixel buffer and commits each primitive's writes to it.
#[derive(Debug)]
pub struct GraphikBuilder {
    pub buffer: GraphikBuffer,
}

impl GraphikBuilder {
    pub open spec fn wf(self) -> bool {
        self.buffer.wf()
    }

    pub fn new(width: usize, height: usize) -> (r: Self)
        requires
            width * height <= usize::MAX,
            width <= i32::MAX,
            height <= i32::MAX,
        ensures
            r.wf(),
            r.buffer.width == width,
            r.buffer.height == height,
            forall|i: int| 0 <= i < r.buffer.buffer@.len() ==> r.buffer.buffer@[i] == 0u32,
    {
        Self { buffer: GraphikBuffer::new(width, height) }
    }

    /// Set every pixel of the buffer to `color`.
    pub fn fill(&mut self, color: u32)
        requires
            old(self).wf(),
        ensures
            final(self).wf(),
            final(self).buffer.width == old(self).buffer.width,
            final(self).buffer.height == old(self).buffer.height,
            forall|i: int| 0 <= i < final(self).buffer.buffer@.len()
                ==> final(self).buffer.buffer@[i] == color,
    {
        let bw = self.buffer.width;
        let bh = self.buffer.height;
        let len = self.buffer.buffer.len();
        let mut i: usize = 0;
        while i < len
            invariant
                self.buffer.wf(),
                len == self.buffer.buffer@.len(),
                self.buffer.width == bw,
                self.buffer.height == bh,
                i <= len,
                forall|j: int| 0 <= j < i ==> self.buffer.buffer@[j] == color,
            decreases len - i,
        {
            self.buffer.buffer.set(i, color);
            i = i + 1;
        }
    }

    /// Fill the axis-aligned box of `rect` with its color, clipped silently
    /// at the buffer edges.  When `rect.center` is set, the rectangle's
    /// origin is first recomputed to center the box on the buffer, and the
    /// descriptor keeps that origin.
    pub fn rect_fill(&mut self, rect: &mut GraphikRect)
        requires
            old(self).wf(),
            old(rect).center ==> old(rect).width <= old(self).buffer.width && old(rect).height
                <= old(self).buffer.height,
        ensures
            final(self).wf(),
            final(self).buffer.width == old(self).buffer.width,
            final(self).buffer.height == old(self).buffer.height,
            *final(rect) == old(rect).resolved(
                old(self).buffer.width as int,
                old(self).buffer.height as int,
            ),
            forall|x: int, y: int|
                old(self).buffer.in_bounds(x, y) ==> final(self).buffer.pix(x, y) == (
                if final(rect).covers(x, y) {
                    old(rect).color
                } else {
                    old(self).buffer.pix(x, y)
                }),
    {
        let bw = self.buffer.width;
        let bh = self.buffer.height;
        if rect.center {
            let cx0 = get_center(bw, rect.width);
            let cy0 = get_center(bh, rect.height);
            rect.origin(cx0, cy0);
        }
        let ghost r = *rect;
        let ghost orig = self.buffer;
        let x0 = rect.x0;
        let y0 = rect.y0;
        let w = rect.width;
        let h = rect.height;
        let color = rect.color;
        let mut dy: usize = 0;
        while dy < h
            invariant
                self.wf(),
                self.buffer.width == bw,
                self.buffer.height == bh,
                orig.width == bw,
                orig.height == bh,
                r == (GraphikRect { x0, y0, width: w, height: h, color, ..r }),
                dy <= h,
                forall|xo: int, yo: int|
                    orig.in_bounds(xo, yo) ==> self.buffer.pix(xo, yo) == (
                    if r.covers(xo, yo) && yo - y0 < dy {
                        color
                    } else {
                        orig.pix(xo, yo)
                    }),
            decreases h - dy,
        {
            match offset_in(y0, dy, bh) {
                Some(y) => {
                    let mut dx: usize = 0;
                    while dx < w
                        invariant
                            self.wf(),
                            self.buffer.width == bw,
                            self.buffer.height == bh,
                            orig.width == bw,
                            orig.height == bh,
                            r == (GraphikRect { x0, y0, width: w, height: h, color, ..r }),
                            dy < h,
                            y == y0 + dy,
                            0 <= y < bh,
                            dx <= w,
                            forall|xo: int, yo: int|
                                orig.in_bounds(xo, yo) ==> self.buffer.pix(xo, yo)
                                    == (if r.covers(xo, yo) && (yo - y0 < dy || (yo == y0 + dy
                                    && xo - x0 < dx)) {
                                    color
                                } else {
                                    orig.pix(xo, yo)
                                }),
                        decreases w - dx,
                    {
                        match offset_in(x0, dx, bw) {
                            Some(x) => {
                                proof {
                                    lemma_pix_index_in_range(self.buffer, x as int, y as int);
                                }
                                let ghost before = self.buffer;
                                let total = self.buffer.buffer.len();
                                assert(y * bw + x < total);
                                let idx = y * bw + x;
                                self.buffer.buffer.set(idx, color);
                                proof {
                                    lemma_pix_update(before, self.buffer, x as int, y as int,
                                        color);
                                    assert forall|xo: int, yo: int|
                                        orig.in_bounds(xo, yo) implies self
                                        .buffer.pix(xo, yo) == (if r.covers(xo, yo) && (yo - y0
                                        < dy || (yo == y0 + dy && xo - x0 < dx + 1)) {
                                        color
                                    } else {
                                        orig.pix(xo, yo)
                                    }) by {
                                        if !(xo == x && yo == y) {
                                            assert(self.buffer.pix(xo, yo) == before.pix(
                                                xo,
                                                yo,
                                            ));
                                        }
                                    }
                                }
                            },
                            None => {},
                        }
                        dx = dx + 1;
                    }
                    proof {
                        assert forall|xo: int, yo: int|
                            orig.in_bounds(xo, yo) implies self.buffer.pix(xo, yo)
                            == (if r.covers(xo, yo) && yo - y0 < dy + 1 {
                            color
                        } else {
                            orig.pix(xo, yo)
                        }) by {}
                    }
                },
                None => {
                    proof {
                        assert forall|xo: int, yo: int|
                            orig.in_bounds(xo, yo) implies self.buffer.pix(xo, yo)
                            == (if r.covers(xo, yo) && yo - y0 < dy + 1 {
                            color
                        } else {
                            orig.pix(xo, yo)
                        }) by {}
                    }
                },
            }
            dy = dy + 1;
        }
    }

    /// Fill the circle of `circle` with its color: every pixel of the
    /// half-open bounding box around the origin whose squared distance from
    /// the origin is at most `radius^2`, clipped silently at the buffer
    /// edges.  When `circle.center` is set, the origin is first moved to the
    /// buffer midpoint, and the descriptor keeps that origin.
    pub fn circle_fill(&mut self, circle: &mut GraphikCircle)
        requires
            old(self).wf(),
            old(circle).radius * old(circle).radius <= i32::MAX,
        ensures
            final(self).wf(),
            final(self).buffer.width == old(self).buffer.width,
            final(self).buffer.height == old(self).buffer.height,
            *final(circle) == old(circle).resolved(
                old(self).buffer.width as int,
                old(self).buffer.height as int,
            ),
            forall|x: int, y: int|
                old(self).buffer.in_bounds(x, y) ==> final(self).buffer.pix(x, y) == (
                if final(circle).covers(x, y) {
                    old(circle).color
                } else {
                    old(self).buffer.pix(x, y)
                }),
    {
        let bw = self.buffer.width;
        let bh = self.buffer.height;
        if circle.center {
            let cx0 = (bw / 2) as i32;
            let cy0 = (bh / 2) as i32;
            circle.origin(cx0, cy0);
        }
        let ghost c = *circle;
        let ghost orig = self.buffer;
        proof {
            assert(circle.radius <= 46340) by (nonlinear_arith)
                requires
                    circle.radius * circle.radius <= i32::MAX,
            ;
        }
        let rad: i64 = circle.radius as i64;
        let x0: i64 = circle.x0 as i64;
        let y0: i64 = circle.y0 as i64;
        let color = circle.color;
        let rsq: i64 = rad * rad;
        let xs: i64 = x0 - rad;
        let xe: i64 = x0 + rad;
        let ys: i64 = y0 - rad;
        let ye: i64 = y0 + rad;
        let mut y: i64 = ys;
        while y < ye
            invariant
                self.wf(),
                self.buffer.width == bw,
                self.buffer.height == bh,
                orig.wf(),
                orig.width == bw,
                orig.height == bh,
                c == (GraphikCircle {
                    x0: circle.x0,
                    y0: circle.y0,
                    radius: circle.radius,
                    color,
                    ..c
                }),
                0 <= rad <= 46340,
                rad == c.radius,
                x0 == c.x0,
                y0 == c.y0,
                rsq == rad * rad,
                xs == x0 - rad,
                xe == x0 + rad,
                ys == y0 - rad,
                ye == y0 + rad,
                ys <= y <= ye,
                forall|xo: int, yo: int|
                    orig.in_bounds(xo, yo) ==> self.buffer.pix(xo, yo) == (
                    if c.covers(xo, yo) && yo < y {
                        color
                    } else {
                        orig.pix(xo, yo)
                    }),
            decreases ye - y,
        {
            if y >= 0 && y < bh as i64 {
                let mut x: i64 = xs;
                while x < xe
                    invariant
                        self.wf(),
                        self.buffer.width == bw,
                        self.buffer.height == bh,
                        orig.wf(),
                        orig.width == bw,
                        orig.height == bh,
                        0 <= rad <= 46340,
                        rad == c.radius,
                        x0 == c.x0,
                        y0 == c.y0,
                        rsq == rad * rad,
                        xs == x0 - rad,
                        xe == x0 + rad,
                        ys <= y < ye,
                        ye == y0 + rad,
                        ys == y0 - rad,
                        0 <= y < bh,
                        color == c.color,
                        xs <= x <= xe,
                        forall|xo: int, yo: int|
                            orig.in_bounds(xo, yo) ==> self.buffer.pix(xo, yo) == (
                            if c.covers(xo, yo) && (yo < y || (yo == y && xo < x)) {
                                color
                            } else {
                                orig.pix(xo, yo)
                            }),
                    decreases xe - x,
                {
                    if x >= 0 && x < bw as i64 {
                        let dx: i64 = x - x0;
                        let dyv: i64 = y - y0;
                        proof {
                            assert(dx * dx <= 46340 * 46340) by (nonlinear_arith)
                                requires
                                    -46340 <= dx <= 46340,
                            ;
                            assert(dyv * dyv <= 46340 * 46340) by (nonlinear_arith)
                                requires
                                    -46340 <= dyv <= 46340,
                            ;
                            assert(dx * dx >= 0) by (nonlinear_arith);
                            assert(dyv * dyv >= 0) by (nonlinear_arith);
                        }
                        if dx * dx + dyv * dyv <= rsq {
                            proof {
                                lemma_pix_index_in_range(self.buffer, x as int, y as int);
                            }
                            let ghost before = self.buffer;
                            let total = self.buffer.buffer.len();
                            assert((y as usize) * bw + (x as usize) < total);
                            let idx = (y as usize) * bw + (x as usize);
                            self.buffer.buffer.set(idx, color);
                            proof {
                                lemma_pix_update(before, self.buffer, x as int, y as int,
                                    color);
                                assert forall|xo: int, yo: int|
                                    orig.in_bounds(xo, yo) implies self.buffer.pix(xo, yo) == (
                                    if c.covers(xo, yo) && (yo < y || (yo == y && xo < x + 1)) {
                                    color
                                } else {
                                    orig.pix(xo, yo)
                                }) by {
                                    if !(xo == x && yo == y) {
                                        assert(self.buffer.pix(xo, yo) == before.pix(xo, yo));
                                    }
                                }
                            }
                        }
                    }
                    x = x + 1;
                }
            }
            y = y + 1;
        }
    }

    /// Fill row `y` from the lower to the higher of `sa` and `sb` with
    /// `color`, clipped silently at the buffer's left and right edges.
    fn fill_span(&mut self, y: i64, sa: i64, sb: i64, color: u32)
        requires
            old(self).wf(),
            0 <= y < old(self).buffer.height,
            -0x1_8000_0000 <= sa <= 0x1_8000_0000,
            -0x1_8000_0000 <= sb <= 0x1_8000_0000,
        ensures
            final(self).wf(),
            final(self).buffer.width == old(self).buffer.width,
            final(self).buffer.height == old(self).buffer.height,
            forall|xo: int, yo: int|
                old(self).buffer.in_bounds(xo, yo) ==> final(self).buffer.pix(xo, yo) == (
                if yo == y && (if sa <= sb {
                    sa <= xo <= sb
                } else {
                    sb <= xo <= sa
                }) {
                    color
                } else {
                    old(self).buffer.pix(xo, yo)
                }),
    {
        let bw = self.buffer.width;
        let bh = self.buffer.height;
        let ghost orig = self.buffer;
        let lo: i64 = if sa <= sb {
            sa
        } else {
            sb
        };
        let hi: i64 = if sa <= sb {
            sb
        } else {
            sa
        };
        let mut x: i64 = if lo < 0 {
            0
        } else {
            lo
        };
        while x <= hi && x < bw as i64
            invariant
                self.wf(),
                self.buffer.width == bw,
                self.buffer.height == bh,
                orig.wf(),
                orig.width == bw,
                orig.height == bh,
                0 <= y < bh,
                lo == (if sa <= sb {
                    sa
                } else {
                    sb
                }),
                hi == (if sa <= sb {
                    sb
                } else {
                    sa
                }),
                lo <= hi,
                -0x1_8000_0000 <= lo,
                hi <= 0x1_8000_0000,
                x >= lo,
                0 <= x <= 0x1_8000_0001,
                forall|xo: int, yo: int|
                    orig.in_bounds(xo, yo) ==> self.buffer.pix(xo, yo) == (
                    if yo == y && lo <= xo <= hi && xo < x {
                        color
                    } else {
                        orig.pix(xo, yo)
                    }),
            decreases hi + 1 - x,
        {
            proof {
                lemma_pix_index_in_range(self.buffer, x as int, y as int);
            }
            let ghost before = self.buffer;
            let total = self.buffer.buffer.len();
            assert((y as usize) * bw + (x as usize) < total);
            let idx = (y as usize) * bw + (x as usize);
            self.buffer.buffer.set(idx, color);
            proof {
                lemma_pix_update(before, self.buffer, x as int, y as int, color);
                assert forall|xo: int, yo: int|
                    orig.in_bounds(xo, yo) implies self.buffer.pix(xo, yo) == (
                    if yo == y && lo <= xo <= hi && xo < x + 1 {
                    color
                } else {
                    orig.pix(xo, yo)
                }) by {
                    if !(xo == x && yo == y) {
                        assert(self.buffer.pix(xo, yo) == before.pix(xo, yo));
                    }
                }
            }
            x = x + 1;
        }
        proof {
            assert forall|xo: int, yo: int|
                orig.in_bounds(xo, yo) implies self.buffer.pix(xo, yo) == (
                if yo == y && lo <= xo <= hi {
                color
            } else {
                orig.pix(xo, yo)
            }) by {}
        }
    }

    /// Fill the triangle of `triangle` with its color by the two-pass
    /// scanline technique: scanlines from vertex 1 down to vertex 2 span
    /// the edges anchored at vertex 1, scanlines from vertex 2 down to
    /// vertex 3 span the edges anchored at vertex 3, each span normalized
    /// to run from its lower to its higher intersection and clipped
    /// silently at the buffer edges.  The vertices must come sorted by `y`
    /// ascending.
    pub fn triangle_fill(&mut self, triangle: &mut GraphikTriangle)
        requires
            old(self).wf(),
            old(triangle).sorted(),
        ensures
            final(self).wf(),
            final(self).buffer.width == old(self).buffer.width,
            final(self).buffer.height == old(self).buffer.height,
            *final(triangle) == *old(triangle),
            forall|x: int, y: int|
                old(self).buffer.in_bounds(x, y) ==> final(self).buffer.pix(x, y) == (
                if old(triangle).covers(x, y) {
                    old(triangle).color
                } else {
                    old(self).buffer.pix(x, y)
                }),
    {
        let bw = self.buffer.width;
        let bh = self.buffer.height;
        let ghost t = *triangle;
        let ghost orig = self.buffer;
        let x1 = triangle.x1;
        let y1 = triangle.y1;
        let x2 = triangle.x2;
        let y2 = triangle.y2;
        let x3 = triangle.x3;
        let y3 = triangle.y3;
        let color = triangle.color;
        let mut y: i64 = y1 as i64;
        while y <= y2 as i64
            invariant
                self.wf(),
                self.buffer.width == bw,
                self.buffer.height == bh,
                orig.wf(),
                orig.width == bw,
                orig.height == bh,
                t == (GraphikTriangle { x1, y1, x2, y2, x3, y3, color }),
                t.sorted(),
                y1 as i64 <= y <= y2 as i64 + 1,
                forall|xo: int, yo: int|
                    orig.in_bounds(xo, yo) ==> self.buffer.pix(xo, yo) == (
                    if t.top_covers(xo, yo) && yo < y {
                        color
                    } else {
                        orig.pix(xo, yo)
                    }),
            decreases y2 as i64 + 1 - y,
        {
            if y >= 0 && y < bh as i64 {
                let sa = edge_x_exec(y, y1 as i64, x1 as i64, x2 as i64, y2 as i64);
                let sb = edge_x_exec(y, y1 as i64, x1 as i64, x3 as i64, y3 as i64);
                let ghost before = self.buffer;
                self.fill_span(y, sa, sb, color);
                proof {
                    assert(sa == t.top_a(y as int));
                    assert(sb == t.top_b(y as int));
                    assert forall|xo: int, yo: int|
                        orig.in_bounds(xo, yo) implies self.buffer.pix(xo, yo) == (
                        if t.top_covers(xo, yo) && yo < y + 1 {
                        color
                    } else {
                        orig.pix(xo, yo)
                    }) by {}
                }
            } else {
                proof {
                    assert forall|xo: int, yo: int|
                        orig.in_bounds(xo, yo) implies self.buffer.pix(xo, yo) == (
                        if t.top_covers(xo, yo) && yo < y + 1 {
                        color
                    } else {
                        orig.pix(xo, yo)
                    }) by {}
                }
            }
            y = y + 1;
        }
        let ghost mid = self.buffer;
        proof {
            assert forall|xo: int, yo: int|
                orig.in_bounds(xo, yo) implies mid.pix(xo, yo) == (
                if t.top_covers(xo, yo) {
                color
            } else {
                orig.pix(xo, yo)
            }) by {}
        }
        let mut y: i64 = y2 as i64;
        while y <= y3 as i64
            invariant
                self.wf(),
                self.buffer.width == bw,
                self.buffer.height == bh,
                orig.wf(),
                orig.width == bw,
                orig.height == bh,
                mid.wf(),
                mid.width == bw,
                mid.height == bh,
                t == (GraphikTriangle { x1, y1, x2, y2, x3, y3, color }),
                t.sorted(),
                y2 as i64 <= y <= y3 as i64 + 1,
                forall|xo: int, yo: int|
                    orig.in_bounds(xo, yo) ==> self.buffer.pix(xo, yo) == (
                    if t.bottom_covers(xo, yo) && yo < y {
                        color
                    } else {
                        mid.pix(xo, yo)
                    }),
            decreases y3 as i64 + 1 - y,
        {
            if y >= 0 && y < bh as i64 {
                let sa = edge_x_exec(y, y3 as i64, x3 as i64, x2 as i64, y2 as i64);
                let sb = edge_x_exec(y, y3 as i64, x3 as i64, x1 as i64, y1 as i64);
                self.fill_span(y, sa, sb, color);
                proof {
                    assert(sa == t.bottom_a(y as int));
                    assert(sb == t.bottom_b(y as int));
                    assert forall|xo: int, yo: int|
                        orig.in_bounds(xo, yo) implies self.buffer.pix(xo, yo) == (
                        if t.bottom_covers(xo, yo) && yo < y + 1 {
                        color
                    } else {
                        mid.pix(xo, yo)
                    }) by {}
                }
            } else {
                proof {
                    assert forall|xo: int, yo: int|
                        orig.in_bounds(xo, yo) implies self.buffer.pix(xo, yo) == (
                        if t.bottom_covers(xo, yo) && yo < y + 1 {
                        color
                    } else {
                        mid.pix(xo, yo)
                    }) by {}
                }
            }
            y = y + 1;
        }
        proof {
            assert forall|xo: int, yo: int|
                orig.in_bounds(xo, yo) implies self.buffer.pix(xo, yo) == (
                if t.covers(xo, yo) {
                color
            } else {
                orig.pix(xo, yo)
            }) by {}
        }
    }

    /// Resolve the optional centering of a line against the buffer
    /// dimensions: `vertical` pins both x coordinates to the vertical
    /// centerline and is checked before `horizontal`, which pins both y
    /// coordinates to the horizontal centerline.
    fn process_line_vertices(&self, line: &mut GraphikLine, width: usize, height: usize)
        requires
            width <= i32::MAX,
            height <= i32::MAX,
        ensures
            *final(line) == old(line).resolved(width as int, height as int),
    {
        if line.center {
            if line.vertical {
                let center_x = (width / 2) as i32;
                line.vertical(center_x, line.y0, line.y1);
            } else if line.horizontal {
                let center_y = (height / 2) as i32;
                line.horizontal(center_y, line.x0, line.x1);
            }
        }
    }

    /// Draw the 8-connected line of `line` with its color by the integer
    /// Bresenham walk, both endpoints included, clipped silently at the
    /// buffer edges.  When `line.center` is set the endpoints are first
    /// pinned to a centerline of the buffer, and the descriptor keeps them.
    pub fn line_draw(&mut self, line: &mut GraphikLine)
        requires
            old(self).wf(),
        ensures
            final(self).wf(),
            final(self).buffer.width == old(self).buffer.width,
            final(self).buffer.height == old(self).buffer.height,
            *final(line) == old(line).resolved(
                old(self).buffer.width as int,
                old(self).buffer.height as int,
            ),
            forall|x: int, y: int|
                old(self).buffer.in_bounds(x, y) ==> final(self).buffer.pix(x, y) == (
                if final(line).points().contains((x, y)) {
                    old(line).color
                } else {
                    old(self).buffer.pix(x, y)
                }),
    {
        let bw = self.buffer.width;
        let bh = self.buffer.height;
        self.process_line_vertices(line, bw, bh);
        let ghost l = *line;
        let ghost orig = self.buffer;
        let color = line.color;
        let mut x: i64 = line.x0 as i64;
        let mut y: i64 = line.y0 as i64;
        let x1: i64 = line.x1 as i64;
        let y1: i64 = line.y1 as i64;
        let dx: i64 = if x1 >= x {
            x1 - x
        } else {
            x - x1
        };
        let dy: i64 = if y1 >= y {
            y1 - y
        } else {
            y - y1
        };
        let sx: i64 = if x < x1 {
            1
        } else {
            -1
        };
        let sy: i64 = if y < y1 {
            1
        } else {
            -1
        };
        let mut err: i128 = (dx - dy) as i128;
        let ghost mut st = bres_init(l.x0 as int, l.y0 as int, l.x1 as int, l.y1 as int);
        proof {
            lemma_bres_init(l.x0 as int, l.y0 as int, l.x1 as int, l.y1 as int);
        }
        while !(x == x1 && y == y1)
            invariant
                self.wf(),
                self.buffer.width == bw,
                self.buffer.height == bh,
                orig.wf(),
                orig.width == bw,
                orig.height == bh,
                color == l.color,
                bres_inv(st),
                st.x == x,
                st.y == y,
                st.x1 == x1,
                st.y1 == y1,
                st.dx == dx,
                st.dy == dy,
                st.sx == sx,
                st.sy == sy,
                st.err == err,
                -0x8000_0000 <= x1 <= 0x7fff_ffff,
                -0x8000_0000 <= y1 <= 0x7fff_ffff,
                0 <= dx <= 0x1_0000_0000,
                0 <= dy <= 0x1_0000_0000,
                bres_points(st).subset_of(l.points()),
                forall|xo: int, yo: int|
                    orig.in_bounds(xo, yo) ==> self.buffer.pix(xo, yo) == (
                    if l.points().contains((xo, yo)) && !bres_points(st).contains((xo, yo)) {
                        color
                    } else {
                        orig.pix(xo, yo)
                    }),
            decreases rem_x(st) + rem_y(st),
        {
            let ghost prev = st;
            let ghost before = self.buffer;
            if x >= 0 && x < bw as i64 && y >= 0 && y < bh as i64 {
                proof {
                    lemma_pix_index_in_range(self.buffer, x as int, y as int);
                }
                let total = self.buffer.buffer.len();
                assert((y as usize) * bw + (x as usize) < total);
                let idx = (y as usize) * bw + (x as usize);
                self.buffer.buffer.set(idx, color);
                proof {
                    lemma_pix_update(before, self.buffer, x as int, y as int, color);
                }
            }
            proof {
                lemma_bres_points_unfold(prev);
                lemma_bres_step(prev);
                lemma_bres_err_bound(prev);
                st = bres_step(prev);
                lemma_bres_coord_bounds(st);
            }
            let e2: i128 = 2 * err;
            if e2 > -(dy as i128) {
                err = err - (dy as i128);
                x = x + sx;
            }
            if e2 < (dx as i128) {
                err = err + (dx as i128);
                y = y + sy;
            }
            proof {
                assert(bres_points(prev).contains((prev.x, prev.y)));
                assert forall|xo: int, yo: int|
                    orig.in_bounds(xo, yo) implies self.buffer.pix(xo, yo) == (
                    if l.points().contains((xo, yo)) && !bres_points(st).contains((xo, yo)) {
                    color
                } else {
                    orig.pix(xo, yo)
                }) by {
                    if !(xo == prev.x && yo == prev.y) {
                        assert(bres_points(prev).contains((xo, yo)) <==> bres_points(
                            st,
                        ).contains((xo, yo)));
                        if orig.in_bounds(prev.x, prev.y) {
                            assert(self.buffer.pix(xo, yo) == before.pix(xo, yo));
                        }
                    }
                }
            }
        }
        let ghost before_last = self.buffer;
        if x >= 0 && x < bw as i64 && y >= 0 && y < bh as i64 {
            proof {
                lemma_pix_index_in_range(self.buffer, x as int, y as int);
            }
            let total = self.buffer.buffer.len();
            assert((y as usize) * bw + (x as usize) < total);
            let idx = (y as usize) * bw + (x as usize);
            self.buffer.buffer.set(idx, color);
            proof {
                lemma_pix_update(before_last, self.buffer, x as int, y as int, color);
            }
        }
        proof {
            assert(bres_done(st));
            assert(bres_points(st) =~= set![(x1 as int, y1 as int)]);
            lemma_bres_points_has_target(
                bres_init(l.x0 as int, l.y0 as int, l.x1 as int, l.y1 as int),
            );
            assert forall|xo: int, yo: int|
                orig.in_bounds(xo, yo) implies self.buffer.pix(xo, yo) == (
                if l.points().contains((xo, yo)) {
                color
            } else {
                orig.pix(xo, yo)
            }) by {
                if !(xo == x1 && yo == y1) {
                    if orig.in_bounds(x1 as int, y1 as int) {
                        assert(self.buffer.pix(xo, yo) == before_last.pix(xo, yo));
                    }
                }
            }
        }
    }
}

} // verus!
