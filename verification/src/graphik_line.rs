//! Line descriptor and the Bresenham walk that draws it.

use vstd::prelude::*;

verus! {

/// A 1-pixel-wide 8-connected line from `(x0, y0)` to `(x1, y1)`, both
/// endpoints included.  When `center` is set, the `vertical` flag pins both
/// x coordinates to the buffer's vertical centerline; otherwise the
/// `horizontal` flag pins both y coordinates to the horizontal centerline
/// (`vertical` is checked first, so a caller who sets both gets only
/// vertical centering).
#[derive(Debug, Clone, Copy)]
pub struct GraphikLine {
    pub x0: i32,
    pub y0: i32,
    pub x1: i32,
    pub y1: i32,
    pub color: u32,
    pub center: bool,
    pub vertical: bool,
    pub horizontal: bool,
}

impl GraphikLine {
    pub fn new(
        x0: i32,
        y0: i32,
        x1: i32,
        y1: i32,
        color: u32,
        center: bool,
        vertical: bool,
        horizontal: bool,
    ) -> (r: Self)
        ensures
            r == (GraphikLine { x0, y0, x1, y1, color, center, vertical, horizontal }),
    {
        Self { x0, y0, x1, y1, color, center, vertical, horizontal }
    }

    /// Pin both x coordinates to `x` and set the y endpoints.
    pub fn vertical(&mut self, x: i32, y0: i32, y1: i32)
        ensures
            *final(self) == (GraphikLine { x0: x, x1: x, y0, y1, ..*old(self) }),
    {
        self.x0 = x;
        self.x1 = x;
        self.y0 = y0;
        self.y1 = y1;
    }

    /// Pin both y coordinates to `y` and set the x endpoints.
    pub fn horizontal(&mut self, y: i32, x0: i32, x1: i32)
        ensures
            *final(self) == (GraphikLine { y0: y, y1: y, x0, x1, ..*old(self) }),
    {
        self.y0 = y;
        self.y1 = y;
        self.x0 = x0;
        self.x1 = x1;
    }

    /// The line as the draw operation sees it, after the optional centering
    /// against a `bw * bh` buffer.
    pub open spec fn resolved(self, bw: int, bh: int) -> GraphikLine {
        if self.center {
            if self.vertical {
                GraphikLine { x0: ((bw / 2) as i32), x1: ((bw / 2) as i32), ..self }
            } else if self.horizontal {
                GraphikLine { y0: ((bh / 2) as i32), y1: ((bh / 2) as i32), ..self }
            } else {
                self
            }
        } else {
            self
        }
    }

    /// The pixels the draw covers (before clipping at the buffer edges).
    pub open spec fn points(self) -> Set<(int, int)> {
        bres_points(bres_init(self.x0 as int, self.y0 as int, self.x1 as int, self.y1 as int))
    }
}

/// The state of the Bresenham walk: the current point `(x, y)`, the target
/// `(x1, y1)`, the fixed absolute differences `dx`, `dy` and step signs
/// `sx`, `sy`, and the error term `err`.
pub struct BresState {
    pub x: int,
    pub y: int,
    pub x1: int,
    pub y1: int,
    pub dx: int,
    pub dy: int,
    pub sx: int,
    pub sy: int,
    pub err: int,
}

/// How many steps the walk still has to take along x.
pub open spec fn rem_x(s: BresState) -> int {
    s.sx * (s.x1 - s.x)
}

/// How many steps the walk still has to take along y.
pub open spec fn rem_y(s: BresState) -> int {
    s.sy * (s.y1 - s.y)
}

/// The states the walk moves through: the remaining distances stay between
/// 0 and the fixed differences, and the error term carries exactly the
/// imbalance between x progress and y progress.
pub open spec fn bres_inv(s: BresState) -> bool {
    &&& s.dx >= 0
    &&& s.dy >= 0
    &&& (s.sx == 1 || s.sx == -1)
    &&& (s.sy == 1 || s.sy == -1)
    &&& 0 <= rem_x(s) <= s.dx
    &&& 0 <= rem_y(s) <= s.dy
    &&& s.err == s.dx - s.dy + s.dy * rem_x(s) - s.dx * rem_y(s)
}

/// The walk has reached the target point.
pub open spec fn bres_done(s: BresState) -> bool {
    s.x == s.x1 && s.y == s.y1
}

/// One step of the walk: advance x when `2*err > -dy`, advance y when
/// `2*err < dx`, adjusting the error term for each advance.
pub open spec fn bres_step(s: BresState) -> BresState {
    let mx = 2 * s.err > -s.dy;
    let my = 2 * s.err < s.dx;
    BresState {
        x: if mx {
            s.x + s.sx
        } else {
            s.x
        },
        y: if my {
            s.y + s.sy
        } else {
            s.y
        },
        err: s.err - (if mx {
            s.dy
        } else {
            0
        }) + (if my {
            s.dx
        } else {
            0
        }),
        ..s
    }
}

/// A step of an unfinished walk never overshoots the target on either axis,
/// keeps the state well formed, and makes progress.
pub proof fn lemma_bres_step(s: BresState)
    by (nonlinear_arith)
    requires
        bres_inv(s),
        !bres_done(s),
    ensures
        bres_inv(bres_step(s)),
        rem_x(bres_step(s)) + rem_y(bres_step(s)) < rem_x(s) + rem_y(s),
        rem_x(bres_step(s)) <= rem_x(s),
        rem_y(bres_step(s)) <= rem_y(s),
{
}

/// The walk's starting state for a line from `(x0, y0)` to `(x1, y1)`.
pub open spec fn bres_init(x0: int, y0: int, x1: int, y1: int) -> BresState {
    let dx = if x1 >= x0 {
        x1 - x0
    } else {
        x0 - x1
    };
    let dy = if y1 >= y0 {
        y1 - y0
    } else {
        y0 - y1
    };
    BresState {
        x: x0,
        y: y0,
        x1,
        y1,
        dx,
        dy,
        sx: if x0 < x1 {
            1int
        } else {
            -1int
        },
        sy: if y0 < y1 {
            1int
        } else {
            -1int
        },
        err: dx - dy,
    }
}

/// The starting state is well formed.
pub proof fn lemma_bres_init(x0: int, y0: int, x1: int, y1: int)
    by (nonlinear_arith)
    ensures
        bres_inv(bres_init(x0, y0, x1, y1)),
{
}

/// A drawn line includes both of its endpoints.
pub proof fn lemma_line_points_has_endpoints(l: GraphikLine)
    ensures
        l.points().contains((l.x0 as int, l.y0 as int)),
        l.points().contains((l.x1 as int, l.y1 as int)),
{
    let s = bres_init(l.x0 as int, l.y0 as int, l.x1 as int, l.y1 as int);
    lemma_bres_init(l.x0 as int, l.y0 as int, l.x1 as int, l.y1 as int);
    lemma_bres_points_has_target(s);
    if bres_done(s) {
        assert(bres_points(s).contains((s.x, s.y)));
    } else {
        assert(bres_points(s).contains((s.x, s.y)));
    }
}

/// The error term of a well-formed state is bounded by the products of the
/// fixed differences.
pub proof fn lemma_bres_err_bound(s: BresState)
    by (nonlinear_arith)
    requires
        bres_inv(s),
        s.dx <= 0x1_0000_0000,
        s.dy <= 0x1_0000_0000,
    ensures
        -0x4_0000_0000_0000_0000 <= s.err <= 0x4_0000_0000_0000_0000,
{
}

/// The current point of a well-formed state lies within the fixed
/// differences of the target.
pub proof fn lemma_bres_coord_bounds(s: BresState)
    by (nonlinear_arith)
    requires
        bres_inv(s),
    ensures
        s.x1 - s.dx <= s.x <= s.x1 + s.dx,
        s.y1 - s.dy <= s.y <= s.y1 + s.dy,
{
}

/// The points the walk plots from state `s` on: the current point, then
/// those of the stepped walk, until the target is plotted last.
pub open spec fn bres_points(s: BresState) -> Set<(int, int)>
    decreases rem_x(s) + rem_y(s),
        when bres_inv(s)
{
    if bres_done(s) {
        set![(s.x, s.y)]
    } else {
        proof {
            lemma_bres_step(s);
        }
        bres_points(bres_step(s)).insert((s.x, s.y))
    }
}

/// Every plotted point lies between the current point and the target on
/// both axes, no farther from the target than the walk now stands.
pub proof fn lemma_bres_points_measure(s: BresState)
    requires
        bres_inv(s),
    ensures
        forall|p: (int, int)| #[trigger]
            bres_points(s).contains(p) ==> {
                &&& 0 <= s.sx * (s.x1 - p.0)
                &&& 0 <= s.sy * (s.y1 - p.1)
                &&& s.sx * (s.x1 - p.0) + s.sy * (s.y1 - p.1) <= rem_x(s) + rem_y(s)
            },
    decreases rem_x(s) + rem_y(s),
{
    if !bres_done(s) {
        lemma_bres_step(s);
        lemma_bres_points_measure(bres_step(s));
        assert forall|p: (int, int)| #[trigger] bres_points(s).contains(p) implies {
            &&& 0 <= s.sx * (s.x1 - p.0)
            &&& 0 <= s.sy * (s.y1 - p.1)
            &&& s.sx * (s.x1 - p.0) + s.sy * (s.y1 - p.1) <= rem_x(s) + rem_y(s)
        } by {
            if p == (s.x, s.y) {
                assert(s.sx * (s.x1 - p.0) == rem_x(s));
                assert(s.sy * (s.y1 - p.1) == rem_y(s));
            } else {
                assert(bres_points(bres_step(s)).contains(p));
            }
        }
    }
}

/// Plotting the current point and stepping loses no point and repeats none:
/// the stepped walk never returns to the point just plotted.
pub proof fn lemma_bres_points_unfold(s: BresState)
    requires
        bres_inv(s),
        !bres_done(s),
    ensures
        bres_inv(bres_step(s)),
        bres_points(s) == bres_points(bres_step(s)).insert((s.x, s.y)),
        !bres_points(bres_step(s)).contains((s.x, s.y)),
{
    lemma_bres_step(s);
    lemma_bres_points_measure(bres_step(s));
    if bres_points(bres_step(s)).contains((s.x, s.y)) {
        assert(s.sx * (s.x1 - s.x) + s.sy * (s.y1 - s.y) <= rem_x(bres_step(s)) + rem_y(
            bres_step(s),
        ));
    }
}

/// The walk always plots the target point.
pub proof fn lemma_bres_points_has_target(s: BresState)
    requires
        bres_inv(s),
    ensures
        bres_points(s).contains((s.x1, s.y1)),
    decreases rem_x(s) + rem_y(s),
{
    if !bres_done(s) {
        lemma_bres_step(s);
        lemma_bres_points_has_target(bres_step(s));
    }
}

} // verus!
