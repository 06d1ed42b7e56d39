//! Integer coordinates and axis-aligned rectangles, with spiral enumeration
//! of a rectangle's interior cells.

use vstd::prelude::*;

verus! {

use vstd::math::max;

/// An integer (x, y) pair. Used both for map-frame positions and for
/// screen-frame offsets; callers track which frame a value is in.
#[derive(Debug, Copy, Clone, Eq, PartialEq, Structural, Default, Hash)]
pub struct Coordinate {
    pub x: i32,
    pub y: i32,
}

/// Componentwise sum, as a spec-level value. Meaningful when the sums fit in `i32`.
pub open spec fn coord_add(a: Coordinate, b: Coordinate) -> Coordinate {
    Coordinate { x: (a.x + b.x) as i32, y: (a.y + b.y) as i32 }
}

/// Componentwise difference, as a spec-level value. Meaningful when the
/// differences fit in `i32`.
pub open spec fn coord_sub(a: Coordinate, b: Coordinate) -> Coordinate {
    Coordinate { x: (a.x - b.x) as i32, y: (a.y - b.y) as i32 }
}

impl Coordinate {
    /// Componentwise addition.
    pub fn add(self, rhs: Coordinate) -> (r: Coordinate)
        requires
            i32::MIN <= self.x + rhs.x <= i32::MAX,
            i32::MIN <= self.y + rhs.y <= i32::MAX,
        ensures
            r.x == self.x + rhs.x,
            r.y == self.y + rhs.y,
            r == coord_add(self, rhs),
    {
        Coordinate { x: self.x + rhs.x, y: self.y + rhs.y }
    }

    /// Componentwise subtraction.
    pub fn sub(self, rhs: Coordinate) -> (r: Coordinate)
        requires
            i32::MIN <= self.x - rhs.x <= i32::MAX,
            i32::MIN <= self.y - rhs.y <= i32::MAX,
        ensures
            r.x == self.x - rhs.x,
            r.y == self.y - rhs.y,
            r == coord_sub(self, rhs),
    {
        Coordinate { x: self.x - rhs.x, y: self.y - rhs.y }
    }

    /// Componentwise negation.
    pub fn neg(self) -> (r: Coordinate)
        requires
            self.x != i32::MIN,
            self.y != i32::MIN,
        ensures
            r.x == -self.x,
            r.y == -self.y,
    {
        Coordinate { x: -self.x, y: -self.y }
    }

    /// Squared distance from the origin.
    pub fn dist_sq(&self) -> (r: i32)
        requires
            self.x * self.x + self.y * self.y <= i32::MAX,
        ensures
            r == self.x * self.x + self.y * self.y,
    {
        proof {
            assert(self.x * self.x >= 0 && self.y * self.y >= 0) by (nonlinear_arith);
        }
        self.x * self.x + self.y * self.y
    }
}

/// An axis-aligned rectangle: integer origin, unsigned extent.
///
/// Two notions of membership coexist, as the callers need them:
/// `contains` is inclusive on all four edges (lattice points of the closed
/// rectangle), while the interior cells enumerated by `indices` and `spiral`
/// are the `w * h` points with `x <= px < x + w` and `y <= py < y + h`.
#[derive(Debug, Copy, Clone, PartialEq, Eq, Structural, Hash)]
pub struct Rect {
    pub x: i32,
    pub y: i32,
    pub w: u32,
    pub h: u32,
}

impl Rect {
    /// The horizontal extent stays within `i32` when computed directly.
    pub open spec fn x_extent_ok(self) -> bool {
        self.w <= i32::MAX && self.x + self.w <= i32::MAX
    }

    /// The vertical extent stays within `i32` when computed directly.
    pub open spec fn y_extent_ok(self) -> bool {
        self.h <= i32::MAX && self.y + self.h <= i32::MAX
    }

    /// Both extents stay within `i32`.
    pub open spec fn extent_ok(self) -> bool {
        self.x_extent_ok() && self.y_extent_ok()
    }

    /// Inclusive containment of a lattice point, on both bounds of each axis.
    pub open spec fn contains_spec(self, px: int, py: int) -> bool {
        px >= self.x && px <= self.x + self.w && py >= self.y && py <= self.y + self.h
    }

    /// Membership of an interior cell: one of the `w * h` enumerated points.
    pub open spec fn has_cell(self, c: Coordinate) -> bool {
        self.x <= c.x < self.x + self.w && self.y <= c.y < self.y + self.h
    }

    /// The interior cells in row-major order.
    pub open spec fn raster(self) -> Seq<Coordinate> {
        Seq::new(
            (self.w * self.h) as nat,
            |i: int|
                Coordinate {
                    x: (self.x + i % (self.w as int)) as i32,
                    y: (self.y + i / (self.w as int)) as i32,
                },
        )
    }

    /// The lowest x value of the rectangle.
    pub fn left(&self) -> (r: i32)
        ensures
            r == self.x,
    {
        self.x
    }

    /// The highest x value of the rectangle.
    pub fn right(&self) -> (r: i32)
        requires
            self.x_extent_ok(),
        ensures
            r == self.x + self.w,
    {
        self.x + self.w as i32
    }

    /// The lowest y value of the rectangle (top in image coordinates!)
    pub fn bottom(&self) -> (r: i32)
        ensures
            r == self.y,
    {
        self.y
    }

    /// The highest y value of the rectangle (bottom in image coordinates!)
    pub fn top(&self) -> (r: i32)
        requires
            self.y_extent_ok(),
        ensures
            r == self.y + self.h,
    {
        self.y + self.h as i32
    }

    /// The width of the rectangle.
    pub fn width(&self) -> (r: u32)
        ensures
            r == self.w,
    {
        self.w
    }

    /// The height of the rectangle.
    pub fn height(&self) -> (r: u32)
        ensures
            r == self.h,
    {
        self.h
    }

    /// Inclusive containment of a lattice point, on both bounds of each axis.
    pub fn contains(&self, px: i32, py: i32) -> (r: bool)
        requires
            self.extent_ok(),
        ensures
            r == self.contains_spec(px as int, py as int),
    {
        px >= self.left() && px <= self.right() && py >= self.bottom() && py <= self.top()
    }

    /// Whether this rectangle overlaps with the provided rectangle. Including boundary.
    pub fn overlaps(&self, b: &Rect) -> (r: bool)
        requires
            self.extent_ok(),
            b.extent_ok(),
        ensures
            r == (self.x + self.w >= b.x && b.x + b.w >= self.x && self.y + self.h >= b.y && b.y
                + b.h >= self.y),
    {
        self.right() >= b.left() && b.right() >= self.left() && self.top() >= b.bottom() && b.top()
            >= self.bottom()
    }

    /// Whether this rectangle overlaps with the provided rectangle. Excluding boundary.
    pub fn overlaps_excluding(&self, b: &Rect) -> (r: bool)
        requires
            self.extent_ok(),
            b.extent_ok(),
        ensures
            r == (self.x + self.w > b.x && b.x + b.w > self.x && self.y + self.h > b.y && b.y + b.h
                > self.y),
    {
        self.right() > b.left() && b.right() > self.left() && self.top() > b.bottom() && b.top()
            > self.bottom()
    }

    /// Translate the rectangle by a coordinate.
    pub fn add(self, rhs: Coordinate) -> (r: Rect)
        requires
            i32::MIN <= self.x + rhs.x <= i32::MAX,
            i32::MIN <= self.y + rhs.y <= i32::MAX,
        ensures
            r.x == self.x + rhs.x,
            r.y == self.y + rhs.y,
            r.w == self.w,
            r.h == self.h,
    {
        Rect { x: self.x + rhs.x, y: self.y + rhs.y, w: self.w, h: self.h }
    }

    /// Translate the rectangle by the negation of a coordinate.
    pub fn sub(self, rhs: Coordinate) -> (r: Rect)
        requires
            i32::MIN <= self.x - rhs.x <= i32::MAX,
            i32::MIN <= self.y - rhs.y <= i32::MAX,
        ensures
            r.x == self.x - rhs.x,
            r.y == self.y - rhs.y,
            r.w == self.w,
            r.h == self.h,
    {
        Rect { x: self.x - rhs.x, y: self.y - rhs.y, w: self.w, h: self.h }
    }

    /// All interior cells, in row-major order.
    pub fn indices(&self) -> (r: Vec<Coordinate>)
        requires
            self.extent_ok(),
        ensures
            r@ == self.raster(),
    {
        let mut v: Vec<Coordinate> = Vec::new();
        let mut yy: i32 = self.y;
        let y_end: i32 = self.top();
        while yy < y_end
            invariant
                self.extent_ok(),
                y_end == self.y + self.h,
                self.y <= yy <= y_end,
                v@.len() == (yy - self.y) * self.w,
                forall|j: int| 0 <= j < v@.len() ==> v@[j] == self.raster()[j],
            decreases y_end - yy,
        {
            let mut xx: i32 = self.x;
            let x_end: i32 = self.right();
            proof {
                lemma_row_start_bound(self.w as int, self.h as int, (yy - self.y) as int);
            }
            while xx < x_end
                invariant
                    self.extent_ok(),
                    x_end == self.x + self.w,
                    y_end == self.y + self.h,
                    self.y <= yy < y_end,
                    self.x <= xx <= x_end,
                    (yy - self.y) * self.w + self.w <= self.w * self.h,
                    (yy - self.y) * self.w >= 0,
                    v@.len() == (yy - self.y) * self.w + (xx - self.x),
                    forall|j: int| 0 <= j < v@.len() ==> v@[j] == self.raster()[j],
                decreases x_end - xx,
            {
                proof {
                    lemma_raster_index(
                        self.w as int,
                        self.h as int,
                        (yy - self.y) as int,
                        (xx - self.x) as int,
                    );
                }
                v.push(Coordinate { x: xx, y: yy });
                xx = xx + 1;
            }
            proof {
                assert(((yy - self.y) + 1) * self.w == (yy - self.y) * self.w + self.w)
                    by (nonlinear_arith);
            }
            yy = yy + 1;
        }
        proof {
            assert((self.h as int) * (self.w as int) == (self.w as int) * (self.h as int))
                by (nonlinear_arith);
            assert(v@ =~= self.raster());
        }
        v
    }
}

/// Chebyshev distance of an offset from the origin.
pub open spec fn cheb(dx: int, dy: int) -> int {
    max(max(dx, -dx), max(dy, -dy))
}

/// Number of cells on the square ring of radius `r` around the origin.
pub open spec fn ring_size(r: int) -> int {
    if r == 0 {
        1
    } else {
        8 * r
    }
}

/// Horizontal offset of the `k`-th cell of ring `r`, walking the ring in
/// spiral order: up the right edge, left along the top, down the left edge,
/// right along the bottom.
pub open spec fn ring_cell_dx(r: int, k: int) -> int {
    if r == 0 {
        0
    } else if k < 2 * r {
        r
    } else if k < 4 * r {
        r - 1 - (k - 2 * r)
    } else if k < 6 * r {
        -r
    } else {
        -r + 1 + (k - 6 * r)
    }
}

/// Vertical offset of the `k`-th cell of ring `r`; see `ring_cell_dx`.
pub open spec fn ring_cell_dy(r: int, k: int) -> int {
    if r == 0 {
        0
    } else if k < 2 * r {
        -r + 1 + k
    } else if k < 4 * r {
        r
    } else if k < 6 * r {
        r - 1 - (k - 4 * r)
    } else {
        -r
    }
}

/// Position of an offset on its own ring: the inverse of `ring_cell_dx`/`dy`
/// for offsets with `cheb(dx, dy) == r`.
pub open spec fn ring_index(r: int, dx: int, dy: int) -> int {
    if r == 0 {
        0
    } else if dx == r && dy >= -r + 1 {
        dy + r - 1
    } else if dy == r {
        2 * r + (r - 1 - dx)
    } else if dx == -r {
        4 * r + (r - 1 - dy)
    } else {
        6 * r + (dx + r - 1)
    }
}

/// A cell of ring `r` lies at Chebyshev distance exactly `r`.
proof fn lemma_ring_cell_cheb(r: int, k: int)
    requires
        r >= 0,
        0 <= k < ring_size(r),
    ensures
        cheb(ring_cell_dx(r, k), ring_cell_dy(r, k)) == r,
{
}

/// `ring_index` recovers the position of a cell on its ring.
proof fn lemma_ring_cell_index(r: int, k: int)
    requires
        r >= 0,
        0 <= k < ring_size(r),
    ensures
        ring_index(r, ring_cell_dx(r, k), ring_cell_dy(r, k)) == k,
{
}

/// Every offset at Chebyshev distance `r` is a cell of ring `r`, at position
/// `ring_index(r, dx, dy)`.
proof fn lemma_ring_index_complete(r: int, dx: int, dy: int)
    requires
        r >= 0,
        cheb(dx, dy) == r,
    ensures
        0 <= ring_index(r, dx, dy) < ring_size(r),
        ring_cell_dx(r, ring_index(r, dx, dy)) == dx,
        ring_cell_dy(r, ring_index(r, dx, dy)) == dy,
{
}

impl Rect {
    /// Horizontal coordinate of the spiral's center cell.
    pub open spec fn center_x(self) -> int {
        self.x + self.w as int / 2 - (if self.w % 2 == 0 {
            1int
        } else {
            0int
        })
    }

    /// Vertical coordinate of the spiral's center cell.
    pub open spec fn center_y(self) -> int {
        self.y + self.h as int / 2 - (if self.h % 2 == 0 {
            1int
        } else {
            0int
        })
    }

    /// Largest Chebyshev distance from the center cell to any interior cell.
    pub open spec fn spiral_rmax(self) -> int {
        max(
            max(self.center_x() - self.x, self.x + self.w - 1 - self.center_x()),
            max(self.center_y() - self.y, self.y + self.h - 1 - self.center_y()),
        )
    }

    /// The spiral walk stays clear of the `i32` limits.
    pub open spec fn spiral_in_range(self) -> bool {
        &&& self.x - (self.w + self.h + 2) >= i32::MIN
        &&& self.x + self.w + (self.w + self.h + 2) <= i32::MAX
        &&& self.y - (self.w + self.h + 2) >= i32::MIN
        &&& self.y + self.h + (self.w + self.h + 2) <= i32::MAX
    }

    /// The cell of the spiral walk at ring `r`, position `k`, as absolute
    /// integer coordinates.
    pub open spec fn spiral_cell_x(self, r: int, k: int) -> int {
        self.center_x() + ring_cell_dx(r, k)
    }

    /// See `spiral_cell_x`.
    pub open spec fn spiral_cell_y(self, r: int, k: int) -> int {
        self.center_y() + ring_cell_dy(r, k)
    }

    /// What the walk emits at ring `r`, position `k`: the cell if it lies in
    /// this rectangle's interior, nothing otherwise.
    pub open spec fn spiral_emit(self, r: int, k: int) -> Seq<Coordinate> {
        if self.x <= self.spiral_cell_x(r, k) < self.x + self.w && self.y <= self.spiral_cell_y(
            r,
            k,
        ) < self.y + self.h {
            seq![
                Coordinate { x: self.spiral_cell_x(r, k) as i32, y: self.spiral_cell_y(r, k) as i32 },
            ]
        } else {
            Seq::empty()
        }
    }

    /// All coordinates emitted strictly before ring `r`, position `k`,
    /// in spiral order.
    pub open spec fn spiral_upto(self, r: int, k: int) -> Seq<Coordinate>
        decreases r, k,
    {
        if r < 0 || k < 0 {
            Seq::empty()
        } else if k == 0 {
            if r == 0 {
                Seq::empty()
            } else {
                self.spiral_upto(r - 1, ring_size(r - 1))
            }
        } else {
            self.spiral_upto(r, k - 1) + self.spiral_emit(r, k - 1)
        }
    }

    /// The complete spiral enumeration of this rectangle's interior cells,
    /// ordered by expanding square rings outward from the center.
    pub open spec fn spiral_seq(self) -> Seq<Coordinate> {
        self.spiral_upto(self.spiral_rmax() + 1, 0)
    }

    /// Rank order of a cell in the spiral: whether `c` is emitted strictly
    /// before ring `r`, position `k`.
    pub open spec fn spiral_rank_lt(self, c: Coordinate, r: int, k: int) -> bool {
        let dx = c.x - self.center_x();
        let dy = c.y - self.center_y();
        cheb(dx, dy) < r || (cheb(dx, dy) == r && ring_index(r, dx, dy) < k)
    }

    /// The ring a cell lies on: its Chebyshev distance from the center.
    pub open spec fn cell_ring(self, c: Coordinate) -> int {
        cheb(c.x - self.center_x(), c.y - self.center_y())
    }

    /// A cell's position on its own ring.
    pub open spec fn cell_pos(self, c: Coordinate) -> int {
        ring_index(self.cell_ring(c), c.x - self.center_x(), c.y - self.center_y())
    }
}

impl Rect {
    /// What `spiral_upto` holds: every interior cell ranked before `(r, k)`,
    /// each exactly once.
    proof fn lemma_spiral_upto_props(self, r: int, k: int)
        requires
            self.extent_ok(),
            r >= 0,
            0 <= k <= ring_size(r),
        ensures
            self.spiral_upto(r, k).no_duplicates(),
            forall|c: Coordinate| #[trigger]
                self.spiral_upto(r, k).contains(c) <==> (self.has_cell(c) && self.spiral_rank_lt(
                    c,
                    r,
                    k,
                )),
        decreases r, k,
    {
        let s = self.spiral_upto(r, k);
        if k == 0 {
            if r == 0 {
                assert forall|c: Coordinate| #[trigger]
                    s.contains(c) <==> (self.has_cell(c) && self.spiral_rank_lt(c, r, k)) by {
                    assert(!s.contains(c));
                    let dx = c.x - self.center_x();
                    let dy = c.y - self.center_y();
                    assert(cheb(dx, dy) >= 0);
                }
            } else {
                self.lemma_spiral_upto_props(r - 1, ring_size(r - 1));
                let prev = self.spiral_upto(r - 1, ring_size(r - 1));
                assert(s == prev);
                assert forall|c: Coordinate| #[trigger]
                    s.contains(c) <==> (self.has_cell(c) && self.spiral_rank_lt(c, r, k)) by {
                    let dx = c.x - self.center_x();
                    let dy = c.y - self.center_y();
                    if cheb(dx, dy) == r - 1 {
                        lemma_ring_index_complete(r - 1, dx, dy);
                    }
                }
            }
        } else {
            self.lemma_spiral_upto_props(r, k - 1);
            let prev = self.spiral_upto(r, k - 1);
            let emit = self.spiral_emit(r, k - 1);
            assert(s == prev + emit);
            lemma_ring_cell_cheb(r, k - 1);
            lemma_ring_cell_index(r, k - 1);
            let ex = self.spiral_cell_x(r, k - 1);
            let ey = self.spiral_cell_y(r, k - 1);
            if emit.len() > 0 {
                let e = emit[0];
                assert(e.x == ex && e.y == ey);
                assert(!self.spiral_rank_lt(e, r, k - 1));
                assert(!prev.contains(e));
                assert(s.no_duplicates()) by {
                    assert forall|i: int, j: int|
                        0 <= i < s.len() && 0 <= j < s.len() && i != j implies s[i] != s[j] by {
                        if i < s.len() - 1 && j < s.len() - 1 {
                            assert(prev[i] == s[i] && prev[j] == s[j]);
                        } else if i == s.len() - 1 {
                            assert(s[i] == e && s[j] == prev[j]);
                        } else {
                            assert(s[j] == e && s[i] == prev[i]);
                        }
                    }
                }
            }
            assert forall|c: Coordinate| #[trigger]
                s.contains(c) <==> (self.has_cell(c) && self.spiral_rank_lt(c, r, k)) by {
                let dx = c.x - self.center_x();
                let dy = c.y - self.center_y();
                if s.contains(c) {
                    let i = choose|i: int| 0 <= i < s.len() && s[i] == c;
                    if i < prev.len() {
                        assert(prev.contains(c));
                    } else {
                        assert(emit.len() > 0 && c == emit[0]);
                        assert(self.has_cell(c));
                        assert(dx == ring_cell_dx(r, k - 1) && dy == ring_cell_dy(r, k - 1));
                    }
                }
                if self.has_cell(c) && self.spiral_rank_lt(c, r, k) {
                    if self.spiral_rank_lt(c, r, k - 1) {
                        assert(prev.contains(c));
                        assert(s[choose|i: int| 0 <= i < prev.len() && prev[i] == c] == c);
                    } else {
                        assert(cheb(dx, dy) == r && ring_index(r, dx, dy) == k - 1);
                        lemma_ring_index_complete(r, dx, dy);
                        assert(dx == ring_cell_dx(r, k - 1) && dy == ring_cell_dy(r, k - 1));
                        assert(ex == c.x && ey == c.y);
                        assert(emit.len() == 1);
                        assert(s[s.len() - 1] == c);
                    }
                }
            }
        }
    }

    /// The walk emits cells in strictly increasing rank order: every earlier
    /// cell ranks strictly before every later one.
    proof fn lemma_spiral_upto_order(self, r: int, k: int)
        requires
            self.extent_ok(),
            r >= 0,
            0 <= k <= ring_size(r),
        ensures
            forall|i: int, j: int|
                0 <= i < j < self.spiral_upto(r, k).len() ==> self.spiral_rank_lt(
                    #[trigger] self.spiral_upto(r, k)[i],
                    self.cell_ring(#[trigger] self.spiral_upto(r, k)[j]),
                    self.cell_pos(self.spiral_upto(r, k)[j]),
                ),
        decreases r, k,
    {
        let s = self.spiral_upto(r, k);
        if k == 0 {
            if r > 0 {
                self.lemma_spiral_upto_order(r - 1, ring_size(r - 1));
                assert(s == self.spiral_upto(r - 1, ring_size(r - 1)));
            }
        } else {
            self.lemma_spiral_upto_order(r, k - 1);
            self.lemma_spiral_upto_props(r, k - 1);
            let prev = self.spiral_upto(r, k - 1);
            let emit = self.spiral_emit(r, k - 1);
            assert(s == prev + emit);
            lemma_ring_cell_cheb(r, k - 1);
            lemma_ring_cell_index(r, k - 1);
            assert forall|i: int, j: int|
                0 <= i < j < s.len() implies self.spiral_rank_lt(
                #[trigger] s[i],
                self.cell_ring(#[trigger] s[j]),
                self.cell_pos(s[j]),
            ) by {
                if j < prev.len() {
                    assert(s[i] == prev[i] && s[j] == prev[j]);
                } else {
                    let e = emit[0];
                    assert(s[j] == e && s[i] == prev[i]);
                    assert(self.cell_ring(e) == r && self.cell_pos(e) == k - 1);
                    assert(prev.contains(prev[i]));
                    assert(self.spiral_rank_lt(prev[i], r, k - 1));
                }
            }
        }
    }

    /// Earlier stages of the spiral walk are prefixes of later ones.
    proof fn lemma_spiral_upto_prefix(self, r1: int, k1: int, r2: int, k2: int)
        requires
            r1 >= 0,
            0 <= k1 <= ring_size(r1),
            0 <= k2 <= ring_size(r2),
            r1 < r2 || (r1 == r2 && k1 <= k2),
        ensures
            self.spiral_upto(r1, k1).is_prefix_of(self.spiral_upto(r2, k2)),
        decreases r2, k2,
    {
        let s1 = self.spiral_upto(r1, k1);
        if r1 == r2 && k1 == k2 {
        } else if k2 == 0 {
            self.lemma_spiral_upto_prefix(r1, k1, r2 - 1, ring_size(r2 - 1));
            assert(self.spiral_upto(r2, k2) == self.spiral_upto(r2 - 1, ring_size(r2 - 1)));
        } else {
            self.lemma_spiral_upto_prefix(r1, k1, r2, k2 - 1);
            let p = self.spiral_upto(r2, k2 - 1);
            let s2 = self.spiral_upto(r2, k2);
            assert(s2 == p + self.spiral_emit(r2, k2 - 1));
            assert(s1.is_prefix_of(p));
            assert(s1.is_prefix_of(s2)) by {
                assert(forall|i: int| 0 <= i < s1.len() ==> s1[i] == p[i] && p[i] == s2[i]);
                assert(s1 =~= s2.take(s1.len() as int));
            }
        }
    }

    /// The row-major enumeration holds every interior cell exactly once.
    pub proof fn lemma_raster_props(self)
        requires
            self.extent_ok(),
        ensures
            self.raster().no_duplicates(),
            forall|c: Coordinate| #[trigger] self.raster().contains(c) <==> self.has_cell(c),
            self.raster().len() == self.w * self.h,
    {
        let ras = self.raster();
        assert(ras.no_duplicates()) by {
            assert forall|i: int, j: int|
                0 <= i < ras.len() && 0 <= j < ras.len() && i != j implies ras[i] != ras[j] by {
                lemma_raster_decompose(self.w as int, self.h as int, i);
                lemma_raster_decompose(self.w as int, self.h as int, j);
            }
        }
        assert forall|c: Coordinate| #[trigger] ras.contains(c) <==> self.has_cell(c) by {
            if ras.contains(c) {
                let i = choose|i: int| 0 <= i < ras.len() && ras[i] == c;
                lemma_raster_decompose(self.w as int, self.h as int, i);
            }
            if self.has_cell(c) {
                let row = c.y - self.y;
                let col = c.x - self.x;
                lemma_raster_index(self.w as int, self.h as int, row, col);
                assert(ras[row * self.w + col] == c);
            }
        }
    }

    /// The spiral enumeration is a permutation of the row-major enumeration:
    /// `w * h` coordinates, each interior cell exactly once.
    pub proof fn lemma_spiral_seq_props(self)
        requires
            self.extent_ok(),
        ensures
            self.spiral_seq().no_duplicates(),
            forall|c: Coordinate| #[trigger] self.spiral_seq().contains(c) <==> self.has_cell(c),
            self.spiral_seq().len() == self.w * self.h,
            self.spiral_seq().to_set() == self.raster().to_set(),
    {
        let rmax = self.spiral_rmax();
        let s = self.spiral_seq();
        self.lemma_spiral_upto_props(rmax + 1, 0);
        assert forall|c: Coordinate| #[trigger] s.contains(c) <==> self.has_cell(c) by {
            if self.has_cell(c) {
                let dx = c.x - self.center_x();
                let dy = c.y - self.center_y();
                assert(cheb(dx, dy) <= rmax);
                assert(self.spiral_rank_lt(c, rmax + 1, 0));
            }
        }
        self.lemma_raster_props();
        let ras = self.raster();
        assert(s.to_set() =~= ras.to_set()) by {
            assert(forall|c: Coordinate| s.to_set().contains(c) <==> #[trigger] s.contains(c));
            assert(forall|c: Coordinate| ras.to_set().contains(c) <==> #[trigger] ras.contains(c));
        }
        s.unique_seq_to_set();
        ras.unique_seq_to_set();
    }

    /// The spiral enumeration is ordered by expanding square rings outward
    /// from the center: the Chebyshev distance to the center never decreases
    /// along the sequence, and within one ring the walk position only grows.
    pub proof fn lemma_spiral_ring_order(self)
        requires
            self.extent_ok(),
        ensures
            forall|i: int, j: int|
                0 <= i < j < self.spiral_seq().len() ==> self.cell_ring(
                    #[trigger] self.spiral_seq()[i],
                ) < self.cell_ring(#[trigger] self.spiral_seq()[j]) || (self.cell_ring(
                    self.spiral_seq()[i],
                ) == self.cell_ring(self.spiral_seq()[j]) && self.cell_pos(self.spiral_seq()[i])
                    < self.cell_pos(self.spiral_seq()[j])),
    {
        self.lemma_spiral_upto_order(self.spiral_rmax() + 1, 0);
        let s = self.spiral_seq();
        assert forall|i: int, j: int| 0 <= i < j < s.len() implies self.cell_ring(
            #[trigger] s[i],
        ) < self.cell_ring(#[trigger] s[j]) || (self.cell_ring(s[i]) == self.cell_ring(s[j])
            && self.cell_pos(s[i]) < self.cell_pos(s[j])) by {
            assert(self.spiral_rank_lt(s[i], self.cell_ring(s[j]), self.cell_pos(s[j])));
        }
    }
}

/// Splitting a row-major position into row and column.
proof fn lemma_raster_decompose(w: int, h: int, i: int)
    requires
        w >= 0,
        h >= 0,
        0 <= i < w * h,
    ensures
        w >= 1,
        i % w == i - (i / w) * w,
        0 <= i % w < w,
        0 <= i / w < h,
        i == (i / w) * w + i % w,
{
    assert(w >= 1) by (nonlinear_arith)
        requires
            w >= 0,
            h >= 0,
            0 <= i < w * h,
    ;
    vstd::arithmetic::div_mod::lemma_fundamental_div_mod(i, w);
    assert(w * (i / w) == (i / w) * w) by (nonlinear_arith);
    vstd::arithmetic::div_mod::lemma_mod_bound(i, w);
    vstd::arithmetic::div_mod::lemma_div_pos_is_pos(i, w);
    assert(i / w < h) by (nonlinear_arith)
        requires
            w >= 1,
            i < w * h,
            i == w * (i / w) + i % w,
            0 <= i % w < w,
            i / w >= 0,
    ;
}

/// A restartable, finite enumerator of a rectangle's interior cells in
/// spiral order: expanding square rings outward from the rectangle's center,
/// one coordinate per `next` call.
pub struct SpiralIter {
    rect: Rect,
    cx: i32,
    cy: i32,
    rmax: u32,
    r: u32,
    k: u64,
}

impl SpiralIter {
    /// The rectangle being enumerated.
    pub closed spec fn rect(self) -> Rect {
        self.rect
    }

    /// The coordinates handed out so far, in order.
    pub closed spec fn emitted(self) -> Seq<Coordinate> {
        self.rect.spiral_upto(self.r as int, self.k as int)
    }

    /// Whether the enumeration is exhausted.
    pub closed spec fn done(self) -> bool {
        self.r > self.rmax
    }

    /// Internal consistency of the iterator state.
    pub closed spec fn wf(self) -> bool {
        &&& self.rect.extent_ok()
        &&& self.rect.spiral_in_range()
        &&& self.cx == self.rect.center_x()
        &&& self.cy == self.rect.center_y()
        &&& self.rmax == self.rect.spiral_rmax()
        &&& ((self.r <= self.rmax && (self.k as int) < ring_size(self.r as int)) || (self.r
            == self.rmax + 1 && self.k == 0))
    }

    /// Produce the next coordinate of the spiral, or report the end of the
    /// sequence. What has been emitted is always a prefix of
    /// `rect().spiral_seq()`, and on `None` it is the whole of it.
    #[verifier::loop_isolation(false)]
    #[verifier::rlimit(60)]
    pub fn next(&mut self) -> (res: Option<Coordinate>)
        requires
            old(self).wf(),
        ensures
            final(self).wf(),
            final(self).rect() == old(self).rect(),
            final(self).emitted().is_prefix_of(old(self).rect().spiral_seq()),
            match res {
                Some(c) => {
                    &&& final(self).emitted() == old(self).emitted().push(c)
                    &&& old(self).rect().has_cell(c)
                    &&& old(self).emitted().len() < old(self).rect().spiral_seq().len()
                    &&& c == old(self).rect().spiral_seq()[old(self).emitted().len() as int]
                },
                None => {
                    &&& final(self).emitted() == old(self).emitted()
                    &&& final(self).emitted() == old(self).rect().spiral_seq()
                    &&& final(self).done()
                },
            },
    {
        let ghost orig = *self;
        loop
            invariant
                self.wf(),
                self.rect == orig.rect,
                self.cx == orig.cx,
                self.cy == orig.cy,
                self.rmax == orig.rmax,
                self.emitted() == orig.emitted(),
            decreases self.rmax + 1 - self.r, ring_size(self.r as int) - self.k,
        {
            if self.r > self.rmax {
                proof {
                    assert(self.r == self.rmax + 1 && self.k == 0);
                    assert(self.emitted() == self.rect.spiral_seq());
                    self.rect.lemma_spiral_upto_prefix(
                        self.r as int,
                        self.k as int,
                        self.rect.spiral_rmax() + 1,
                        0,
                    );
                }
                return None;
            }
            let r64: i64 = self.r as i64;
            let k64: i64 = self.k as i64;
            let size: u64 = if self.r == 0 {
                1
            } else {
                8 * (self.r as u64)
            };
            let dx: i64 = if self.r == 0 {
                0
            } else if k64 < 2 * r64 {
                r64
            } else if k64 < 4 * r64 {
                r64 - 1 - (k64 - 2 * r64)
            } else if k64 < 6 * r64 {
                -r64
            } else {
                -r64 + 1 + (k64 - 6 * r64)
            };
            let dy: i64 = if self.r == 0 {
                0
            } else if k64 < 2 * r64 {
                -r64 + 1 + k64
            } else if k64 < 4 * r64 {
                r64
            } else if k64 < 6 * r64 {
                r64 - 1 - (k64 - 4 * r64)
            } else {
                -r64
            };
            proof {
                assert(dx == ring_cell_dx(self.r as int, self.k as int));
                assert(dy == ring_cell_dy(self.r as int, self.k as int));
                lemma_ring_cell_cheb(self.r as int, self.k as int);
                assert(self.rmax <= self.rect.w + self.rect.h + 1);
            }
            let px: i64 = self.cx as i64 + dx;
            let py: i64 = self.cy as i64 + dy;
            let ghost prev = *self;
            if self.k + 1 < size {
                self.k = self.k + 1;
            } else {
                self.r = self.r + 1;
                self.k = 0;
            }
            proof {
                let pr = prev.r as int;
                let pk = prev.k as int;
                assert(prev.rect.spiral_upto(pr, pk + 1) == prev.rect.spiral_upto(pr, pk)
                    + prev.rect.spiral_emit(pr, pk));
                if prev.k + 1 >= size {
                    assert(self.emitted() == prev.rect.spiral_upto(pr + 1, 0));
                    assert(prev.rect.spiral_upto(pr + 1, 0) == prev.rect.spiral_upto(
                        pr,
                        ring_size(pr),
                    ));
                }
                assert(self.emitted() == prev.emitted() + prev.rect.spiral_emit(pr, pk));
            }
            let rx: i64 = self.rect.x as i64;
            let ry: i64 = self.rect.y as i64;
            if rx <= px && px < rx + self.rect.w as i64 && ry <= py && py < ry + self.rect.h as i64 {
                let c = Coordinate { x: px as i32, y: py as i32 };
                proof {
                    assert(prev.rect.spiral_emit(prev.r as int, prev.k as int) =~= seq![c]);
                    assert(self.emitted() =~= prev.emitted().push(c));
                    self.rect.lemma_spiral_upto_props(prev.r as int, prev.k as int);
                    self.rect.lemma_spiral_upto_props(self.r as int, self.k as int);
                    self.rect.lemma_spiral_upto_prefix(
                        self.r as int,
                        self.k as int,
                        self.rect.spiral_rmax() + 1,
                        0,
                    );
                    assert(self.emitted().is_prefix_of(self.rect.spiral_seq()));
                    let n = prev.emitted().len() as int;
                    assert(self.emitted()[n] == c);
                    assert(self.emitted() =~= self.rect.spiral_seq().subrange(
                        0,
                        self.emitted().len() as int,
                    ));
                    assert(self.rect.spiral_seq().subrange(0, self.emitted().len() as int)[n]
                        == self.rect.spiral_seq()[n]);
                }
                return Some(c);
            }
            proof {
                assert(prev.rect.spiral_emit(prev.r as int, prev.k as int) =~= Seq::<
                    Coordinate,
                >::empty());
                assert(self.emitted() =~= prev.emitted());
            }
        }
    }
}

impl Rect {
    /// Begin a spiral enumeration of this rectangle's interior cells.
    pub fn spiral(&self) -> (it: SpiralIter)
        requires
            self.extent_ok(),
            self.spiral_in_range(),
        ensures
            it.wf(),
            it.rect() == *self,
            it.emitted() == Seq::<Coordinate>::empty(),
            !it.done() || self.spiral_seq().len() == 0,
    {
        let half_w: i32 = (self.w / 2) as i32;
        let half_h: i32 = (self.h / 2) as i32;
        let cx: i32 = if self.w % 2 == 1 {
            self.x + half_w
        } else {
            self.x + half_w - 1
        };
        let cy: i32 = if self.h % 2 == 1 {
            self.y + half_h
        } else {
            self.y + half_h - 1
        };
        let e1: i64 = cx as i64 - self.x as i64;
        let e2: i64 = self.x as i64 + self.w as i64 - 1 - cx as i64;
        let e3: i64 = cy as i64 - self.y as i64;
        let e4: i64 = self.y as i64 + self.h as i64 - 1 - cy as i64;
        let mut rmax64: i64 = e1;
        if e2 > rmax64 {
            rmax64 = e2;
        }
        if e3 > rmax64 {
            rmax64 = e3;
        }
        if e4 > rmax64 {
            rmax64 = e4;
        }
        let rmax: u32 = rmax64 as u32;
        SpiralIter { rect: *self, cx, cy, rmax, r: 0, k: 0 }
    }
}

/// A row that exists within the grid starts at an index within the grid.
proof fn lemma_row_start_bound(w: int, h: int, row: int)
    requires
        w >= 0,
        h >= 0,
        0 <= row < h,
    ensures
        row * w + w <= w * h,
        row * w >= 0,
{
    assert(row * w + w <= w * h && row * w >= 0) by (nonlinear_arith)
        requires
            w >= 0,
            h >= 0,
            0 <= row < h,
    ;
}

/// Row-major position of a cell, with its quotient and remainder by the width.
proof fn lemma_raster_index(w: int, h: int, row: int, col: int)
    requires
        0 <= row < h,
        0 <= col < w,
    ensures
        0 <= row * w + col < w * h,
        (row * w + col) % w == col,
        (row * w + col) / w == row,
{
    assert(0 <= row * w + col < w * h) by (nonlinear_arith)
        requires
            0 <= row < h,
            0 <= col < w,
    ;
    vstd::arithmetic::div_mod::lemma_fundamental_div_mod_converse(row * w + col, w, row, col);
}

} // verus!
