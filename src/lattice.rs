//! Piecewise-bilinear warp over a rectangular grid of control points.
use vstd::prelude::*;
use crate::fixed::{UNIT, div_floor};

verus! {

/// A point (or a UV pair) in normalized fixed-point coordinates.
#[derive(Debug, Clone, Copy, PartialEq, Eq, Structural)]
pub struct Point {
    pub u: i32,
    pub v: i32,
}

/// Why a grid of control points was refused.
#[derive(Debug, Clone, Copy, PartialEq, Eq, Structural)]
pub enum LatticeError {
    /// Fewer than two rows or columns, rows of unequal length, or a point
    /// that does not have exactly two components.
    NonRectangularGrid,
}

/// A rectangular grid of `(x_blocks + 1) * (y_blocks + 1)` control points,
/// stored row by row; each point is the source UV that its grid position maps to.
#[derive(Debug)]
pub struct Lattice {
    x_blocks: usize,
    y_blocks: usize,
    points: Vec<Point>,
}

/// The mathematical content of a [`Lattice`].
pub struct LatticeView {
    pub x_blocks: nat,
    pub y_blocks: nat,
    pub points: Seq<Point>,
}

pub open spec fn unit() -> int {
    UNIT as int
}

/// Reduces a coordinate into `[0, UNIT)`, except that exactly `UNIT` stays `UNIT`.
pub open spec fn reduce(c: int) -> int {
    if c == unit() {
        unit()
    } else {
        c % unit()
    }
}

/// Index of the cell that holds the reduced coordinate `r`, on an axis of
/// `blocks` cells; the far edge belongs to the last cell.
pub open spec fn cell(r: int, blocks: int) -> int {
    if (r * blocks) / unit() >= blocks {
        blocks - 1
    } else {
        (r * blocks) / unit()
    }
}

/// Position of `r` inside its cell, from `0` (near edge) to `UNIT` (far edge).
pub open spec fn offset(r: int, blocks: int) -> int {
    r * blocks - cell(r, blocks) * unit()
}

/// Bilinear blend of four corner values with weights `fx`, `fy` in `[0, UNIT]`,
/// rounded down.
pub open spec fn blend(fx: int, fy: int, tl: int, tr: int, bl: int, br: int) -> int {
    ((unit() - fx) * (unit() - fy) * tl + fx * (unit() - fy) * tr + (unit() - fx) * fy * bl
        + fx * fy * br) / (unit() * unit())
}

impl LatticeView {
    pub open spec fn wf(self) -> bool {
        &&& self.x_blocks >= 1
        &&& self.y_blocks >= 1
        &&& self.points.len() == (self.x_blocks + 1) * (self.y_blocks + 1)
    }

    /// The control point in column `col` and row `row`.
    pub open spec fn at(self, col: int, row: int) -> Point {
        self.points[row * (self.x_blocks + 1) + col]
    }

    /// Where the destination point `p` is taken from in source space.
    pub open spec fn warp(self, p: Point) -> Point {
        let ru = reduce(p.u as int);
        let rv = reduce(p.v as int);
        let cx = cell(ru, self.x_blocks as int);
        let cy = cell(rv, self.y_blocks as int);
        let fx = offset(ru, self.x_blocks as int);
        let fy = offset(rv, self.y_blocks as int);
        let tl = self.at(cx, cy);
        let tr = self.at(cx + 1, cy);
        let bl = self.at(cx, cy + 1);
        let br = self.at(cx + 1, cy + 1);
        Point {
            u: blend(fx, fy, tl.u as int, tr.u as int, bl.u as int, br.u as int) as i32,
            v: blend(fx, fy, tl.v as int, tr.v as int, bl.v as int, br.v as int) as i32,
        }
    }

    /// The lattice that maps every point to itself (up to rounding): the
    /// control point in column `i` and row `j` is `(i / x_blocks, j / y_blocks)`.
    pub open spec fn is_identity(self) -> bool {
        &&& self.wf()
        &&& forall|i: int, j: int|
            0 <= i <= self.x_blocks && 0 <= j <= self.y_blocks ==> #[trigger] self.at(i, j)
                == (Point {
                u: (i * unit() / self.x_blocks as int) as i32,
                v: (j * unit() / self.y_blocks as int) as i32,
            })
    }
}

/// A nested sequence is a grid of control points: at least two rows, the first
/// of at least two points, every row as long as the first, every point of two
/// components.
pub open spec fn is_grid(rows: Seq<Vec<Vec<i32>>>) -> bool {
    &&& rows.len() >= 2
    &&& rows[0]@.len() >= 2
    &&& forall|j: int| 0 <= j < rows.len() ==> #[trigger] rows[j]@.len() == rows[0]@.len()
    &&& forall|j: int, i: int|
        0 <= j < rows.len() && 0 <= i < rows[j]@.len() ==> #[trigger] rows[j]@[i]@.len() == 2
}

/// The control point that the grid gives in column `i` of row `j`.
pub open spec fn grid_point(rows: Seq<Vec<Vec<i32>>>, i: int, j: int) -> Point {
    Point { u: rows[j]@[i]@[0], v: rows[j]@[i]@[1] }
}

proof fn lemma_edges(blocks: int)
    requires
        blocks >= 1,
    ensures
        reduce(0) == 0,
        reduce(unit()) == unit(),
        cell(0, blocks) == 0,
        offset(0, blocks) == 0,
        cell(unit(), blocks) == blocks - 1,
        offset(unit(), blocks) == unit(),
{
    vstd::arithmetic::div_mod::lemma_div_multiples_vanish(blocks, unit());
    assert(unit() * blocks - (blocks - 1) * unit() == unit()) by (nonlinear_arith);
}

proof fn lemma_blend_corners(tl: int, tr: int, bl: int, br: int)
    by (nonlinear_arith)
    ensures
        blend(0, 0, tl, tr, bl, br) == tl,
        blend(unit(), 0, tl, tr, bl, br) == tr,
        blend(0, unit(), tl, tr, bl, br) == bl,
        blend(unit(), unit(), tl, tr, bl, br) == br,
{
}

/// Warping a corner of the unit square, `(0, 0)`, `(1, 0)`, `(0, 1)` or
/// `(1, 1)`, gives exactly the control point at that corner of the grid.
pub proof fn warp_hits_corners(lattice: &Lattice)
    requires
        lattice@.wf(),
    ensures
        lattice@.warp(Point { u: 0, v: 0 }) == lattice@.at(0, 0),
        lattice@.warp(Point { u: UNIT as i32, v: 0 }) == lattice@.at(lattice@.x_blocks as int, 0),
        lattice@.warp(Point { u: 0, v: UNIT as i32 }) == lattice@.at(0, lattice@.y_blocks as int),
        lattice@.warp(Point { u: UNIT as i32, v: UNIT as i32 }) == lattice@.at(
            lattice@.x_blocks as int,
            lattice@.y_blocks as int,
        ),
{
    let l = lattice@;
    lemma_edges(l.x_blocks as int);
    lemma_edges(l.y_blocks as int);
    let xb = l.x_blocks as int;
    let yb = l.y_blocks as int;
    let a = l.at(0, 0);
    let b = l.at(xb, 0);
    let c = l.at(0, yb);
    let d = l.at(xb, yb);
    lemma_blend_corners(a.u as int, l.at(1, 0).u as int, l.at(0, 1).u as int, l.at(1, 1).u as int);
    lemma_blend_corners(a.v as int, l.at(1, 0).v as int, l.at(0, 1).v as int, l.at(1, 1).v as int);
    lemma_blend_corners(l.at(xb - 1, 0).u as int, b.u as int, l.at(xb - 1, 1).u as int, l.at(xb, 1).u as int);
    lemma_blend_corners(l.at(xb - 1, 0).v as int, b.v as int, l.at(xb - 1, 1).v as int, l.at(xb, 1).v as int);
    lemma_blend_corners(l.at(0, yb - 1).u as int, l.at(1, yb - 1).u as int, c.u as int, l.at(1, yb).u as int);
    lemma_blend_corners(l.at(0, yb - 1).v as int, l.at(1, yb - 1).v as int, c.v as int, l.at(1, yb).v as int);
    lemma_blend_corners(l.at(xb - 1, yb - 1).u as int, l.at(xb, yb - 1).u as int, l.at(xb - 1, yb).u as int, d.u as int);
    lemma_blend_corners(l.at(xb - 1, yb - 1).v as int, l.at(xb, yb - 1).v as int, l.at(xb - 1, yb).v as int, d.v as int);
}

impl Clone for Lattice {
    fn clone(&self) -> (r: Lattice)
        ensures
            r@ == self@,
    {
        proof {
            use_type_invariant(self);
        }
        let mut points: Vec<Point> = Vec::new();
        let mut k: usize = 0;
        while k < self.points.len()
            invariant
                k <= self.points@.len(),
                points@ == self.points@.subrange(0, k as int),
            decreases self.points@.len() - k,
        {
            points.push(self.points[k]);
            k = k + 1;
            assert(points@ =~= self.points@.subrange(0, k as int));
        }
        assert(points@ =~= self.points@);
        Lattice { x_blocks: self.x_blocks, y_blocks: self.y_blocks, points }
    }
}

proof fn lemma_cell(r: int, blocks: int)
    requires
        0 <= r <= unit(),
        blocks >= 1,
    ensures
        0 <= cell(r, blocks) < blocks,
        0 <= offset(r, blocks) <= unit(),
        r * blocks == cell(r, blocks) * unit() + offset(r, blocks),
{
    let s = r * blocks;
    assert(0 <= s <= unit() * blocks) by (nonlinear_arith)
        requires
            0 <= r <= unit(),
            blocks >= 1,
            s == r * blocks,
    ;
    vstd::arithmetic::div_mod::lemma_fundamental_div_mod(s, unit());
    vstd::arithmetic::div_mod::lemma_mod_pos_bound(s, unit());
    let q = s / unit();
    let u = unit();
    if q >= blocks {
        assert(s - (blocks - 1) * u >= u) by (nonlinear_arith)
            requires
                s == u * q + s % u,
                s % u >= 0,
                q >= blocks,
                u > 0,
        ;
        assert(s - (blocks - 1) * u <= u) by (nonlinear_arith)
            requires
                s <= u * blocks,
        ;
    } else {
        assert(q * u == u * q) by (nonlinear_arith);
    }
}

proof fn lemma_div_cancel(x: int)
    requires
        x >= 0,
    ensures
        (unit() * x) / (unit() * unit()) == x / unit(),
{
    let q = x / unit();
    let m = x % unit();
    let u = unit();
    vstd::arithmetic::div_mod::lemma_fundamental_div_mod(x, u);
    vstd::arithmetic::div_mod::lemma_mod_pos_bound(x, u);
    assert(u * x == q * (u * u) + u * m && 0 <= u * m < u * u) by (nonlinear_arith)
        requires
            x == u * q + m,
            0 <= m < u,
    ;
    vstd::arithmetic::div_mod::lemma_fundamental_div_mod_converse(
        unit() * x,
        unit() * unit(),
        q,
        unit() * m,
    );
}

proof fn lemma_ring(s: int, fx: int, fy: int, near: int, far: int)
    ensures
        (s - fx) * (s - fy) * near + fx * (s - fy) * far + (s - fx) * fy * near + fx * fy * far == s * ((s
            - fx) * near + fx * far),
{
    let a = s - fx;
    let b = s - fy;
    assert(a * b * near + a * fy * near == (a * near) * (b + fy)) by (nonlinear_arith);
    assert(fx * b * far + fx * fy * far == (fx * far) * (b + fy)) by (nonlinear_arith);
    assert((a * near) * s + (fx * far) * s == s * (a * near + fx * far)) by (nonlinear_arith);
}

/// Bounds of the blend `x = a * near + b * far` (with `a + b = s`) of two control
/// points that each lie within one step below `c * s / xb` and `(c + 1) * s / xb`.
proof fn lemma_interpolant(s: int, xb: int, c: int, a: int, b: int, near: int, far: int, x: int)
    requires
        s > 0,
        xb >= 1,
        a >= 0,
        b >= 0,
        a + b == s,
        c * s - xb < xb * near <= c * s,
        (c + 1) * s - xb < xb * far <= (c + 1) * s,
        x == a * near + b * far,
    ensures
        xb * x <= s * (c * s + b),
        xb * x > s * (c * s + b) - s * xb,
{
    let q0 = xb * near;
    let q1 = xb * far;
    assert(xb * x == a * q0 + b * q1) by (nonlinear_arith)
        requires
            x == a * near + b * far,
            q0 == xb * near,
            q1 == xb * far,
    ;
    assert(a * q0 <= a * (c * s)) by (nonlinear_arith)
        requires
            q0 <= c * s,
            a >= 0,
    ;
    assert(b * q1 <= b * ((c + 1) * s)) by (nonlinear_arith)
        requires
            q1 <= (c + 1) * s,
            b >= 0,
    ;
    assert(a * q0 >= a * (c * s - xb + 1)) by (nonlinear_arith)
        requires
            q0 >= c * s - xb + 1,
            a >= 0,
    ;
    assert(b * q1 >= b * ((c + 1) * s - xb + 1)) by (nonlinear_arith)
        requires
            q1 >= (c + 1) * s - xb + 1,
            b >= 0,
    ;
    assert(a * (c * s) + b * ((c + 1) * s) == s * (c * s + b)) by (nonlinear_arith)
        requires
            a == s - b,
    ;
    assert(a * (c * s - xb + 1) + b * ((c + 1) * s - xb + 1) == s * (c * s + b) - s * xb + s)
        by (nonlinear_arith)
        requires
            a == s - b,
    ;
}

proof fn lemma_identity_axis(r: int, xb: int, cx: int, fx: int, fy: int, near: int, far: int)
    requires
        0 <= r <= unit(),
        xb >= 1,
        0 <= cx < xb,
        0 <= fx <= unit(),
        0 <= fy <= unit(),
        r * xb == cx * unit() + fx,
        cx * unit() - xb < xb * near <= cx * unit(),
        (cx + 1) * unit() - xb < xb * far <= (cx + 1) * unit(),
        near >= 0,
        far >= 0,
    ensures
        r - 1 <= blend(fx, fy, near, far, near, far) <= r,
{
    let s = unit();
    let x = (s - fx) * near + fx * far;
    assert(x >= 0) by (nonlinear_arith)
        requires
            x == (s - fx) * near + fx * far,
            0 <= fx <= s,
            near >= 0,
            far >= 0,
    ;
    lemma_ring(s, fx, fy, near, far);
    lemma_div_cancel(x);
    lemma_interpolant(s, xb, cx, s - fx, fx, near, far, x);
    let t = s * (r * xb);
    assert(xb * x <= t && xb * x > t - s * xb);
    assert(t == xb * (s * r)) by (nonlinear_arith)
        requires
            t == s * (r * xb),
    ;
    assert(s * xb == xb * s) by (nonlinear_arith);
    assert(x <= s * r) by (nonlinear_arith)
        requires
            xb * x <= xb * (s * r),
            xb >= 1,
    ;
    assert(x > s * r - s) by (nonlinear_arith)
        requires
            xb * x > xb * (s * r) - xb * s,
            xb >= 1,
    ;
    vstd::arithmetic::div_mod::lemma_fundamental_div_mod(x, s);
}

proof fn lemma_grid_coord(k: int, blocks: int)
    requires
        0 <= k <= blocks,
        blocks >= 1,
    ensures
        k * unit() - blocks < blocks * (k * unit() / blocks) <= k * unit(),
        0 <= k * unit() / blocks <= unit(),
{
    let u = unit();
    let n = k * u;
    assert(0 <= n <= blocks * u) by (nonlinear_arith)
        requires
            0 <= k <= blocks,
            u > 0,
            n == k * u,
    ;
    vstd::arithmetic::div_mod::lemma_fundamental_div_mod(n, blocks);
    vstd::arithmetic::div_mod::lemma_mod_pos_bound(n, blocks);
    let q = n / blocks;
    assert(blocks * q <= n < blocks * q + blocks);
    assert(0 <= q <= u) by (nonlinear_arith)
        requires
            blocks * q <= n,
            n <= blocks * u,
            n >= 0,
            blocks >= 1,
            n < blocks * q + blocks,
    ;
}

/// On an identity lattice each coordinate of a point of the unit square is
/// warped to a blend of the two grid coordinates around it.
proof fn lemma_identity_cell(lattice: &Lattice, p: Point)
    requires
        lattice@.is_identity(),
        0 <= p.u <= UNIT,
        0 <= p.v <= UNIT,
    ensures
        ({
            let xb = lattice@.x_blocks as int;
            let yb = lattice@.y_blocks as int;
            let cx = cell(p.u as int, xb);
            let cy = cell(p.v as int, yb);
            let fx = offset(p.u as int, xb);
            let fy = offset(p.v as int, yb);
            let u0 = cx * unit() / xb;
            let u1 = (cx + 1) * unit() / xb;
            let v0 = cy * unit() / yb;
            let v1 = (cy + 1) * unit() / yb;
            &&& 0 <= cx < xb
            &&& 0 <= cy < yb
            &&& 0 <= fx <= unit()
            &&& 0 <= fy <= unit()
            &&& p.u * xb == cx * unit() + fx
            &&& p.v * yb == cy * unit() + fy
            &&& lattice@.warp(p).u == blend(fx, fy, u0, u1, u0, u1) as i32
            &&& lattice@.warp(p).v == blend(fy, fx, v0, v1, v0, v1) as i32
        }),
{
    let l = lattice@;
    let xb = l.x_blocks as int;
    let yb = l.y_blocks as int;
    let ru = reduce(p.u as int);
    let rv = reduce(p.v as int);
    assert(ru == p.u);
    assert(rv == p.v);
    lemma_cell(ru, xb);
    lemma_cell(rv, yb);
    let cx = cell(ru, xb);
    let cy = cell(rv, yb);
    let fx = offset(ru, xb);
    let fy = offset(rv, yb);
    lemma_grid_coord(cx, xb);
    lemma_grid_coord(cx + 1, xb);
    lemma_grid_coord(cy, yb);
    lemma_grid_coord(cy + 1, yb);
    let u0 = cx * unit() / xb;
    let u1 = (cx + 1) * unit() / xb;
    let v0 = cy * unit() / yb;
    let v1 = (cy + 1) * unit() / yb;
    let tl = l.at(cx, cy);
    let tr = l.at(cx + 1, cy);
    let bl = l.at(cx, cy + 1);
    let br = l.at(cx + 1, cy + 1);
    assert(tl.u == u0 && tr.u == u1 && bl.u == u0 && br.u == u1);
    assert(tl.v == v0 && tr.v == v0 && bl.v == v1 && br.v == v1);
    let n1 = (unit() - fx) * (unit() - fy) * v0 + fx * (unit() - fy) * v0 + (unit() - fx) * fy * v1
        + fx * fy * v1;
    let n2 = (unit() - fy) * (unit() - fx) * v0 + fy * (unit() - fx) * v1 + (unit() - fy) * fx * v0
        + fy * fx * v1;
    assert(n1 == n2) by (nonlinear_arith)
        requires
            n1 == (unit() - fx) * (unit() - fy) * v0 + fx * (unit() - fy) * v0 + (unit() - fx) * fy
                * v1 + fx * fy * v1,
            n2 == (unit() - fy) * (unit() - fx) * v0 + fy * (unit() - fx) * v1 + (unit() - fy) * fx
                * v0 + fy * fx * v1,
    ;
    assert(blend(fx, fy, v0, v0, v1, v1) == blend(fy, fx, v0, v1, v0, v1));
}

/// On an identity lattice every point of the unit square is mapped to itself,
/// up to one fixed-point step of rounding down.
pub proof fn identity_warp_is_near_identity(lattice: &Lattice, p: Point)
    requires
        lattice@.is_identity(),
        0 <= p.u <= UNIT,
        0 <= p.v <= UNIT,
    ensures
        p.u - 1 <= lattice@.warp(p).u <= p.u,
        p.v - 1 <= lattice@.warp(p).v <= p.v,
{
    let xb = lattice@.x_blocks as int;
    let yb = lattice@.y_blocks as int;
    lemma_identity_cell(lattice, p);
    let cx = cell(p.u as int, xb);
    let cy = cell(p.v as int, yb);
    lemma_grid_coord(cx, xb);
    lemma_grid_coord(cx + 1, xb);
    lemma_grid_coord(cy, yb);
    lemma_grid_coord(cy + 1, yb);
    let fx = offset(p.u as int, xb);
    let fy = offset(p.v as int, yb);
    lemma_identity_axis(p.u as int, xb, cx, fx, fy, cx * unit() / xb, (cx + 1) * unit() / xb);
    lemma_identity_axis(p.v as int, yb, cy, fy, fx, cy * unit() / yb, (cy + 1) * unit() / yb);
}

proof fn lemma_exact_axis(r: int, xb: int, cx: int, fx: int, fy: int, near: int, far: int)
    requires
        0 <= r <= unit(),
        xb >= 1,
        0 <= fx <= unit(),
        r * xb == cx * unit() + fx,
        xb * near == cx * unit(),
        xb * far == (cx + 1) * unit(),
        near >= 0,
        far >= 0,
    ensures
        blend(fx, fy, near, far, near, far) == r,
{
    let s = unit();
    let x = (s - fx) * near + fx * far;
    assert(x >= 0) by (nonlinear_arith)
        requires
            x == (s - fx) * near + fx * far,
            0 <= fx <= s,
            near >= 0,
            far >= 0,
    ;
    lemma_ring(s, fx, fy, near, far);
    lemma_div_cancel(x);
    assert(xb * x == (s - fx) * (xb * near) + fx * (xb * far)) by (nonlinear_arith)
        requires
            x == (s - fx) * near + fx * far,
    ;
    assert((s - fx) * (cx * s) + fx * ((cx + 1) * s) == s * (cx * s + fx)) by (nonlinear_arith);
    assert(xb * x == xb * (s * r)) by (nonlinear_arith)
        requires
            xb * x == s * (cx * s + fx),
            r * xb == cx * s + fx,
    ;
    assert(x == s * r) by (nonlinear_arith)
        requires
            xb * x == xb * (s * r),
            xb >= 1,
    ;
    vstd::arithmetic::div_mod::lemma_div_multiples_vanish(r, s);
}

proof fn lemma_grid_coord_exact(k: int, blocks: int)
    requires
        0 <= k <= blocks,
        blocks >= 1,
        unit() % blocks == 0,
    ensures
        blocks * (k * unit() / blocks) == k * unit(),
{
    let u = unit();
    vstd::arithmetic::div_mod::lemma_fundamental_div_mod(u, blocks);
    let q = u / blocks;
    assert(k * u == blocks * (k * q)) by (nonlinear_arith)
        requires
            u == blocks * q,
    ;
    vstd::arithmetic::div_mod::lemma_div_multiples_vanish(k * q, blocks);
}

/// On an identity lattice whose block counts divide `UNIT`, every point of the
/// unit square is mapped exactly to itself.
pub proof fn identity_warp_is_exact(lattice: &Lattice, p: Point)
    requires
        lattice@.is_identity(),
        unit() % (lattice@.x_blocks as int) == 0,
        unit() % (lattice@.y_blocks as int) == 0,
        0 <= p.u <= UNIT,
        0 <= p.v <= UNIT,
    ensures
        lattice@.warp(p) == p,
{
    let xb = lattice@.x_blocks as int;
    let yb = lattice@.y_blocks as int;
    lemma_identity_cell(lattice, p);
    let cx = cell(p.u as int, xb);
    let cy = cell(p.v as int, yb);
    lemma_grid_coord(cx, xb);
    lemma_grid_coord(cx + 1, xb);
    lemma_grid_coord(cy, yb);
    lemma_grid_coord(cy + 1, yb);
    lemma_grid_coord_exact(cx, xb);
    lemma_grid_coord_exact(cx + 1, xb);
    lemma_grid_coord_exact(cy, yb);
    lemma_grid_coord_exact(cy + 1, yb);
    let fx = offset(p.u as int, xb);
    let fy = offset(p.v as int, yb);
    lemma_exact_axis(p.u as int, xb, cx, fx, fy, cx * unit() / xb, (cx + 1) * unit() / xb);
    lemma_exact_axis(p.v as int, yb, cy, fy, fx, cy * unit() / yb, (cy + 1) * unit() / yb);
}

impl View for Lattice {
    type V = LatticeView;

    closed spec fn view(&self) -> LatticeView {
        LatticeView {
            x_blocks: self.x_blocks as nat,
            y_blocks: self.y_blocks as nat,
            points: self.points@,
        }
    }
}

pub(crate) proof fn lemma_row_index(col: int, row: int, width: int, height: int)
    by (nonlinear_arith)
    requires
        0 <= col < width,
        0 <= row < height,
    ensures
        0 <= row * width + col < width * height,
        row * width + col < (row + 1) * width,
        (row + 1) * width == row * width + width,
{
}

proof fn lemma_earlier_row(col: int, row: int, cur: int, width: int)
    by (nonlinear_arith)
    requires
        0 <= col < width,
        0 <= row < cur,
    ensures
        row * width + col < cur * width,
{
}

proof fn lemma_term(w1: int, w2: int, p: int)
    by (nonlinear_arith)
    requires
        0 <= w1 <= unit(),
        0 <= w2 <= unit(),
        i32::MIN <= p <= i32::MAX,
    ensures
        0 <= w1 * w2 <= unit() * unit(),
        i32::MIN * (w1 * w2) <= (w1 * w2) * p <= i32::MAX * (w1 * w2),
{
}

proof fn lemma_weights_sum(fx: int, fy: int)
    by (nonlinear_arith)
    ensures
        (unit() - fx) * (unit() - fy) + fx * (unit() - fy) + (unit() - fx) * fy + fx * fy
            == unit() * unit(),
{
}

/// The blend of four `i32` values, computed exactly.
fn blend_exec(fx: i128, fy: i128, tl: i32, tr: i32, bl: i32, br: i32) -> (r: i32)
    requires
        0 <= fx <= UNIT,
        0 <= fy <= UNIT,
    ensures
        r as int == blend(fx as int, fy as int, tl as int, tr as int, bl as int, br as int),
{
    let one: i128 = UNIT as i128;
    proof {
        lemma_term(unit() - fx, unit() - fy, tl as int);
        lemma_term(fx as int, unit() - fy, tr as int);
        lemma_term(unit() - fx, fy as int, bl as int);
        lemma_term(fx as int, fy as int, br as int);
        lemma_weights_sum(fx as int, fy as int);
    }
    let n: i128 = (one - fx) * (one - fy) * (tl as i128) + fx * (one - fy) * (tr as i128) + (one
        - fx) * fy * (bl as i128) + fx * fy * (br as i128);
    let q = div_floor(n, one * one);
    q as i32
}

/// Reduces `c` as [`reduce`] does.
fn reduce_exec(c: i32) -> (r: i64)
    ensures
        r as int == reduce(c as int),
        0 <= r <= UNIT,
{
    if c as i64 == UNIT {
        UNIT
    } else {
        let shifted: u64 = (c as i64 + 2147483648) as u64;
        assert(shifted as int == c as int + 32768 * unit());
        ((shifted % 65536) as i64)
    }
}

/// Cell index and in-cell offset of a reduced coordinate.
fn locate(r: i64, blocks: usize) -> (res: (usize, i128))
    requires
        0 <= r <= UNIT,
        blocks >= 1,
    ensures
        res.0 as int == cell(r as int, blocks as int),
        res.1 as int == offset(r as int, blocks as int),
        0 <= res.0 < blocks,
        0 <= res.1 <= UNIT,
{
    proof {
        assert(r * blocks <= unit() * usize::MAX) by (nonlinear_arith)
            requires
                0 <= r <= unit(),
                blocks <= usize::MAX,
        ;
    }
    let scaled: u128 = r as u128 * blocks as u128;
    proof {
        assert(scaled <= unit() * blocks) by (nonlinear_arith)
            requires
                scaled == r * blocks,
                r <= unit(),
                blocks >= 1,
        ;
    }
    let c: u128 = scaled / 65536;
    let idx: usize = if c >= blocks as u128 {
        blocks - 1
    } else {
        c as usize
    };
    let off: i128 = scaled as i128 - (idx as i128) * 65536;
    (idx, off)
}

impl Lattice {
    #[verifier::type_invariant]
    spec fn inv(self) -> bool {
        self@.wf()
    }

    /// The identity lattice of `x_blocks` by `y_blocks` cells, spanning `[0, 1]`
    /// in both axes.
    pub fn new(x_blocks: usize, y_blocks: usize) -> (r: Lattice)
        requires
            x_blocks >= 1,
            y_blocks >= 1,
            x_blocks < usize::MAX,
            y_blocks < usize::MAX,
        ensures
            r@.x_blocks == x_blocks,
            r@.y_blocks == y_blocks,
            r@.is_identity(),
    {
        let width: usize = x_blocks + 1;
        let mut points: Vec<Point> = Vec::new();
        let mut j: usize = 0;
        while j <= y_blocks
            invariant
                width == x_blocks + 1,
                x_blocks >= 1,
                y_blocks >= 1,
                y_blocks < usize::MAX,
                j <= y_blocks + 1,
                points@.len() == j * width,
                forall|jj: int, ii: int|
                    0 <= jj < j && 0 <= ii < width ==> #[trigger] points@[jj * width + ii] == (Point {
                        u: (ii * unit() / x_blocks as int) as i32,
                        v: (jj * unit() / y_blocks as int) as i32,
                    }),
            decreases y_blocks + 1 - j,
        {
            let v: i32 = Self::grid_coord(j, y_blocks);
            let mut i: usize = 0;
            while i <= x_blocks
                invariant
                    width == x_blocks + 1,
                    x_blocks >= 1,
                    j <= y_blocks,
                    i <= width,
                    v as int == j * unit() / y_blocks as int,
                    points@.len() == j * width + i,
                    forall|jj: int, ii: int|
                        0 <= jj < j && 0 <= ii < width ==> #[trigger] points@[jj * width + ii]
                            == (Point {
                            u: (ii * unit() / x_blocks as int) as i32,
                            v: (jj * unit() / y_blocks as int) as i32,
                        }),
                    forall|ii: int|
                        0 <= ii < i ==> #[trigger] points@[j * width + ii] == (Point {
                            u: (ii * unit() / x_blocks as int) as i32,
                            v: (j * unit() / y_blocks as int) as i32,
                        }),
                decreases width - i,
            {
                let u: i32 = Self::grid_coord(i, x_blocks);
                let ghost before = points@;
                points.push(Point { u, v });
                proof {
                    assert forall|jj: int, ii: int| 0 <= jj < j && 0 <= ii < width implies #[trigger]
                        points@[jj * width + ii] == before[jj * width + ii] by {
                        lemma_earlier_row(ii, jj, j as int, width as int);
                    }
                }
                i = i + 1;
            }
            proof {
                lemma_row_index(0, j as int, width as int, j as int + 1);
                assert forall|jj: int, ii: int|
                    0 <= jj < j + 1 && 0 <= ii < width implies #[trigger] points@[jj * width + ii]
                        == (Point {
                        u: (ii * unit() / x_blocks as int) as i32,
                        v: (jj * unit() / y_blocks as int) as i32,
                    }) by {
                    if jj == j {
                    }
                }
            }
            j = j + 1;
        }
        assert(j * width == width * (y_blocks + 1)) by (nonlinear_arith)
            requires
                j == y_blocks + 1,
        ;
        let r = Lattice { x_blocks, y_blocks, points };
        proof {
            assert forall|i: int, j: int|
                0 <= i <= r@.x_blocks && 0 <= j <= r@.y_blocks implies #[trigger] r@.at(i, j)
                    == (Point {
                    u: (i * unit() / r@.x_blocks as int) as i32,
                    v: (j * unit() / r@.y_blocks as int) as i32,
                }) by {
                assert(points@[j * width + i] == r@.at(i, j));
            }
        }
        r
    }

    /// A lattice whose control points are those of `rows`, row by row.
    pub fn from_grid(rows: &Vec<Vec<Vec<i32>>>) -> (r: Result<Lattice, LatticeError>)
        ensures
            match r {
                Ok(l) => {
                    &&& is_grid(rows@)
                    &&& l@.wf()
                    &&& l@.x_blocks == rows@[0]@.len() - 1
                    &&& l@.y_blocks == rows@.len() - 1
                    &&& forall|i: int, j: int|
                        0 <= i <= l@.x_blocks && 0 <= j <= l@.y_blocks ==> #[trigger] l@.at(i, j)
                            == grid_point(rows@, i, j)
                },
                Err(e) => !is_grid(rows@) && e == LatticeError::NonRectangularGrid,
            },
    {
        let height = rows.len();
        if height < 2 {
            return Err(LatticeError::NonRectangularGrid);
        }
        let width = rows[0].len();
        if width < 2 {
            return Err(LatticeError::NonRectangularGrid);
        }
        let mut points: Vec<Point> = Vec::new();
        let mut j: usize = 0;
        while j < height
            invariant
                height == rows@.len(),
                height >= 2,
                width == rows@[0]@.len(),
                width >= 2,
                j <= height,
                points@.len() == j * width,
                forall|jj: int| 0 <= jj < j ==> #[trigger] rows@[jj]@.len() == width,
                forall|jj: int, ii: int|
                    0 <= jj < j && 0 <= ii < width ==> #[trigger] rows@[jj]@[ii]@.len() == 2,
                forall|jj: int, ii: int|
                    0 <= jj < j && 0 <= ii < width ==> #[trigger] points@[jj * width + ii]
                        == grid_point(rows@, ii, jj),
            decreases height - j,
        {
            let row = &rows[j];
            if row.len() != width {
                return Err(LatticeError::NonRectangularGrid);
            }
            let mut i: usize = 0;
            while i < width
                invariant
                    height == rows@.len(),
                    width == rows@[0]@.len(),
                    j < height,
                    row@ == rows@[j as int]@,
                    row@.len() == width,
                    i <= width,
                    points@.len() == j * width + i,
                    forall|jj: int, ii: int|
                        0 <= jj < j && 0 <= ii < width ==> #[trigger] rows@[jj]@[ii]@.len() == 2,
                    forall|ii: int| 0 <= ii < i ==> #[trigger] rows@[j as int]@[ii]@.len() == 2,
                    forall|jj: int, ii: int|
                        0 <= jj < j && 0 <= ii < width ==> #[trigger] points@[jj * width + ii]
                            == grid_point(rows@, ii, jj),
                    forall|ii: int|
                        0 <= ii < i ==> #[trigger] points@[j * width + ii] == grid_point(
                            rows@,
                            ii,
                            j as int,
                        ),
                decreases width - i,
            {
                let pt = &row[i];
                if pt.len() != 2 {
                    return Err(LatticeError::NonRectangularGrid);
                }
                let ghost before = points@;
                points.push(Point { u: pt[0], v: pt[1] });
                proof {
                    assert forall|jj: int, ii: int| 0 <= jj < j && 0 <= ii < width implies #[trigger]
                        points@[jj * width + ii] == before[jj * width + ii] by {
                        lemma_earlier_row(ii, jj, j as int, width as int);
                    }
                }
                i = i + 1;
            }
            proof {
                lemma_row_index(0, j as int, width as int, j as int + 1);
                assert forall|jj: int, ii: int|
                    0 <= jj < j + 1 && 0 <= ii < width implies #[trigger] points@[jj * width + ii]
                        == grid_point(rows@, ii, jj) by {
                    if jj == j {
                    }
                }
                assert forall|jj: int, ii: int|
                    0 <= jj < j + 1 && 0 <= ii < width implies #[trigger] rows@[jj]@[ii]@.len()
                        == 2 by {
                    if jj == j {
                    }
                }
            }
            j = j + 1;
        }
        assert(j * width == width * height) by (nonlinear_arith)
            requires
                j == height,
        ;
        let r = Lattice { x_blocks: width - 1, y_blocks: height - 1, points };
        proof {
            assert forall|i: int, j: int|
                0 <= i <= r@.x_blocks && 0 <= j <= r@.y_blocks implies #[trigger] r@.at(i, j)
                    == grid_point(rows@, i, j) by {
                assert(points@[j * width + i] == r@.at(i, j));
            }
        }
        Ok(r)
    }

    /// `k / blocks` as a fixed-point coordinate, for `k <= blocks`.
    fn grid_coord(k: usize, blocks: usize) -> (r: i32)
        requires
            k <= blocks,
            blocks >= 1,
        ensures
            r as int == k * unit() / blocks as int,
            0 <= r <= UNIT,
    {
        let n: u128 = k as u128 * 65536;
        let q: u128 = n / blocks as u128;
        proof {
            assert(q <= unit()) by (nonlinear_arith)
                requires
                    n == k * unit(),
                    q == n as int / blocks as int,
                    k <= blocks,
                    blocks >= 1,
            ;
        }
        q as i32
    }

    /// Number of cells across.
    pub fn x_blocks(&self) -> (r: usize)
        ensures
            r == self@.x_blocks,
    {
        self.x_blocks
    }

    /// Number of cells down.
    pub fn y_blocks(&self) -> (r: usize)
        ensures
            r == self@.y_blocks,
    {
        self.y_blocks
    }

    /// The control point in column `col` and row `row`.
    pub fn control_point(&self, col: usize, row: usize) -> (r: Point)
        requires
            col <= self@.x_blocks,
            row <= self@.y_blocks,
        ensures
            r == self@.at(col as int, row as int),
    {
        proof {
            use_type_invariant(self);
            lemma_row_index(col as int, row as int, self.x_blocks + 1, self.y_blocks + 1);
        }
        let len = self.points.len();
        proof {
            assert(self.x_blocks + 1 <= len) by (nonlinear_arith)
                requires
                    len == (self.x_blocks + 1) * (self.y_blocks + 1),
                    self.y_blocks >= 1,
            ;
        }
        self.points[row * (self.x_blocks + 1) + col]
    }

    /// Maps the destination point `uv` to the source point it is taken from:
    /// each coordinate is reduced into `[0, 1]`, the enclosing cell is found
    /// and its four control points are blended bilinearly.
    pub fn warp_bilinear(&self, uv: Point) -> (r: Point)
        ensures
            r == self@.warp(uv),
    {
        proof {
            use_type_invariant(self);
        }
        let len = self.points.len();
        proof {
            assert(self.x_blocks + 1 <= len) by (nonlinear_arith)
                requires
                    len == (self.x_blocks + 1) * (self.y_blocks + 1),
                    self.y_blocks >= 1,
            ;
        }
        let ru = reduce_exec(uv.u);
        let rv = reduce_exec(uv.v);
        let (cx, fx) = locate(ru, self.x_blocks);
        let (cy, fy) = locate(rv, self.y_blocks);
        let width: usize = self.x_blocks + 1;
        proof {
            lemma_row_index(cx + 1, cy + 1, width as int, self.y_blocks + 1);
            lemma_row_index(cx + 1, cy as int, width as int, self.y_blocks + 1);
        }
        let top: usize = cy * width + cx;
        let bottom: usize = top + width;
        let tl = self.points[top];
        let tr = self.points[top + 1];
        let bl = self.points[bottom];
        let br = self.points[bottom + 1];
        let u = blend_exec(fx, fy, tl.u, tr.u, bl.u, br.u);
        let v = blend_exec(fx, fy, tl.v, tr.v, bl.v, br.v);
        Point { u, v }
    }
}

} // verus!
