use vstd::arithmetic::div_mod::{lemma_div_by_multiple, lemma_div_is_ordered, lemma_div_pos_is_pos};
use vstd::prelude::*;

verus! {

/// Sub-pixel resolution of screen coordinates: one pixel spans this many units.
pub const SUBPIXEL: i64 = 256;

/// Largest magnitude allowed for a fixed-point coordinate or depth.
pub const COORD_MAX: i64 = 268435456;

/// Largest pixel coordinate that can be sampled against a triangle.
pub const PIXEL_MAX: usize = 32768;

/// A screen-space position: `x`, `y` in `SUBPIXEL` units, `z` a fixed-point depth.
#[derive(Clone, Copy, Debug, PartialEq, Eq, Structural)]
pub struct Point {
    pub x: i64,
    pub y: i64,
    pub z: i64,
}

/// An RGB colour with channels in `0..=255`.
#[derive(Clone, Copy, Debug, PartialEq, Eq, Structural)]
pub struct Color {
    pub r: u8,
    pub g: u8,
    pub b: u8,
}

impl Point {
    pub open spec fn in_range(self) -> bool {
        -COORD_MAX <= self.x <= COORD_MAX && -COORD_MAX <= self.y <= COORD_MAX && -COORD_MAX
            <= self.z <= COORD_MAX
    }

    pub fn new(x: i64, y: i64, z: i64) -> (r: Point)
        ensures
            r == (Point { x, y, z }),
    {
        Point { x, y, z }
    }
}

impl Color {
    pub fn new(r: u8, g: u8, b: u8) -> (c: Color)
        ensures
            c == (Color { r, g, b }),
    {
        Color { r, g, b }
    }

    pub fn black() -> (c: Color)
        ensures
            c == (Color { r: 0, g: 0, b: 0 }),
    {
        Color { r: 0, g: 0, b: 0 }
    }
}

/// Twice the signed area of the triangle `(a, b, p)` in the xy plane: the z
/// component of `(b - a) x (p - a)`.
pub open spec fn edge(ax: int, ay: int, bx: int, by: int, px: int, py: int) -> int {
    (bx - ax) * (py - ay) - (by - ay) * (px - ax)
}


/// Whether `p` lies strictly inside the triangle `(a, b, c)`: the three edge
/// functions are all strictly positive (counter-clockwise winding) or all
/// strictly negative (clockwise). Points on an edge are outside.
pub open spec fn inside(a: Point, b: Point, c: Point, px: int, py: int) -> bool {
    let i = edge(a.x as int, a.y as int, b.x as int, b.y as int, px, py);
    let j = edge(b.x as int, b.y as int, c.x as int, c.y as int, px, py);
    let k = edge(c.x as int, c.y as int, a.x as int, a.y as int, px, py);
    (i > 0 && j > 0 && k > 0) || (i < 0 && j < 0 && k < 0)
}

/// `n / d` rounded toward zero, for a positive `d`.
pub open spec fn div_toward_zero(n: int, d: int) -> int {
    if n >= 0 {
        n / d
    } else {
        -((-n) / d)
    }
}

/// Barycentric weights of a point as exact rationals over a common
/// denominator: the weights are `alpha / area`, `beta / area`, `gamma / area`,
/// where `area` is twice the signed area of the triangle.
#[derive(Clone, Copy, Debug, PartialEq, Eq, Structural)]
pub struct Barycentric {
    pub alpha: i64,
    pub beta: i64,
    pub gamma: i64,
    pub area: i64,
}

/// One screen-space primitive: three projected vertices and their attributes.
#[derive(Clone, Copy, Debug)]
pub struct Triangle {
    pub v: [Point; 3],
    pub color: [Color; 3],
    pub tex_coords: [(i64, i64); 3],
    pub normal: [Point; 3],
}

impl Triangle {
    /// Every vertex position lies within `COORD_MAX`.
    pub open spec fn wf(&self) -> bool {
        self.v[0].in_range() && self.v[1].in_range() && self.v[2].in_range()
    }

    pub open spec fn alpha_at(&self, px: int, py: int) -> int {
        edge(self.v[1].x as int, self.v[1].y as int, self.v[2].x as int, self.v[2].y as int, px, py)
    }

    pub open spec fn beta_at(&self, px: int, py: int) -> int {
        edge(self.v[2].x as int, self.v[2].y as int, self.v[0].x as int, self.v[0].y as int, px, py)
    }

    pub open spec fn gamma_at(&self, px: int, py: int) -> int {
        edge(self.v[0].x as int, self.v[0].y as int, self.v[1].x as int, self.v[1].y as int, px, py)
    }

    /// Twice the signed area of the triangle.
    pub open spec fn area(&self) -> int {
        self.gamma_at(self.v[2].x as int, self.v[2].y as int)
    }

    pub open spec fn inside_at(&self, px: int, py: int) -> bool {
        inside(self.v[0], self.v[1], self.v[2], px, py)
    }

    /// Sum of the vertex depths weighted by the barycentric numerators of `p`.
    pub open spec fn depth_numerator(&self, px: int, py: int) -> int {
        self.alpha_at(px, py) * self.v[0].z + self.beta_at(px, py) * self.v[1].z + self.gamma_at(
            px,
            py,
        ) * self.v[2].z
    }

    /// Depth at `p` interpolated from the vertex depths by the barycentric
    /// weights, rounded toward zero.
    pub open spec fn depth_at(&self, px: int, py: int) -> int {
        let n = self.depth_numerator(px, py);
        let d = self.area();
        if d >= 0 {
            div_toward_zero(n, d)
        } else {
            div_toward_zero(-n, -d)
        }
    }

    pub fn new() -> (t: Triangle)
        ensures
            t.wf(),
            forall|i: int|
                0 <= i < 3 ==> {
                    &&& t.v[i] == (Point { x: 0, y: 0, z: 0 })
                    &&& t.color[i] == (Color { r: 0, g: 0, b: 0 })
                    &&& t.tex_coords[i] == (0i64, 0i64)
                    &&& t.normal[i] == (Point { x: 0, y: 0, z: 0 })
                },
    {
        let o = Point { x: 0, y: 0, z: 0 };
        let k = Color { r: 0, g: 0, b: 0 };
        Triangle { v: [o, o, o], color: [k, k, k], tex_coords: [(0, 0), (0, 0), (0, 0)], normal: [o, o, o] }
    }

    pub fn a(&self) -> (p: Point)
        ensures
            p == self.v[0],
    {
        self.v[0]
    }

    pub fn b(&self) -> (p: Point)
        ensures
            p == self.v[1],
    {
        self.v[1]
    }

    pub fn c(&self) -> (p: Point)
        ensures
            p == self.v[2],
    {
        self.v[2]
    }

    pub fn set_vertex(&mut self, idx: usize, ver: Point)
        requires
            idx < 3,
        ensures
            final(self).v@ == old(self).v@.update(idx as int, ver),
            final(self).color == old(self).color,
            final(self).tex_coords == old(self).tex_coords,
            final(self).normal == old(self).normal,
    {
        self.v[idx] = ver;
    }

    pub fn set_normal(&mut self, idx: usize, n: Point)
        requires
            idx < 3,
        ensures
            final(self).normal@ == old(self).normal@.update(idx as int, n),
            final(self).v == old(self).v,
            final(self).color == old(self).color,
            final(self).tex_coords == old(self).tex_coords,
    {
        self.normal[idx] = n;
    }

    pub fn set_color(&mut self, idx: usize, r: u8, g: u8, b: u8)
        requires
            idx < 3,
        ensures
            final(self).color@ == old(self).color@.update(idx as int, Color { r, g, b }),
            final(self).v == old(self).v,
            final(self).tex_coords == old(self).tex_coords,
            final(self).normal == old(self).normal,
    {
        self.color[idx] = Color { r, g, b };
    }

    pub fn set_texcoord(&mut self, idx: usize, s: i64, t: i64)
        requires
            idx < 3,
        ensures
            final(self).tex_coords@ == old(self).tex_coords@.update(idx as int, (s, t)),
            final(self).v == old(self).v,
            final(self).color == old(self).color,
            final(self).normal == old(self).normal,
    {
        self.tex_coords[idx] = (s, t);
    }

    /// The colour the whole triangle is filled with: that of its first vertex.
    pub fn get_color(&self) -> (c: &Color)
        ensures
            *c == self.color[0],
    {
        &self.color[0]
    }

    /// Whether the pixel `(x, y)` lies strictly inside the triangle.
    pub fn is_inside(&self, x: usize, y: usize) -> (r: bool)
        requires
            self.wf(),
            x <= PIXEL_MAX,
            y <= PIXEL_MAX,
        ensures
            r == self.inside_at(x * SUBPIXEL, y * SUBPIXEL),
    {
        let px = x as i64 * SUBPIXEL;
        let py = y as i64 * SUBPIXEL;
        let v = &self.v;
        let i = edge_value(v[0].x, v[0].y, v[1].x, v[1].y, px, py);
        let j = edge_value(v[1].x, v[1].y, v[2].x, v[2].y, px, py);
        let k = edge_value(v[2].x, v[2].y, v[0].x, v[0].y, px, py);
        (i > 0 && j > 0 && k > 0) || (i < 0 && j < 0 && k < 0)
    }

    /// Barycentric weights of the pixel `(x, y)` with respect to the
    /// triangle's screen positions.
    pub fn compute_barycentric_2d(&self, x: usize, y: usize) -> (r: Barycentric)
        requires
            self.wf(),
            x <= PIXEL_MAX,
            y <= PIXEL_MAX,
        ensures
            r.alpha == self.alpha_at(x * SUBPIXEL, y * SUBPIXEL),
            r.beta == self.beta_at(x * SUBPIXEL, y * SUBPIXEL),
            r.gamma == self.gamma_at(x * SUBPIXEL, y * SUBPIXEL),
            r.area == self.area(),
    {
        let px = x as i64 * SUBPIXEL;
        let py = y as i64 * SUBPIXEL;
        let v = &self.v;
        let alpha = edge_value(v[1].x, v[1].y, v[2].x, v[2].y, px, py);
        let beta = edge_value(v[2].x, v[2].y, v[0].x, v[0].y, px, py);
        let gamma = edge_value(v[0].x, v[0].y, v[1].x, v[1].y, px, py);
        let area = edge_value(v[0].x, v[0].y, v[1].x, v[1].y, v[2].x, v[2].y);
        Barycentric { alpha, beta, gamma, area }
    }

    /// Depth of the triangle at the pixel `(x, y)`, which lies inside it.
    pub fn interpolate_depth(&self, x: usize, y: usize) -> (z: i64)
        requires
            self.wf(),
            x <= PIXEL_MAX,
            y <= PIXEL_MAX,
            self.inside_at(x * SUBPIXEL, y * SUBPIXEL),
        ensures
            z == self.depth_at(x * SUBPIXEL, y * SUBPIXEL),
            -COORD_MAX <= z <= COORD_MAX,
    {
        let w = self.compute_barycentric_2d(x, y);
        proof {
            lemma_barycentric_sum(*self, x * SUBPIXEL, y * SUBPIXEL);
        }
        let (a0, a1, a2, d) = if w.area > 0 {
            (w.alpha as i128, w.beta as i128, w.gamma as i128, w.area as i128)
        } else {
            (-(w.alpha as i128), -(w.beta as i128), -(w.gamma as i128), -(w.area as i128))
        };
        let z0 = self.v[0].z as i128;
        let z1 = self.v[1].z as i128;
        let z2 = self.v[2].z as i128;
        proof {
            lemma_weighted_bound(a0 as int, z0 as int);
            lemma_weighted_bound(a1 as int, z1 as int);
            lemma_weighted_bound(a2 as int, z2 as int);
        }
        let n = a0 * z0 + a1 * z1 + a2 * z2;
        proof {
            let px = x * SUBPIXEL;
            let py = y * SUBPIXEL;
            lemma_depth_bounded(*self, px, py);
            let m = self.depth_numerator(px, py);
            if w.area > 0 {
                assert(n == m);
            } else {
                assert(n == -m) by (nonlinear_arith)
                    requires
                        n == a0 * z0 + a1 * z1 + a2 * z2,
                        m == (-a0) * z0 + (-a1) * z1 + (-a2) * z2,
                ;
            }
        }
        let q = if n >= 0 {
            n / d
        } else {
            -((-n) / d)
        };
        q as i64
    }
}

proof fn lemma_product_bound(a: int, b: int)
    requires
        -536870912 <= a <= 536870912,
        -536870912 <= b <= 536870912,
    ensures
        -288230376151711744 <= a * b <= 288230376151711744,
{
    assert(-288230376151711744 <= a * b <= 288230376151711744) by (nonlinear_arith)
        requires
            -536870912 <= a <= 536870912,
            -536870912 <= b <= 536870912,
    ;
}

proof fn lemma_weighted_bound(a: int, z: int)
    requires
        -9223372036854775808 <= a <= 9223372036854775808,
        -COORD_MAX <= z <= COORD_MAX,
    ensures
        -2475880078570760549798248448 <= a * z <= 2475880078570760549798248448,
{
    assert(-2475880078570760549798248448 <= a * z <= 2475880078570760549798248448)
        by (nonlinear_arith)
        requires
            -9223372036854775808 <= a <= 9223372036854775808,
            -268435456 <= z <= 268435456,
    ;
}

fn edge_value(ax: i64, ay: i64, bx: i64, by: i64, px: i64, py: i64) -> (r: i64)
    requires
        -COORD_MAX <= ax <= COORD_MAX,
        -COORD_MAX <= ay <= COORD_MAX,
        -COORD_MAX <= bx <= COORD_MAX,
        -COORD_MAX <= by <= COORD_MAX,
        -COORD_MAX <= px <= COORD_MAX,
        -COORD_MAX <= py <= COORD_MAX,
    ensures
        r == edge(ax as int, ay as int, bx as int, by as int, px as int, py as int),
{
    let ex = bx - ax;
    let ey = by - ay;
    let qx = px - ax;
    let qy = py - ay;
    proof {
        lemma_product_bound(ex as int, qy as int);
        lemma_product_bound(ey as int, qx as int);
    }
    ex * qy - ey * qx
}

proof fn lemma_edge_expand(ax: int, ay: int, bx: int, by: int, px: int, py: int)
    ensures
        edge(ax, ay, bx, by, px, py) == (ax * by - ay * bx) + (bx * py - by * px) + (px * ay
            - py * ax),
{
    assert((bx - ax) * (py - ay) == bx * py - bx * ay - ax * py + ax * ay) by (nonlinear_arith);
    assert((by - ay) * (px - ax) == by * px - by * ax - ay * px + ay * ax) by (nonlinear_arith);
    assert(ax * by == by * ax && ay * bx == bx * ay && px * ay == ay * px && py * ax == ax * py)
        by (nonlinear_arith);
}

/// Inside a triangle the interpolated depth lies within the range allowed
/// for vertex depths.
pub proof fn lemma_depth_bounded(t: Triangle, px: int, py: int)
    requires
        t.wf(),
        t.inside_at(px, py),
    ensures
        -COORD_MAX <= t.depth_at(px, py) <= COORD_MAX,
{
    lemma_barycentric_sum(t, px, py);
    let (a, b, c) = (t.alpha_at(px, py), t.beta_at(px, py), t.gamma_at(px, py));
    let (z0, z1, z2) = (t.v[0].z as int, t.v[1].z as int, t.v[2].z as int);
    let m = t.depth_numerator(px, py);
    let (a0, a1, a2, d, n) = if t.area() > 0 {
        (a, b, c, t.area(), m)
    } else {
        (-a, -b, -c, -t.area(), -m)
    };
    assert(n == a0 * z0 + a1 * z1 + a2 * z2) by (nonlinear_arith)
        requires
            m == a * z0 + b * z1 + c * z2,
            (a0 == a && a1 == b && a2 == c && n == m) || (a0 == -a && a1 == -b && a2 == -c && n
                == -m),
    ;
    let big = d * COORD_MAX;
    assert(n <= big && -big <= n) by (nonlinear_arith)
        requires
            n == a0 * z0 + a1 * z1 + a2 * z2,
            big == d * COORD_MAX,
            d == a0 + a1 + a2,
            0 <= a0,
            0 <= a1,
            0 <= a2,
            -COORD_MAX <= z0 <= COORD_MAX,
            -COORD_MAX <= z1 <= COORD_MAX,
            -COORD_MAX <= z2 <= COORD_MAX,
    ;
    lemma_div_by_multiple(COORD_MAX as int, d);
    assert(COORD_MAX * d == d * COORD_MAX) by (nonlinear_arith);
    if n >= 0 {
        lemma_div_is_ordered(n, big, d);
        lemma_div_pos_is_pos(n, d);
    } else {
        lemma_div_is_ordered(-n, big, d);
        lemma_div_pos_is_pos(-n, d);
    }
}

/// The three barycentric numerators always add up to the common
/// denominator: the weights sum to one at every point of the plane.
pub proof fn lemma_barycentric_sum(t: Triangle, px: int, py: int)
    ensures
        t.alpha_at(px, py) + t.beta_at(px, py) + t.gamma_at(px, py) == t.area(),
{
    let (x0, y0) = (t.v[0].x as int, t.v[0].y as int);
    let (x1, y1) = (t.v[1].x as int, t.v[1].y as int);
    let (x2, y2) = (t.v[2].x as int, t.v[2].y as int);
    lemma_edge_expand(x1, y1, x2, y2, px, py);
    lemma_edge_expand(x2, y2, x0, y0, px, py);
    lemma_edge_expand(x0, y0, x1, y1, px, py);
    lemma_edge_expand(x0, y0, x1, y1, x2, y2);
}

/// At each vertex the barycentric weights are the unit weights: `(1, 0, 0)`
/// at the first vertex, `(0, 1, 0)` at the second, `(0, 0, 1)` at the third.
pub proof fn lemma_barycentric_at_vertices(t: Triangle)
    ensures
        t.alpha_at(t.v[0].x as int, t.v[0].y as int) == t.area(),
        t.beta_at(t.v[0].x as int, t.v[0].y as int) == 0,
        t.gamma_at(t.v[0].x as int, t.v[0].y as int) == 0,
        t.alpha_at(t.v[1].x as int, t.v[1].y as int) == 0,
        t.beta_at(t.v[1].x as int, t.v[1].y as int) == t.area(),
        t.gamma_at(t.v[1].x as int, t.v[1].y as int) == 0,
        t.alpha_at(t.v[2].x as int, t.v[2].y as int) == 0,
        t.beta_at(t.v[2].x as int, t.v[2].y as int) == 0,
        t.gamma_at(t.v[2].x as int, t.v[2].y as int) == t.area(),
{
    let (x0, y0) = (t.v[0].x as int, t.v[0].y as int);
    let (x1, y1) = (t.v[1].x as int, t.v[1].y as int);
    let (x2, y2) = (t.v[2].x as int, t.v[2].y as int);
    lemma_edge_expand(x0, y0, x1, y1, x2, y2);
    lemma_edge_expand(x1, y1, x2, y2, x0, y0);
    lemma_edge_expand(x2, y2, x0, y0, x1, y1);
    lemma_edge_expand(x2, y2, x0, y0, x0, y0);
    lemma_edge_expand(x0, y0, x1, y1, x0, y0);
    lemma_edge_expand(x1, y1, x2, y2, x1, y1);
    lemma_edge_expand(x0, y0, x1, y1, x1, y1);
    lemma_edge_expand(x1, y1, x2, y2, x2, y2);
    lemma_edge_expand(x2, y2, x0, y0, x2, y2);
}

/// At a point strictly inside a triangle every barycentric weight lies
/// strictly between zero and one: each numerator has the sign of the area and
/// a smaller magnitude.
pub proof fn lemma_inside_weights(t: Triangle, px: int, py: int)
    requires
        t.inside_at(px, py),
    ensures
        t.area() != 0,
        t.area() > 0 ==> 0 < t.alpha_at(px, py) < t.area() && 0 < t.beta_at(px, py) < t.area()
            && 0 < t.gamma_at(px, py) < t.area(),
        t.area() < 0 ==> t.area() < t.alpha_at(px, py) < 0 && t.area() < t.beta_at(px, py) < 0
            && t.area() < t.gamma_at(px, py) < 0,
{
    lemma_barycentric_sum(t, px, py);
}

/// Reversing the winding keeps a point inside: a point inside `(a, b, c)` is
/// inside `(a, c, b)`.
pub proof fn lemma_inside_winding_flip(a: Point, b: Point, c: Point, px: int, py: int)
    requires
        inside(a, b, c, px, py),
    ensures
        inside(a, c, b, px, py),
{
    let (ax, ay) = (a.x as int, a.y as int);
    let (bx, by) = (b.x as int, b.y as int);
    let (cx, cy) = (c.x as int, c.y as int);
    lemma_edge_expand(ax, ay, cx, cy, px, py);
    lemma_edge_expand(cx, cy, ax, ay, px, py);
    lemma_edge_expand(cx, cy, bx, by, px, py);
    lemma_edge_expand(bx, by, cx, cy, px, py);
    lemma_edge_expand(bx, by, ax, ay, px, py);
    lemma_edge_expand(ax, ay, bx, by, px, py);
}

} // verus!
