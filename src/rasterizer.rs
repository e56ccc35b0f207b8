use vstd::arithmetic::div_mod::lemma_fundamental_div_mod_converse;
use vstd::prelude::*;

use crate::triangle::{div_toward_zero, lemma_depth_bounded, Color, Point, Triangle, COORD_MAX, PIXEL_MAX, SUBPIXEL};

verus! {

/// The value a cleared depth buffer holds.
pub const DEPTH_CLEAR: i64 = 0;

/// Which buffers `clear` resets.
#[derive(Clone, Copy, Debug, PartialEq, Eq, Structural)]
pub enum Buffer {
    Color,
    Depth,
    All,
}

/// The kind of primitive `draw` renders.
#[derive(Clone, Copy, Debug, PartialEq, Eq, Structural)]
pub enum Primitive {
    Line,
    Triangle,
}

/// The ids of the three vertices that make up a triangle, in winding order.
#[derive(Clone, Copy, Debug, PartialEq, Eq, Structural)]
pub struct Indices(pub usize, pub usize, pub usize);

impl Indices {
    pub fn new(x: usize, y: usize, z: usize) -> (r: Indices)
        ensures
            r == Indices(x, y, z),
    {
        Indices(x, y, z)
    }
}

/// Position in the buffers of the pixel `(x, y)`: rows are stored bottom-up,
/// so screen row `y` lands in buffer row `h - 1 - y`.
pub open spec fn pixel_index(w: int, h: int, x: int, y: int) -> int {
    (h - 1 - y) * w + x
}

/// Column of the pixel stored at buffer position `i`.
pub open spec fn pixel_x(w: int, i: int) -> int {
    i % w
}

/// Screen row of the pixel stored at buffer position `i`.
pub open spec fn pixel_y(w: int, h: int, i: int) -> int {
    h - 1 - i / w
}

/// Every on-screen pixel has a buffer position, from which its coordinates
/// are recovered.
pub proof fn lemma_pixel_index(w: int, h: int, x: int, y: int)
    requires
        0 <= x < w,
        0 <= y < h,
    ensures
        0 <= pixel_index(w, h, x, y) < w * h,
        pixel_x(w, pixel_index(w, h, x, y)) == x,
        pixel_y(w, h, pixel_index(w, h, x, y)) == y,
{
    let q = h - 1 - y;
    assert(0 <= q * w + x < w * h) by (nonlinear_arith)
        requires
            0 <= x < w,
            0 <= q < h,
    ;
    assert(q * w == (h - 1 - y) * w);
    lemma_fundamental_div_mod_converse(q * w + x, w, q, x);
}

/// Every buffer position holds an on-screen pixel, and is that pixel's position.
pub proof fn lemma_pixel_coords(w: int, h: int, i: int)
    requires
        0 < w,
        0 <= i < w * h,
    ensures
        0 <= pixel_x(w, i) < w,
        0 <= pixel_y(w, h, i) < h,
        pixel_index(w, h, pixel_x(w, i), pixel_y(w, h, i)) == i,
{
    let q = i / w;
    let r = i % w;
    assert(i == w * q + r && 0 <= r < w) by {
        vstd::arithmetic::div_mod::lemma_fundamental_div_mod(i, w);
        vstd::arithmetic::div_mod::lemma_mod_pos_bound(i, w);
    }
    assert(0 <= q < h) by (nonlinear_arith)
        requires
            i == w * q + r,
            0 <= r < w,
            0 <= i < w * h,
            0 < w,
    ;
    assert(w * q == q * w) by (nonlinear_arith);
}

/// Pixel column or row that a fixed-point coordinate falls in; coordinates
/// left of or below the screen count as pixel zero.
pub open spec fn to_pixel(c: int) -> int {
    if c < 0 {
        0
    } else {
        c / SUBPIXEL as int
    }
}

pub open spec fn min3(a: i64, b: i64, c: i64) -> int {
    if a <= b && a <= c {
        a as int
    } else if b <= c {
        b as int
    } else {
        c as int
    }
}

pub open spec fn max3(a: i64, b: i64, c: i64) -> int {
    if a >= b && a >= c {
        a as int
    } else if b >= c {
        b as int
    } else {
        c as int
    }
}

/// The pixel bounding box of a triangle: `[min_x, max_x) x [min_y, max_y)`.
pub open spec fn bbox_min_x(t: Triangle) -> int {
    to_pixel(min3(t.v[0].x, t.v[1].x, t.v[2].x))
}

pub open spec fn bbox_max_x(t: Triangle) -> int {
    to_pixel(max3(t.v[0].x, t.v[1].x, t.v[2].x))
}

pub open spec fn bbox_min_y(t: Triangle) -> int {
    to_pixel(min3(t.v[0].y, t.v[1].y, t.v[2].y))
}

pub open spec fn bbox_max_y(t: Triangle) -> int {
    to_pixel(max3(t.v[0].y, t.v[1].y, t.v[2].y))
}

/// The pixel `(x, y)` is scanned for `t` and lies inside it.
pub open spec fn covered(t: Triangle, x: int, y: int) -> bool {
    &&& bbox_min_x(t) <= x < bbox_max_x(t)
    &&& bbox_min_y(t) <= y < bbox_max_y(t)
    &&& t.inside_at(x * SUBPIXEL, y * SUBPIXEL)
}

/// Drawing `t` over the depth buffer `d` writes the pixel stored at `i`: it is
/// covered and nearer than what is stored there.
pub open spec fn shades(t: Triangle, w: int, h: int, d: Seq<i64>, i: int) -> bool {
    let x = pixel_x(w, i);
    let y = pixel_y(w, h, i);
    covered(t, x, y) && t.depth_at(x * SUBPIXEL, y * SUBPIXEL) < d[i]
}

/// The frame buffer after drawing `t` over the frame `f` and depths `d`.
pub open spec fn frame_after(t: Triangle, w: int, h: int, f: Seq<Color>, d: Seq<i64>) -> Seq<
    Color,
> {
    Seq::new(f.len(), |i: int| if shades(t, w, h, d, i) { t.color[0] } else { f[i] })
}

/// The depth buffer after drawing `t` over the depths `d`.
pub open spec fn depth_after(t: Triangle, w: int, h: int, d: Seq<i64>) -> Seq<i64> {
    Seq::new(
        d.len(),
        |i: int|
            if shades(t, w, h, d, i) {
                t.depth_at(pixel_x(w, i) * SUBPIXEL, pixel_y(w, h, i) * SUBPIXEL) as i64
            } else {
                d[i]
            },
    )
}

/// The frame and depth buffers after drawing the triangles `ts` in order.
pub open spec fn draw_all(w: int, h: int, ts: Seq<Triangle>, f: Seq<Color>, d: Seq<i64>) -> (Seq<
    Color,
>, Seq<i64>)
    decreases ts.len(),
{
    if ts.len() == 0 {
        (f, d)
    } else {
        let (f1, d1) = draw_all(w, h, ts.drop_last(), f, d);
        (frame_after(ts.last(), w, h, f1, d1), depth_after(ts.last(), w, h, d1))
    }
}

fn pixel_of(c: i64) -> (r: usize)
    requires
        -COORD_MAX <= c <= COORD_MAX,
    ensures
        r == to_pixel(c as int),
{
    if c < 0 {
        0
    } else {
        (c / SUBPIXEL) as usize
    }
}

fn min_of(a: i64, b: i64, c: i64) -> (r: i64)
    ensures
        r == min3(a, b, c),
{
    if a <= b && a <= c {
        a
    } else if b <= c {
        b
    } else {
        c
    }
}

fn max_of(a: i64, b: i64, c: i64) -> (r: i64)
    ensures
        r == max3(a, b, c),
{
    if a >= b && a >= c {
        a
    } else if b >= c {
        b
    } else {
        c
    }
}

/// The frame `f` with the pixel `(x, y)` set to `c`, or unchanged when the
/// pixel is off screen.
pub open spec fn put(f: Seq<Color>, w: int, h: int, x: int, y: int, c: Color) -> Seq<Color> {
    if 0 <= x < w && 0 <= y < h {
        f.update(pixel_index(w, h, x, y), c)
    } else {
        f
    }
}

/// The colour lines are drawn in.
pub open spec fn line_color() -> Color {
    Color { r: 238, g: 217, b: 185 }
}

pub open spec fn abs(a: int) -> int {
    if a < 0 {
        -a
    } else {
        a
    }
}

/// `n / d` rounded to the nearest integer, halves rounded up (`0` when `d` is `0`).
pub open spec fn round_half_up(n: int, d: int) -> int {
    if d == 0 {
        0
    } else {
        (2 * n + d) / (2 * d)
    }
}

/// `n / d` rounded to the nearest integer, halves rounded down.
pub open spec fn round_half_down(n: int, d: int) -> int {
    if d == 0 {
        0
    } else {
        (2 * n + d - 1) / (2 * d)
    }
}

/// Direction of the minor axis along a line: `1` when both coordinates grow
/// together or shrink together, `-1` otherwise.
pub open spec fn minor_step(x1: int, y1: int, x2: int, y2: int) -> int {
    let dx = x2 - x1;
    let dy = y2 - y1;
    if (dx < 0 && dy < 0) || (dx > 0 && dy > 0) {
        1
    } else {
        -1
    }
}

/// The pixels of the line from `(x1, y1)` to `(x2, y2)`: one per step along the
/// major axis, starting from the endpoint with the smaller major coordinate,
/// with the minor coordinate offset by the ideal offset rounded to the nearest
/// integer (halves up when x is the major axis, down when y is).
pub open spec fn on_line(x1: int, y1: int, x2: int, y2: int, x: int, y: int) -> bool {
    let dx1 = abs(x2 - x1);
    let dy1 = abs(y2 - y1);
    let s = minor_step(x1, y1, x2, y2);
    if dy1 <= dx1 {
        let xs = if x2 - x1 >= 0 { x1 } else { x2 };
        let ys = if x2 - x1 >= 0 { y1 } else { y2 };
        0 <= x - xs <= dx1 && y == ys + s * round_half_up((x - xs) * dy1, dx1)
    } else {
        let xs = if y2 - y1 >= 0 { x1 } else { x2 };
        let ys = if y2 - y1 >= 0 { y1 } else { y2 };
        0 <= y - ys <= dy1 && x == xs + s * round_half_down((y - ys) * dx1, dy1)
    }
}

/// The major coordinate of `(x, y)` along the line: x when the line is at
/// least as wide as it is tall, y otherwise.
pub open spec fn major(x1: int, y1: int, x2: int, y2: int, x: int, y: int) -> int {
    if abs(y2 - y1) <= abs(x2 - x1) {
        x
    } else {
        y
    }
}

/// The frame `f` with the on-screen pixels of the line whose major
/// coordinate is at most `upto` painted in the line colour.
pub open spec fn line_upto(
    f: Seq<Color>,
    w: int,
    h: int,
    x1: int,
    y1: int,
    x2: int,
    y2: int,
    upto: int,
) -> Seq<Color> {
    Seq::new(
        f.len(),
        |i: int|
            if on_line(x1, y1, x2, y2, pixel_x(w, i), pixel_y(w, h, i)) && major(
                x1,
                y1,
                x2,
                y2,
                pixel_x(w, i),
                pixel_y(w, h, i),
            ) <= upto {
                line_color()
            } else {
                f[i]
            },
    )
}

proof fn lemma_line_step(
    f0: Seq<Color>,
    prev: Seq<Color>,
    w: int,
    h: int,
    x1: int,
    y1: int,
    x2: int,
    y2: int,
    x: int,
    y: int,
)
    requires
        0 < w,
        0 < h,
        f0.len() == w * h,
        prev == line_upto(f0, w, h, x1, y1, x2, y2, major(x1, y1, x2, y2, x, y) - 1),
        on_line(x1, y1, x2, y2, x, y),
        forall|a: int, b: int|
            #[trigger] on_line(x1, y1, x2, y2, a, b) && major(x1, y1, x2, y2, a, b) == major(
                x1,
                y1,
                x2,
                y2,
                x,
                y,
            ) ==> a == x && b == y,
    ensures
        put(prev, w, h, x, y, line_color()) == line_upto(
            f0,
            w,
            h,
            x1,
            y1,
            x2,
            y2,
            major(x1, y1, x2, y2, x, y),
        ),
{
    let c = major(x1, y1, x2, y2, x, y);
    let next = line_upto(f0, w, h, x1, y1, x2, y2, c);
    if 0 <= x < w && 0 <= y < h {
        lemma_pixel_index(w, h, x, y);
    }
    assert forall|i: int| 0 <= i < f0.len() implies put(prev, w, h, x, y, line_color())[i]
        == next[i] by {
        lemma_pixel_coords(w, h, i);
    }
    assert(put(prev, w, h, x, y, line_color()) =~= next);
}

/// The frame `f` with the on-screen pixels of the line painted.
pub open spec fn line_after(f: Seq<Color>, w: int, h: int, x1: int, y1: int, x2: int, y2: int) -> Seq<
    Color,
> {
    Seq::new(
        f.len(),
        |i: int|
            if on_line(x1, y1, x2, y2, pixel_x(w, i), pixel_y(w, h, i)) {
                line_color()
            } else {
                f[i]
            },
    )
}

proof fn lemma_round_half_up(k: int, a: int, b: int, off: int)
    requires
        0 < b,
        -b <= 2 * (k * a) - 2 * (b * off) < b,
    ensures
        off == round_half_up(k * a, b),
{
    let n = 2 * (k * a) + b;
    assert(2 * k * a == 2 * (k * a)) by (nonlinear_arith);
    assert(off * (2 * b) == 2 * (b * off)) by (nonlinear_arith);
    lemma_fundamental_div_mod_converse(n, 2 * b, off, n - 2 * (b * off));
}

proof fn lemma_round_half_down(k: int, a: int, b: int, off: int)
    requires
        0 < b,
        -b < 2 * (k * a) - 2 * (b * off) <= b,
    ensures
        off == round_half_down(k * a, b),
{
    let n = 2 * (k * a) + b - 1;
    assert(2 * k * a == 2 * (k * a)) by (nonlinear_arith);
    assert(off * (2 * b) == 2 * (b * off)) by (nonlinear_arith);
    lemma_fundamental_div_mod_converse(n, 2 * b, off, n - 2 * (b * off));
}

/// The frame `f` with the line between the pixels of `a` and `b` painted.
pub open spec fn edge_after(f: Seq<Color>, w: int, h: int, a: Point, b: Point) -> Seq<Color> {
    line_after(
        f,
        w,
        h,
        div_toward_zero(a.x as int, SUBPIXEL as int),
        div_toward_zero(a.y as int, SUBPIXEL as int),
        div_toward_zero(b.x as int, SUBPIXEL as int),
        div_toward_zero(b.y as int, SUBPIXEL as int),
    )
}

/// Largest magnitude of a pixel coordinate handed to line drawing.
pub const LINE_MAX: i64 = 1048576;

fn to_pixel_toward_zero(c: i64) -> (r: i64)
    requires
        -COORD_MAX <= c <= COORD_MAX,
    ensures
        r == div_toward_zero(c as int, SUBPIXEL as int),
        -LINE_MAX <= r <= LINE_MAX,
{
    if c >= 0 {
        c / SUBPIXEL
    } else {
        -((-c) / SUBPIXEL)
    }
}

/// Drawing the same triangle twice leaves both buffers as drawing it once:
/// every pixel it wrote now holds its own depth, which the strict depth test
/// rejects.
pub proof fn lemma_draw_twice(t: Triangle, w: int, h: int, f: Seq<Color>, d: Seq<i64>)
    requires
        t.wf(),
        f.len() == d.len(),
    ensures
        frame_after(t, w, h, frame_after(t, w, h, f, d), depth_after(t, w, h, d)) == frame_after(
            t,
            w,
            h,
            f,
            d,
        ),
        depth_after(t, w, h, depth_after(t, w, h, d)) == depth_after(t, w, h, d),
{
    let f1 = frame_after(t, w, h, f, d);
    let d1 = depth_after(t, w, h, d);
    assert forall|i: int| 0 <= i < d.len() implies !shades(t, w, h, d1, i) by {
        let x = pixel_x(w, i);
        let y = pixel_y(w, h, i);
        if shades(t, w, h, d, i) {
            lemma_depth_bounded(t, x * SUBPIXEL, y * SUBPIXEL);
        }
    }
    assert(frame_after(t, w, h, f1, d1) =~= f1);
    assert(depth_after(t, w, h, d1) =~= d1);
}

/// Every pixel covered by a triangle of `ts` holds a depth no greater than
/// that triangle's depth there.
pub open spec fn settled(ts: Seq<Triangle>, w: int, h: int, d: Seq<i64>) -> bool {
    forall|k: int, i: int|
        #![trigger ts[k], d[i]]
        0 <= k < ts.len() && 0 <= i < d.len() && covered(ts[k], pixel_x(w, i), pixel_y(w, h, i))
            ==> d[i] <= ts[k].depth_at(pixel_x(w, i) * SUBPIXEL, pixel_y(w, h, i) * SUBPIXEL)
}

proof fn lemma_draw_all_settles(w: int, h: int, ts: Seq<Triangle>, f: Seq<Color>, d: Seq<i64>)
    requires
        forall|k: int| 0 <= k < ts.len() ==> (#[trigger] ts[k]).wf(),
        f.len() == d.len(),
    ensures
        draw_all(w, h, ts, f, d).0.len() == f.len(),
        draw_all(w, h, ts, f, d).1.len() == d.len(),
        settled(ts, w, h, draw_all(w, h, ts, f, d).1),
    decreases ts.len(),
{
    if ts.len() > 0 {
        let init = ts.drop_last();
        let t = ts.last();
        assert forall|k: int| 0 <= k < init.len() implies (#[trigger] init[k]).wf() by {
            assert(init[k] == ts[k]);
        }
        lemma_draw_all_settles(w, h, init, f, d);
        let d1 = draw_all(w, h, init, f, d).1;
        let d2 = depth_after(t, w, h, d1);
        assert(t.wf());
        assert forall|k: int, i: int|
            #![trigger ts[k], d2[i]]
            0 <= k < ts.len() && 0 <= i < d2.len() && covered(
                ts[k],
                pixel_x(w, i),
                pixel_y(w, h, i),
            ) implies d2[i] <= ts[k].depth_at(
            pixel_x(w, i) * SUBPIXEL,
            pixel_y(w, h, i) * SUBPIXEL,
        ) by {
            let x = pixel_x(w, i);
            let y = pixel_y(w, h, i);
            if shades(t, w, h, d1, i) {
                lemma_depth_bounded(t, x * SUBPIXEL, y * SUBPIXEL);
            }
            if k < init.len() {
                assert(init[k] == ts[k]);
                assert(d1[i] <= init[k].depth_at(x * SUBPIXEL, y * SUBPIXEL));
            }
        }
    }
}

proof fn lemma_draw_all_settled(w: int, h: int, ts: Seq<Triangle>, f: Seq<Color>, d: Seq<i64>)
    requires
        settled(ts, w, h, d),
        f.len() == d.len(),
    ensures
        draw_all(w, h, ts, f, d) == (f, d),
    decreases ts.len(),
{
    if ts.len() > 0 {
        let init = ts.drop_last();
        let t = ts.last();
        assert forall|k: int, i: int|
            #![trigger init[k], d[i]]
            0 <= k < init.len() && 0 <= i < d.len() && covered(
                init[k],
                pixel_x(w, i),
                pixel_y(w, h, i),
            ) implies d[i] <= init[k].depth_at(
            pixel_x(w, i) * SUBPIXEL,
            pixel_y(w, h, i) * SUBPIXEL,
        ) by {
            assert(init[k] == ts[k]);
        }
        lemma_draw_all_settled(w, h, init, f, d);
        assert forall|i: int| 0 <= i < d.len() implies !shades(t, w, h, d, i) by {
            assert(ts[ts.len() - 1] == t);
        }
        assert(frame_after(t, w, h, f, d) =~= f);
        assert(depth_after(t, w, h, d) =~= d);
    }
}

/// Drawing the same list of triangles twice leaves both buffers as drawing it
/// once: after the first pass every covered pixel already holds a depth no
/// greater than each triangle's own, which the strict depth test rejects.
pub proof fn lemma_draw_all_twice(w: int, h: int, ts: Seq<Triangle>, f: Seq<Color>, d: Seq<i64>)
    requires
        forall|k: int| 0 <= k < ts.len() ==> (#[trigger] ts[k]).wf(),
        f.len() == d.len(),
    ensures
        draw_all(w, h, ts, draw_all(w, h, ts, f, d).0, draw_all(w, h, ts, f, d).1) == draw_all(
            w,
            h,
            ts,
            f,
            d,
        ),
{
    lemma_draw_all_settles(w, h, ts, f, d);
    let (f1, d1) = draw_all(w, h, ts, f, d);
    lemma_draw_all_settled(w, h, ts, f1, d1);
}

/// Ids are never reused: after inserting `a` and then `b` into a store
/// holding `before`, the vertices of `a` still answer to the ids they were
/// given, and those of `b` take the ids that follow the last id of `a`.
pub proof fn lemma_ids_never_reused<V>(before: Seq<V>, a: Seq<V>, b: Seq<V>)
    ensures
        (before + a).len() == before.len() + a.len(),
        forall|i: int|
            0 <= i < a.len() ==> #[trigger] (before + a + b)[before.len() + i] == a[i],
        forall|j: int|
            0 <= j < b.len() ==> #[trigger] (before + a + b)[(before + a).len() + j] == b[j],
{
    assert forall|i: int| 0 <= i < a.len() implies #[trigger] (before + a + b)[before.len() + i]
        == a[i] by {
        assert((before + a)[before.len() + i] == a[i]);
    }
}

/// A frame buffer and depth buffer of a fixed size, with the vertex and index
/// stores that triangles are assembled from. A vertex's id is its position in
/// the vertex store.
#[verifier::reject_recursive_types(V)]
pub struct Rasterizer<V> {
    width: usize,
    height: usize,
    frame_buf: Vec<Color>,
    depth_buf: Vec<i64>,
    vertex_buf: Vec<V>,
    indice_buf: Vec<Indices>,
}

impl<V> Rasterizer<V> {
    pub closed spec fn spec_width(&self) -> int {
        self.width as int
    }

    pub closed spec fn spec_height(&self) -> int {
        self.height as int
    }

    pub closed spec fn frame(&self) -> Seq<Color> {
        self.frame_buf@
    }

    pub closed spec fn depth(&self) -> Seq<i64> {
        self.depth_buf@
    }

    pub closed spec fn vertices(&self) -> Seq<V> {
        self.vertex_buf@
    }

    pub closed spec fn indices(&self) -> Seq<Indices> {
        self.indice_buf@
    }

    /// Both buffers hold one entry per pixel.
    pub closed spec fn wf(&self) -> bool {
        &&& 0 < self.width <= PIXEL_MAX
        &&& 0 < self.height <= PIXEL_MAX
        &&& self.frame_buf@.len() == self.width * self.height
        &&& self.depth_buf@.len() == self.width * self.height
    }

    /// What well-formedness promises: a positive size within `PIXEL_MAX`,
    /// and one frame entry and one depth entry per pixel.
    pub proof fn lemma_wf(&self)
        requires
            self.wf(),
        ensures
            0 < self.spec_width() <= PIXEL_MAX,
            0 < self.spec_height() <= PIXEL_MAX,
            self.frame().len() == self.spec_width() * self.spec_height(),
            self.depth().len() == self.spec_width() * self.spec_height(),
    {
    }

    /// A `w` x `h` rasterizer with a black frame, a cleared depth buffer and
    /// empty stores.
    pub fn new(w: usize, h: usize) -> (r: Rasterizer<V>)
        requires
            0 < w <= PIXEL_MAX,
            0 < h <= PIXEL_MAX,
        ensures
            r.wf(),
            r.spec_width() == w,
            r.spec_height() == h,
            r.frame() == Seq::new((w * h) as nat, |i: int| Color { r: 0, g: 0, b: 0 }),
            r.depth() == Seq::new((w * h) as nat, |i: int| DEPTH_CLEAR),
            r.vertices() == Seq::<V>::empty(),
            r.indices() == Seq::<Indices>::empty(),
    {
        assert(w * h <= PIXEL_MAX * PIXEL_MAX) by (nonlinear_arith)
            requires
                w <= PIXEL_MAX,
                h <= PIXEL_MAX,
        ;
        let n = w * h;
        let mut frame_buf: Vec<Color> = Vec::new();
        let mut depth_buf: Vec<i64> = Vec::new();
        let mut i: usize = 0;
        while i < n
            invariant
                i <= n,
                frame_buf@ == Seq::new(i as nat, |j: int| Color { r: 0, g: 0, b: 0 }),
                depth_buf@ == Seq::new(i as nat, |j: int| DEPTH_CLEAR),
            decreases n - i,
        {
            frame_buf.push(Color::black());
            depth_buf.push(DEPTH_CLEAR);
            i += 1;
            assert(frame_buf@ =~= Seq::new(i as nat, |j: int| Color { r: 0, g: 0, b: 0 }));
            assert(depth_buf@ =~= Seq::new(i as nat, |j: int| DEPTH_CLEAR));
        }
        Rasterizer {
            width: w,
            height: h,
            frame_buf,
            depth_buf,
            vertex_buf: Vec::new(),
            indice_buf: Vec::new(),
        }
    }

    pub fn width(&self) -> (r: usize)
        ensures
            r == self.spec_width(),
    {
        self.width
    }

    pub fn height(&self) -> (r: usize)
        ensures
            r == self.spec_height(),
    {
        self.height
    }

    /// The frame buffer, one colour per pixel, bottom row first.
    pub fn frame_buf(&self) -> (r: &Vec<Color>)
        ensures
            r@ == self.frame(),
    {
        &self.frame_buf
    }

    /// The depth buffer, laid out as the frame buffer.
    pub fn depth_buf(&self) -> (r: &Vec<i64>)
        ensures
            r@ == self.depth(),
    {
        &self.depth_buf
    }

    /// The id the next inserted vertex will get.
    pub fn next_id(&self) -> (r: usize)
        ensures
            r == self.vertices().len(),
    {
        self.vertex_buf.len()
    }

    /// Buffer position of the pixel `(x, y)`.
    pub fn get_index(&self, x: usize, y: usize) -> (r: usize)
        requires
            self.wf(),
            x < self.spec_width(),
            y < self.spec_height(),
        ensures
            r == pixel_index(self.spec_width(), self.spec_height(), x as int, y as int),
            r < self.frame().len(),
    {
        proof {
            lemma_pixel_index(self.width as int, self.height as int, x as int, y as int);
            let (w, h) = (self.width as int, self.height as int);
            assert(w * h <= PIXEL_MAX * PIXEL_MAX && (h - 1 - y) * w <= w * h) by (nonlinear_arith)
                requires
                    0 < w <= PIXEL_MAX,
                    0 < h <= PIXEL_MAX,
                    0 <= y < h,
            ;
        }
        (self.height - 1 - y) * self.width + x
    }

    /// Resets the named buffers: the frame to black, the depths to
    /// `DEPTH_CLEAR`; the buffer that is not named keeps its contents.
    pub fn clear(&mut self, buffer: Buffer)
        requires
            old(self).wf(),
        ensures
            final(self).wf(),
            final(self).spec_width() == old(self).spec_width(),
            final(self).spec_height() == old(self).spec_height(),
            final(self).vertices() == old(self).vertices(),
            final(self).indices() == old(self).indices(),
            buffer == Buffer::Depth ==> final(self).frame() == old(self).frame(),
            buffer != Buffer::Depth ==> final(self).frame() == Seq::new(
                old(self).frame().len(),
                |i: int| Color { r: 0, g: 0, b: 0 },
            ),
            buffer == Buffer::Color ==> final(self).depth() == old(self).depth(),
            buffer != Buffer::Color ==> final(self).depth() == Seq::new(
                old(self).depth().len(),
                |i: int| DEPTH_CLEAR,
            ),
    {
        if buffer != Buffer::Depth {
            self.fill_frame();
        }
        if buffer != Buffer::Color {
            self.fill_depth();
        }
    }

    fn fill_frame(&mut self)
        requires
            old(self).wf(),
        ensures
            final(self).wf(),
            final(self).width == old(self).width,
            final(self).height == old(self).height,
            final(self).vertex_buf@ == old(self).vertex_buf@,
            final(self).indice_buf@ == old(self).indice_buf@,
            final(self).depth_buf@ == old(self).depth_buf@,
            final(self).frame_buf@ == Seq::new(
                old(self).frame_buf@.len(),
                |i: int| Color { r: 0, g: 0, b: 0 },
            ),
    {
        let n = self.frame_buf.len();
        let mut i: usize = 0;
        while i < n
            invariant
                self.wf(),
                i <= n,
                n == self.frame_buf@.len(),
                self.width == old(self).width,
                self.height == old(self).height,
                self.vertex_buf@ == old(self).vertex_buf@,
                self.indice_buf@ == old(self).indice_buf@,
                self.depth_buf@ == old(self).depth_buf@,
                forall|j: int| 0 <= j < i ==> self.frame_buf@[j] == (Color { r: 0, g: 0, b: 0 }),
            decreases n - i,
        {
            self.frame_buf.set(i, Color::black());
            i += 1;
        }
        assert(self.frame_buf@ =~= Seq::new(n as nat, |i: int| Color { r: 0, g: 0, b: 0 }));
    }

    fn fill_depth(&mut self)
        requires
            old(self).wf(),
        ensures
            final(self).wf(),
            final(self).width == old(self).width,
            final(self).height == old(self).height,
            final(self).vertex_buf@ == old(self).vertex_buf@,
            final(self).indice_buf@ == old(self).indice_buf@,
            final(self).frame_buf@ == old(self).frame_buf@,
            final(self).depth_buf@ == Seq::new(old(self).depth_buf@.len(), |i: int| DEPTH_CLEAR),
    {
        let n = self.depth_buf.len();
        let mut i: usize = 0;
        while i < n
            invariant
                self.wf(),
                i <= n,
                n == self.depth_buf@.len(),
                self.width == old(self).width,
                self.height == old(self).height,
                self.vertex_buf@ == old(self).vertex_buf@,
                self.indice_buf@ == old(self).indice_buf@,
                self.frame_buf@ == old(self).frame_buf@,
                forall|j: int| 0 <= j < i ==> self.depth_buf@[j] == DEPTH_CLEAR,
            decreases n - i,
        {
            self.depth_buf.set(i, DEPTH_CLEAR);
            i += 1;
        }
        assert(self.depth_buf@ =~= Seq::new(n as nat, |i: int| DEPTH_CLEAR));
    }

    /// Appends the vertices in order and returns the id of the first: the
    /// `k`-th of them gets the id `r + k`. Ids start at zero, grow by one per
    /// vertex, and are never reused.
    pub fn insert_vertexs(&mut self, vertexs: Vec<V>) -> (r: usize)
        ensures
            r == old(self).vertices().len(),
            final(self).vertices() == old(self).vertices() + vertexs@,
            forall|k: int|
                0 <= k < vertexs@.len() ==> #[trigger] final(self).vertices()[r + k] == vertexs@[k],
            final(self).wf() == old(self).wf(),
            final(self).spec_width() == old(self).spec_width(),
            final(self).spec_height() == old(self).spec_height(),
            final(self).frame() == old(self).frame(),
            final(self).depth() == old(self).depth(),
            final(self).indices() == old(self).indices(),
    {
        let first = self.vertex_buf.len();
        let mut vs = vertexs;
        self.vertex_buf.append(&mut vs);
        first
    }

    /// Appends the index triples as they are; ids are not checked here.
    pub fn insert_indices(&mut self, inds: &Vec<Indices>)
        ensures
            final(self).indices() == old(self).indices() + inds@,
            final(self).wf() == old(self).wf(),
            final(self).spec_width() == old(self).spec_width(),
            final(self).spec_height() == old(self).spec_height(),
            final(self).frame() == old(self).frame(),
            final(self).depth() == old(self).depth(),
            final(self).vertices() == old(self).vertices(),
    {
        let mut i: usize = 0;
        while i < inds.len()
            invariant
                i <= inds@.len(),
                self.indice_buf@ == old(self).indice_buf@ + inds@.subrange(0, i as int),
                self.width == old(self).width,
                self.height == old(self).height,
                self.frame_buf@ == old(self).frame_buf@,
                self.depth_buf@ == old(self).depth_buf@,
                self.vertex_buf@ == old(self).vertex_buf@,
            decreases inds@.len() - i,
        {
            self.indice_buf.push(inds[i]);
            i += 1;
            assert(self.indice_buf@ =~= old(self).indice_buf@ + inds@.subrange(0, i as int));
        }
        assert(inds@.subrange(0, i as int) =~= inds@);
    }

    /// The three vertices that `ind` refers to.
    pub fn get_vertexs(&self, ind: &Indices) -> (r: (&V, &V, &V))
        requires
            ind.0 < self.vertices().len(),
            ind.1 < self.vertices().len(),
            ind.2 < self.vertices().len(),
        ensures
            *r.0 == self.vertices()[ind.0 as int],
            *r.1 == self.vertices()[ind.1 as int],
            *r.2 == self.vertices()[ind.2 as int],
    {
        (&self.vertex_buf[ind.0], &self.vertex_buf[ind.1], &self.vertex_buf[ind.2])
    }
    /// Fills the pixels of `t` that lie inside its pixel bounding box and the
    /// screen, are inside the triangle and nearer than the stored depth: each
    /// takes the triangle's first colour and its interpolated depth.
    pub fn rasterize_triangle(&mut self, t: &Triangle)
        requires
            old(self).wf(),
            t.wf(),
        ensures
            final(self).wf(),
            final(self).spec_width() == old(self).spec_width(),
            final(self).spec_height() == old(self).spec_height(),
            final(self).vertices() == old(self).vertices(),
            final(self).indices() == old(self).indices(),
            final(self).frame() == frame_after(
                *t,
                old(self).spec_width(),
                old(self).spec_height(),
                old(self).frame(),
                old(self).depth(),
            ),
            final(self).depth() == depth_after(
                *t,
                old(self).spec_width(),
                old(self).spec_height(),
                old(self).depth(),
            ),
    {
        let ghost w = self.width as int;
        let ghost h = self.height as int;
        let ghost f0 = self.frame_buf@;
        let ghost d0 = self.depth_buf@;
        let ghost fa = frame_after(*t, w, h, f0, d0);
        let ghost da = depth_after(*t, w, h, d0);
        let ghost n = f0.len() as int;
        let v = &t.v;
        let min_x = pixel_of(min_of(v[0].x, v[1].x, v[2].x));
        let max_x = pixel_of(max_of(v[0].x, v[1].x, v[2].x));
        let min_y = pixel_of(min_of(v[0].y, v[1].y, v[2].y));
        let max_y = pixel_of(max_of(v[0].y, v[1].y, v[2].y));
        let end_x = if max_x < self.width {
            max_x
        } else {
            self.width
        };
        let end_y = if max_y < self.height {
            max_y
        } else {
            self.height
        };
        let color = *t.get_color();
        let mut x = min_x;
        while x < end_x
            invariant
                self.wf(),
                self.width == w,
                self.height == h,
                self.vertex_buf@ == old(self).vertex_buf@,
                self.indice_buf@ == old(self).indice_buf@,
                f0 == old(self).frame_buf@,
                d0 == old(self).depth_buf@,
                fa == frame_after(*t, w, h, f0, d0),
                da == depth_after(*t, w, h, d0),
                n == w * h,
                f0.len() == n,
                d0.len() == n,
                t.wf(),
                color == t.color[0],
                min_x == bbox_min_x(*t),
                min_y == bbox_min_y(*t),
                end_x == (if bbox_max_x(*t) < w { bbox_max_x(*t) } else { w }),
                end_y == (if bbox_max_y(*t) < h { bbox_max_y(*t) } else { h }),
                min_x <= x,
                forall|i: int|
                    0 <= i < n ==> #[trigger] self.frame_buf@[i] == (if pixel_x(w, i) < x {
                        fa[i]
                    } else {
                        f0[i]
                    }),
                forall|i: int|
                    0 <= i < n ==> #[trigger] self.depth_buf@[i] == (if pixel_x(w, i) < x {
                        da[i]
                    } else {
                        d0[i]
                    }),
            decreases end_x - x,
        {
            let mut y = min_y;
            proof {
                assert forall|i: int| 0 <= i < n implies #[trigger] self.frame_buf@[i] == (if pixel_x(w, i) < x || (
                    pixel_x(w, i) == x && pixel_y(w, h, i) < y) {
                        fa[i]
                    } else {
                        f0[i]
                    }) && self.depth_buf@[i] == (if pixel_x(w, i) < x || (
                    pixel_x(w, i) == x && pixel_y(w, h, i) < y) {
                        da[i]
                    } else {
                        d0[i]
                    }) by {
                    if pixel_x(w, i) == x && pixel_y(w, h, i) < y {
                        assert(!shades(*t, w, h, d0, i));
                    }
                }
            }
            while y < end_y
                invariant
                    self.wf(),
                    self.width == w,
                    self.height == h,
                    self.vertex_buf@ == old(self).vertex_buf@,
                    self.indice_buf@ == old(self).indice_buf@,
                    fa == frame_after(*t, w, h, f0, d0),
                    da == depth_after(*t, w, h, d0),
                    n == w * h,
                    f0.len() == n,
                    d0.len() == n,
                    t.wf(),
                    color == t.color[0],
                    min_x == bbox_min_x(*t),
                    min_y == bbox_min_y(*t),
                    end_x == (if bbox_max_x(*t) < w { bbox_max_x(*t) } else { w }),
                    end_y == (if bbox_max_y(*t) < h { bbox_max_y(*t) } else { h }),
                    min_x <= x < end_x,
                    min_y <= y,
                    forall|i: int|
                        0 <= i < n ==> #[trigger] self.frame_buf@[i] == (if pixel_x(w, i) < x || (
                        pixel_x(w, i) == x && pixel_y(w, h, i) < y) {
                            fa[i]
                        } else {
                            f0[i]
                        }),
                    forall|i: int|
                        0 <= i < n ==> #[trigger] self.depth_buf@[i] == (if pixel_x(w, i) < x || (
                        pixel_x(w, i) == x && pixel_y(w, h, i) < y) {
                            da[i]
                        } else {
                            d0[i]
                        }),
                decreases end_y - y,
            {
                let idx = self.get_index(x, y);
                let ghost fb = self.frame_buf@;
                let ghost db = self.depth_buf@;
                proof {
                    lemma_pixel_index(w, h, x as int, y as int);
                    assert(fb[idx as int] == f0[idx as int]);
                    assert(db[idx as int] == d0[idx as int]);
                }
                if t.is_inside(x, y) {
                    let z = t.interpolate_depth(x, y);
                    if z < self.depth_buf[idx] {
                        self.frame_buf.set(idx, color);
                        self.depth_buf.set(idx, z);
                        assert(shades(*t, w, h, d0, idx as int));
                    } else {
                        assert(!shades(*t, w, h, d0, idx as int));
                    }
                } else {
                    assert(!shades(*t, w, h, d0, idx as int));
                }
                proof {
                    assert forall|i: int|
                        #![trigger self.frame_buf@[i]]
                        #![trigger self.depth_buf@[i]]
                        0 <= i < n implies self.frame_buf@[i] == (if pixel_x(w, i) < x || (
                        pixel_x(w, i) == x && pixel_y(w, h, i) < y + 1) {
                            fa[i]
                        } else {
                            f0[i]
                        }) && self.depth_buf@[i] == (if pixel_x(w, i) < x || (
                        pixel_x(w, i) == x && pixel_y(w, h, i) < y + 1) {
                            da[i]
                        } else {
                            d0[i]
                        }) by {
                        lemma_pixel_coords(w, h, i);
                        if i != idx {
                            assert(fb[i] == self.frame_buf@[i]);
                            assert(db[i] == self.depth_buf@[i]);
                        }
                    }
                }
                y += 1;
            }
            proof {
                assert forall|i: int| 0 <= i < n implies #[trigger] self.frame_buf@[i] == (if pixel_x(w, i) < x + 1 {
                        fa[i]
                    } else {
                        f0[i]
                    }) && self.depth_buf@[i] == (if pixel_x(w, i) < x + 1 {
                        da[i]
                    } else {
                        d0[i]
                    }) by {
                    lemma_pixel_coords(w, h, i);
                }
            }
            x += 1;
        }
        proof {
            assert forall|i: int| 0 <= i < n implies self.frame_buf@[i] == fa[i] && self.depth_buf@[i] == da[i] by {
                lemma_pixel_coords(w, h, i);
            }
            assert(self.frame_buf@ =~= fa);
            assert(self.depth_buf@ =~= da);
        }
    }

    /// Draws the triangles in order. Only triangles are supported.
    pub fn draw(&mut self, triangles: &Vec<Triangle>, ttype: Primitive)
        requires
            old(self).wf(),
            ttype == Primitive::Triangle,
            forall|k: int| 0 <= k < triangles@.len() ==> (#[trigger] triangles@[k]).wf(),
        ensures
            final(self).wf(),
            final(self).spec_width() == old(self).spec_width(),
            final(self).spec_height() == old(self).spec_height(),
            final(self).vertices() == old(self).vertices(),
            final(self).indices() == old(self).indices(),
            (final(self).frame(), final(self).depth()) == draw_all(
                old(self).spec_width(),
                old(self).spec_height(),
                triangles@,
                old(self).frame(),
                old(self).depth(),
            ),
    {
        let ghost w = self.width as int;
        let ghost h = self.height as int;
        let mut k: usize = 0;
        while k < triangles.len()
            invariant
                self.wf(),
                self.width == w,
                self.height == h,
                w == old(self).width,
                h == old(self).height,
                self.vertex_buf@ == old(self).vertex_buf@,
                self.indice_buf@ == old(self).indice_buf@,
                k <= triangles@.len(),
                forall|j: int| 0 <= j < triangles@.len() ==> (#[trigger] triangles@[j]).wf(),
                (self.frame_buf@, self.depth_buf@) == draw_all(
                    w,
                    h,
                    triangles@.subrange(0, k as int),
                    old(self).frame_buf@,
                    old(self).depth_buf@,
                ),
            decreases triangles@.len() - k,
        {
            self.rasterize_triangle(&triangles[k]);
            proof {
                let next = triangles@.subrange(0, k + 1);
                assert(next.drop_last() =~= triangles@.subrange(0, k as int));
                assert(next.last() == triangles@[k as int]);
            }
            k += 1;
        }
        assert(triangles@.subrange(0, k as int) =~= triangles@);
    }
    /// The index triples inserted so far.
    pub fn index_buf(&self) -> (r: &Vec<Indices>)
        ensures
            r@ == self.indices(),
    {
        &self.indice_buf
    }

    /// The frame buffer as consecutive red, green and blue channels.
    pub fn frame_buf_data(&self) -> (r: Vec<u8>)
        ensures
            r@.len() == 3 * self.frame().len(),
            forall|i: int|
                0 <= i < self.frame().len() ==> {
                    &&& #[trigger] r@[3 * i] == self.frame()[i].r
                    &&& r@[3 * i + 1] == self.frame()[i].g
                    &&& r@[3 * i + 2] == self.frame()[i].b
                },
    {
        let mut out: Vec<u8> = Vec::new();
        let mut i: usize = 0;
        while i < self.frame_buf.len()
            invariant
                i <= self.frame_buf@.len(),
                out@.len() == 3 * i,
                forall|j: int|
                    0 <= j < i ==> {
                        &&& #[trigger] out@[3 * j] == self.frame_buf@[j].r
                        &&& out@[3 * j + 1] == self.frame_buf@[j].g
                        &&& out@[3 * j + 2] == self.frame_buf@[j].b
                    },
            decreases self.frame_buf@.len() - i,
        {
            let c = self.frame_buf[i];
            let ghost prev = out@;
            out.push(c.r);
            out.push(c.g);
            out.push(c.b);
            assert forall|j: int| 0 <= j < i + 1 implies {
                &&& #[trigger] out@[3 * j] == self.frame_buf@[j].r
                &&& out@[3 * j + 1] == self.frame_buf@[j].g
                &&& out@[3 * j + 2] == self.frame_buf@[j].b
            } by {
                if j < i {
                    assert(out@[3 * j] == prev[3 * j]);
                    assert(out@[3 * j + 1] == prev[3 * j + 1]);
                    assert(out@[3 * j + 2] == prev[3 * j + 2]);
                }
            }
            i += 1;
        }
        out
    }

    /// Writes `color` at the pixel `(x, y)`; off-screen pixels are ignored.
    pub fn set_pixel2(&mut self, x: i64, y: i64, color: &Color)
        requires
            old(self).wf(),
        ensures
            final(self).wf(),
            final(self).spec_width() == old(self).spec_width(),
            final(self).spec_height() == old(self).spec_height(),
            final(self).vertices() == old(self).vertices(),
            final(self).indices() == old(self).indices(),
            final(self).depth() == old(self).depth(),
            final(self).frame() == put(
                old(self).frame(),
                old(self).spec_width(),
                old(self).spec_height(),
                x as int,
                y as int,
                *color,
            ),
    {
        if x < 0 || y < 0 || x >= self.width as i64 || y >= self.height as i64 {
            return;
        }
        let idx = self.get_index(x as usize, y as usize);
        self.frame_buf.set(idx, *color);
    }

    /// Writes `color` at the pixel that the fixed-point position `point`
    /// falls in; positions off screen are ignored.
    pub fn set_pixel(&mut self, point: &Point, color: &Color)
        requires
            old(self).wf(),
        ensures
            final(self).wf(),
            final(self).spec_width() == old(self).spec_width(),
            final(self).spec_height() == old(self).spec_height(),
            final(self).vertices() == old(self).vertices(),
            final(self).indices() == old(self).indices(),
            final(self).depth() == old(self).depth(),
            final(self).frame() == put(
                old(self).frame(),
                old(self).spec_width(),
                old(self).spec_height(),
                (point.x as int) / (SUBPIXEL as int),
                (point.y as int) / (SUBPIXEL as int),
                *color,
            ),
    {
        if point.x < 0 || point.y < 0 {
            proof {
                assert(point.x < 0 ==> (point.x as int) / (SUBPIXEL as int) < 0);
                assert(point.y < 0 ==> (point.y as int) / (SUBPIXEL as int) < 0);
            }
            return;
        }
        self.set_pixel2(point.x / SUBPIXEL, point.y / SUBPIXEL, color);
    }
    /// Traces a line at least as wide as it is tall, column by column.
    fn line_x_major(&mut self, x1: i64, y1: i64, x2: i64, y2: i64)
        requires
            old(self).wf(),
            -LINE_MAX <= x1 <= LINE_MAX,
            -LINE_MAX <= y1 <= LINE_MAX,
            -LINE_MAX <= x2 <= LINE_MAX,
            -LINE_MAX <= y2 <= LINE_MAX,
            abs(y2 - y1) <= abs(x2 - x1),
        ensures
            final(self).wf(),
            final(self).width == old(self).width,
            final(self).height == old(self).height,
            final(self).vertex_buf@ == old(self).vertex_buf@,
            final(self).indice_buf@ == old(self).indice_buf@,
            final(self).depth_buf@ == old(self).depth_buf@,
            final(self).frame_buf@ == line_after(
                old(self).frame_buf@,
                old(self).width as int,
                old(self).height as int,
                x1 as int,
                y1 as int,
                x2 as int,
                y2 as int,
            ),
    {
        let ghost w = self.width as int;
        let ghost h = self.height as int;
        let ghost f0 = self.frame_buf@;
        let color = Color::new(238, 217, 185);
        let dx = x2 - x1;
        let dy = y2 - y1;
        let dx1 = if dx < 0 {
            -dx
        } else {
            dx
        };
        let dy1 = if dy < 0 {
            -dy
        } else {
            dy
        };
        let up = (dx < 0 && dy < 0) || (dx > 0 && dy > 0);
        let mut px = 2 * dy1 - dx1;
        let mut x = if dx >= 0 {
            x1
        } else {
            x2
        };
        let mut y = if dx >= 0 {
            y1
        } else {
            y2
        };
        let xe = if dx >= 0 {
            x2
        } else {
            x1
        };
        let ghost xs = x as int;
        let ghost ys = y as int;
        let ghost sgn: int = if up {
            1
        } else {
            -1
        };
        let ghost mut off: int = 0;
        let ghost mut t: int = 0;
        let ghost mut u: int = 0;
        proof {
            assert(dx1 * 0 == 0);
            assert(sgn == minor_step(x1 as int, y1 as int, x2 as int, y2 as int));
            assert(self.frame_buf@ =~= line_upto(
                f0,
                w,
                h,
                x1 as int,
                y1 as int,
                x2 as int,
                y2 as int,
                xs - 1,
            ));
            if dx1 > 0 {
                lemma_round_half_up(0, dy1 as int, dx1 as int, 0);
            }
            assert(0 * dy1 == 0);
            assert forall|a: int, b: int|
                #[trigger] on_line(x1 as int, y1 as int, x2 as int, y2 as int, a, b) && major(
                    x1 as int,
                    y1 as int,
                    x2 as int,
                    y2 as int,
                    a,
                    b,
                ) == xs implies a == xs && b == ys by {}
            lemma_line_step(f0, self.frame_buf@, w, h, x1 as int, y1 as int, x2 as int, y2 as int, xs, ys);
        }
        self.set_pixel2(x, y, &color);
        while x < xe
            invariant
                self.wf(),
                self.width == w,
                self.height == h,
                f0 == old(self).frame_buf@,
                f0.len() == w * h,
                self.vertex_buf@ == old(self).vertex_buf@,
                self.indice_buf@ == old(self).indice_buf@,
                self.depth_buf@ == old(self).depth_buf@,
                color == line_color(),
                0 <= dx1 <= 2 * LINE_MAX,
                0 <= dy1 <= dx1,
                dx1 == abs(x2 - x1),
                dy1 == abs(y2 - y1),
                sgn == minor_step(x1 as int, y1 as int, x2 as int, y2 as int),
                sgn == (if up { 1int } else { -1int }),
                xs == (if x2 - x1 >= 0 { x1 } else { x2 }),
                ys == (if x2 - x1 >= 0 { y1 } else { y2 }),
                -LINE_MAX <= ys <= LINE_MAX,
                xe == xs + dx1,
                xs <= x <= xe,
                0 <= off <= x - xs,
                up ==> y == ys + off,
                !up ==> y == ys - off,
                t == (x - xs) * dy1,
                u == dx1 * off,
                -dx1 <= 2 * t - 2 * u,
                dx1 > 0 ==> 2 * t - 2 * u < dx1,
                px == 2 * t - 2 * u + 2 * dy1 - dx1,
                self.frame_buf@ == line_upto(
                    f0,
                    w,
                    h,
                    x1 as int,
                    y1 as int,
                    x2 as int,
                    y2 as int,
                    x as int,
                ),
            decreases xe - x,
        {
            let ghost prev = self.frame_buf@;
            proof {
                assert((x - xs + 1) * dy1 == (x - xs) * dy1 + dy1) by (nonlinear_arith);
            }
            x += 1;
            if px < 0 {
                px += 2 * dy1;
            } else {
                if up {
                    y += 1;
                } else {
                    y -= 1;
                }
                px += 2 * (dy1 - dx1);
                proof {
                    assert(dx1 * (off + 1) == dx1 * off + dx1) by (nonlinear_arith);
                    off = off + 1;
                    u = u + dx1;
                }
            }
            proof {
                t = t + dy1;
                assert(y == ys + sgn * off) by (nonlinear_arith)
                    requires
                        up ==> y == ys + off,
                        !up ==> y == ys - off,
                        sgn == (if up { 1int } else { -1int }),
                ;
                lemma_round_half_up(x - xs, dy1 as int, dx1 as int, off);
                assert forall|a: int, b: int|
                    #[trigger] on_line(x1 as int, y1 as int, x2 as int, y2 as int, a, b) && major(
                        x1 as int,
                        y1 as int,
                        x2 as int,
                        y2 as int,
                        a,
                        b,
                    ) == x implies a == x && b == y by {}
                lemma_line_step(f0, prev, w, h, x1 as int, y1 as int, x2 as int, y2 as int, x as int, y as int);
            }
            self.set_pixel2(x, y, &color);
        }
        proof {
            assert(self.frame_buf@ =~= line_after(
                f0,
                w,
                h,
                x1 as int,
                y1 as int,
                x2 as int,
                y2 as int,
            ));
        }
    }
    /// Traces a line taller than it is wide, row by row.
    fn line_y_major(&mut self, x1: i64, y1: i64, x2: i64, y2: i64)
        requires
            old(self).wf(),
            -LINE_MAX <= x1 <= LINE_MAX,
            -LINE_MAX <= y1 <= LINE_MAX,
            -LINE_MAX <= x2 <= LINE_MAX,
            -LINE_MAX <= y2 <= LINE_MAX,
            abs(y2 - y1) > abs(x2 - x1),
        ensures
            final(self).wf(),
            final(self).width == old(self).width,
            final(self).height == old(self).height,
            final(self).vertex_buf@ == old(self).vertex_buf@,
            final(self).indice_buf@ == old(self).indice_buf@,
            final(self).depth_buf@ == old(self).depth_buf@,
            final(self).frame_buf@ == line_after(
                old(self).frame_buf@,
                old(self).width as int,
                old(self).height as int,
                x1 as int,
                y1 as int,
                x2 as int,
                y2 as int,
            ),
    {
        let ghost w = self.width as int;
        let ghost h = self.height as int;
        let ghost f0 = self.frame_buf@;
        let color = Color::new(238, 217, 185);
        let dx = x2 - x1;
        let dy = y2 - y1;
        let dx1 = if dx < 0 {
            -dx
        } else {
            dx
        };
        let dy1 = if dy < 0 {
            -dy
        } else {
            dy
        };
        let up = (dx < 0 && dy < 0) || (dx > 0 && dy > 0);
        let mut py = 2 * dx1 - dy1;
        let mut x = if dy >= 0 {
            x1
        } else {
            x2
        };
        let mut y = if dy >= 0 {
            y1
        } else {
            y2
        };
        let ye = if dy >= 0 {
            y2
        } else {
            y1
        };
        let ghost xs = x as int;
        let ghost ys = y as int;
        let ghost sgn: int = if up {
            1
        } else {
            -1
        };
        let ghost mut off: int = 0;
        let ghost mut t: int = 0;
        let ghost mut u: int = 0;
        proof {
            assert(dy1 * 0 == 0);
            assert(sgn == minor_step(x1 as int, y1 as int, x2 as int, y2 as int));
            assert(self.frame_buf@ =~= line_upto(
                f0,
                w,
                h,
                x1 as int,
                y1 as int,
                x2 as int,
                y2 as int,
                ys - 1,
            ));
            lemma_round_half_down(0, dx1 as int, dy1 as int, 0);
            assert(0 * dx1 == 0);
            assert forall|a: int, b: int|
                #[trigger] on_line(x1 as int, y1 as int, x2 as int, y2 as int, a, b) && major(
                    x1 as int,
                    y1 as int,
                    x2 as int,
                    y2 as int,
                    a,
                    b,
                ) == ys implies a == xs && b == ys by {}
            lemma_line_step(f0, self.frame_buf@, w, h, x1 as int, y1 as int, x2 as int, y2 as int, xs, ys);
        }
        self.set_pixel2(x, y, &color);
        while y < ye
            invariant
                self.wf(),
                self.width == w,
                self.height == h,
                f0 == old(self).frame_buf@,
                f0.len() == w * h,
                self.vertex_buf@ == old(self).vertex_buf@,
                self.indice_buf@ == old(self).indice_buf@,
                self.depth_buf@ == old(self).depth_buf@,
                color == line_color(),
                0 <= dy1 <= 2 * LINE_MAX,
                0 <= dx1 < dy1,
                dx1 == abs(x2 - x1),
                dy1 == abs(y2 - y1),
                sgn == minor_step(x1 as int, y1 as int, x2 as int, y2 as int),
                sgn == (if up { 1int } else { -1int }),
                xs == (if y2 - y1 >= 0 { x1 } else { x2 }),
                ys == (if y2 - y1 >= 0 { y1 } else { y2 }),
                -LINE_MAX <= xs <= LINE_MAX,
                ye == ys + dy1,
                ys <= y <= ye,
                0 <= off <= y - ys,
                up ==> x == xs + off,
                !up ==> x == xs - off,
                t == (y - ys) * dx1,
                u == dy1 * off,
                -dy1 < 2 * t - 2 * u <= dy1,
                py == 2 * t - 2 * u + 2 * dx1 - dy1,
                self.frame_buf@ == line_upto(
                    f0,
                    w,
                    h,
                    x1 as int,
                    y1 as int,
                    x2 as int,
                    y2 as int,
                    y as int,
                ),
            decreases ye - y,
        {
            let ghost prev = self.frame_buf@;
            proof {
                assert((y - ys + 1) * dx1 == (y - ys) * dx1 + dx1) by (nonlinear_arith);
            }
            y += 1;
            if py <= 0 {
                py += 2 * dx1;
            } else {
                if up {
                    x += 1;
                } else {
                    x -= 1;
                }
                py += 2 * (dx1 - dy1);
                proof {
                    assert(dy1 * (off + 1) == dy1 * off + dy1) by (nonlinear_arith);
                    off = off + 1;
                    u = u + dy1;
                }
            }
            proof {
                t = t + dx1;
                assert(x == xs + sgn * off) by (nonlinear_arith)
                    requires
                        up ==> x == xs + off,
                        !up ==> x == xs - off,
                        sgn == (if up { 1int } else { -1int }),
                ;
                lemma_round_half_down(y - ys, dx1 as int, dy1 as int, off);
                assert forall|a: int, b: int|
                    #[trigger] on_line(x1 as int, y1 as int, x2 as int, y2 as int, a, b) && major(
                        x1 as int,
                        y1 as int,
                        x2 as int,
                        y2 as int,
                        a,
                        b,
                    ) == y implies a == x && b == y by {}
                lemma_line_step(f0, prev, w, h, x1 as int, y1 as int, x2 as int, y2 as int, x as int, y as int);
            }
            self.set_pixel2(x, y, &color);
        }
        proof {
            assert(self.frame_buf@ =~= line_after(
                f0,
                w,
                h,
                x1 as int,
                y1 as int,
                x2 as int,
                y2 as int,
            ));
        }
    }
    /// Draws the line between the pixels that `begin` and `end` fall in
    /// (coordinates truncated toward zero) in the line colour, by Bresenham's
    /// integer algorithm; pixels off screen are skipped.
    pub fn draw_line(&mut self, begin: Point, end: Point)
        requires
            old(self).wf(),
            begin.in_range(),
            end.in_range(),
        ensures
            final(self).wf(),
            final(self).spec_width() == old(self).spec_width(),
            final(self).spec_height() == old(self).spec_height(),
            final(self).vertices() == old(self).vertices(),
            final(self).indices() == old(self).indices(),
            final(self).depth() == old(self).depth(),
            final(self).frame() == line_after(
                old(self).frame(),
                old(self).spec_width(),
                old(self).spec_height(),
                div_toward_zero(begin.x as int, SUBPIXEL as int),
                div_toward_zero(begin.y as int, SUBPIXEL as int),
                div_toward_zero(end.x as int, SUBPIXEL as int),
                div_toward_zero(end.y as int, SUBPIXEL as int),
            ),
    {
        let x1 = to_pixel_toward_zero(begin.x);
        let y1 = to_pixel_toward_zero(begin.y);
        let x2 = to_pixel_toward_zero(end.x);
        let y2 = to_pixel_toward_zero(end.y);
        let dx1 = if x2 < x1 {
            x1 - x2
        } else {
            x2 - x1
        };
        let dy1 = if y2 < y1 {
            y1 - y2
        } else {
            y2 - y1
        };
        if dy1 <= dx1 {
            self.line_x_major(x1, y1, x2, y2);
        } else {
            self.line_y_major(x1, y1, x2, y2);
        }
    }

    /// Outlines `t`: the edges from its third vertex to its first and to its
    /// second, then from its second to its first.
    pub fn rasterize_wireframe(&mut self, t: &Triangle)
        requires
            old(self).wf(),
            t.wf(),
        ensures
            final(self).wf(),
            final(self).spec_width() == old(self).spec_width(),
            final(self).spec_height() == old(self).spec_height(),
            final(self).vertices() == old(self).vertices(),
            final(self).indices() == old(self).indices(),
            final(self).depth() == old(self).depth(),
            final(self).frame() == edge_after(
                edge_after(
                    edge_after(
                        old(self).frame(),
                        old(self).spec_width(),
                        old(self).spec_height(),
                        t.v[2],
                        t.v[0],
                    ),
                    old(self).spec_width(),
                    old(self).spec_height(),
                    t.v[2],
                    t.v[1],
                ),
                old(self).spec_width(),
                old(self).spec_height(),
                t.v[1],
                t.v[0],
            ),
    {
        self.draw_line(t.c(), t.a());
        self.draw_line(t.c(), t.b());
        self.draw_line(t.b(), t.a());
    }
}

} // verus!
