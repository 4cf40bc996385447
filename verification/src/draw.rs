//! Drawing on packed RGB frames: single pixels, filled dots, Bresenham lines
//! and the hand skeleton.
use vstd::prelude::*;
use vstd::arithmetic::div_mod::{
    lemma_fundamental_div_mod, lemma_fundamental_div_mod_converse, lemma_mod_bound,
    lemma_div_pos_is_pos,
};
use crate::frame::{Frame, frame_indexable};
use crate::geometry::{hand_connections, hand_connections_spec};

verus! {

/// Offset of the red byte of pixel (x, y) in a frame of the given width.
pub open spec fn pixel_offset(width: int, x: int, y: int) -> int {
    (y * width + x) * 3
}

/// The pixel, as (x, y), that byte `i` of a frame of the given width belongs to.
pub open spec fn byte_pixel(width: int, i: int) -> (int, int) {
    ((i / 3) % width, (i / 3) / width)
}

/// Byte `i` of a buffer of length `len` lies in a pixel of `pixels` that is
/// inside the `width` x `height` frame and whose three bytes are all present.
pub open spec fn paints_byte(len: int, width: int, height: int, pixels: Set<(int, int)>, i: int) -> bool {
    &&& width > 0
    &&& (i / 3) / width < height
    &&& pixels.contains(byte_pixel(width, i))
    &&& (i / 3) * 3 + 2 < len
}

/// `data` with every pixel of `pixels` that lies in the frame, and whose three
/// bytes are present, set to `color`; every other byte unchanged.
pub open spec fn paint_set(data: Seq<u8>, width: int, height: int, pixels: Set<(int, int)>, color: Seq<u8>) -> Seq<u8> {
    Seq::new(data.len(), |i: int|
        if paints_byte(data.len() as int, width, height, pixels, i) { color[i % 3] } else { data[i] })
}

/// Painting two sets of pixels one after the other in the same colour is
/// painting their union.
pub proof fn lemma_paint_union(data: Seq<u8>, width: int, height: int, a: Set<(int, int)>, b: Set<(int, int)>, color: Seq<u8>)
    ensures
        paint_set(paint_set(data, width, height, a, color), width, height, b, color)
            == paint_set(data, width, height, a.union(b), color),
{
    assert(paint_set(paint_set(data, width, height, a, color), width, height, b, color)
        =~= paint_set(data, width, height, a.union(b), color));
}

/// Painting no pixel leaves the buffer as it is.
pub proof fn lemma_paint_empty(data: Seq<u8>, width: int, height: int, color: Seq<u8>)
    ensures
        paint_set(data, width, height, Set::empty(), color) == data,
{
    assert(paint_set(data, width, height, Set::empty(), color) =~= data);
}

/// Byte `i` belongs to pixel (x, y) exactly when it is one of the three bytes
/// that start at that pixel's offset.
proof fn lemma_byte_pixel(width: int, x: int, y: int, i: int)
    requires
        width > 0,
        0 <= x < width,
        0 <= y,
        0 <= i,
    ensures
        (byte_pixel(width, i) == (x, y)) <==> (pixel_offset(width, x, y) <= i < pixel_offset(width, x, y) + 3),
        pixel_offset(width, x, y) <= i < pixel_offset(width, x, y) + 3 ==> {
            &&& i % 3 == i - pixel_offset(width, x, y)
            &&& (i / 3) * 3 == pixel_offset(width, x, y)
        },
{
    let k = y * width + x;
    assert(y * width >= 0) by (nonlinear_arith)
        requires y >= 0, width > 0;
    lemma_fundamental_div_mod(i, 3);
    lemma_mod_bound(i, 3);
    if pixel_offset(width, x, y) <= i < pixel_offset(width, x, y) + 3 {
        lemma_fundamental_div_mod_converse(i, 3, k, i - 3 * k);
        assert(k == y * width + x);
        lemma_fundamental_div_mod_converse(k, width, y, x);
    }
    if byte_pixel(width, i) == (x, y) {
        lemma_div_pos_is_pos(i, 3);
        lemma_fundamental_div_mod(i / 3, width);
        assert(i / 3 == width * y + x);
        assert(width * y == y * width) by (nonlinear_arith);
    }
}

/// Facts about the pixel of any byte: its column lies in the row, its row is
/// not negative, and its offset is the byte index rounded down to a multiple of three.
proof fn lemma_byte_pixel_range(width: int, i: int)
    requires
        width > 0,
        0 <= i,
    ensures
        0 <= byte_pixel(width, i).0 < width,
        0 <= byte_pixel(width, i).1,
        pixel_offset(width, byte_pixel(width, i).0, byte_pixel(width, i).1) == (i / 3) * 3,
{
    lemma_div_pos_is_pos(i, 3);
    lemma_mod_bound(i / 3, width);
    lemma_div_pos_is_pos(i / 3, width);
    lemma_fundamental_div_mod(i / 3, width);
    let x = byte_pixel(width, i).0;
    let y = byte_pixel(width, i).1;
    assert(width * y == y * width) by (nonlinear_arith);
}

/// Sets pixel (x, y) to `color`.  Nothing happens when the pixel lies outside
/// the frame or when its bytes are not all present in `data`.
pub fn set_pixel_rgb(frame: &mut Frame, x: i32, y: i32, color: [u8; 3])
    requires
        frame_indexable(old(frame).width as int, old(frame).height as int),
    ensures
        final(frame).width == old(frame).width,
        final(frame).height == old(frame).height,
        final(frame).data@ == paint_set(
            old(frame).data@,
            old(frame).width as int,
            old(frame).height as int,
            set![(x as int, y as int)],
            color@,
        ),
{
    let ghost old_data = frame.data@;
    let ghost w = frame.width as int;
    let ghost h = frame.height as int;
    if x < 0 || y < 0 {
        proof {
            assert forall|i: int| 0 <= i < old_data.len() implies
                !paints_byte(old_data.len() as int, w, h, set![(x as int, y as int)], i) by {
                if w > 0 {
                    lemma_byte_pixel_range(w, i);
                }
            }
            assert(paint_set(old_data, w, h, set![(x as int, y as int)], color@) =~= old_data);
        }
        return;
    }
    let xu = x as usize;
    let yu = y as usize;
    if xu >= frame.width || yu >= frame.height {
        proof {
            assert forall|i: int| 0 <= i < old_data.len() implies
                !paints_byte(old_data.len() as int, w, h, set![(x as int, y as int)], i) by {
                if w > 0 {
                    lemma_byte_pixel_range(w, i);
                }
            }
            assert(paint_set(old_data, w, h, set![(x as int, y as int)], color@) =~= old_data);
        }
        return;
    }
    proof {
        assert((yu as int) * w + (xu as int) < w * h) by (nonlinear_arith)
            requires 0 <= xu < w, 0 <= yu < h;
        assert(yu as int * w >= 0) by (nonlinear_arith)
            requires yu >= 0, w >= 0;
    }
    let idx = (yu * frame.width + xu) * 3;
    if idx + 2 >= frame.data.len() {
        proof {
            assert forall|i: int| 0 <= i < old_data.len() implies
                !paints_byte(old_data.len() as int, w, h, set![(x as int, y as int)], i) by {
                lemma_byte_pixel(w, x as int, y as int, i);
            }
            assert(paint_set(old_data, w, h, set![(x as int, y as int)], color@) =~= old_data);
        }
        return;
    }
    frame.data[idx] = color[0];
    frame.data[idx + 1] = color[1];
    frame.data[idx + 2] = color[2];
    proof {
        let painted = paint_set(old_data, w, h, set![(x as int, y as int)], color@);
        assert forall|i: int| 0 <= i < old_data.len() implies frame.data@[i] == painted[i] by {
            lemma_byte_pixel(w, x as int, y as int, i);
            if idx <= i < idx + 3 {
                assert(paints_byte(old_data.len() as int, w, h, set![(x as int, y as int)], i));
            } else {
                assert(!paints_byte(old_data.len() as int, w, h, set![(x as int, y as int)], i));
            }
        }
        assert(frame.data@ =~= painted);
    }
}


/// The filled disk of radius `r` around (cx, cy): the points whose offsets
/// from the centre lie within `r` on each axis and whose squared distance is
/// at most `r * r`.  Empty when `r` is negative.
pub open spec fn disk(cx: int, cy: int, r: int) -> Set<(int, int)> {
    Set::new(|p: (int, int)|
        -r <= p.0 - cx <= r && -r <= p.1 - cy <= r
            && (p.0 - cx) * (p.0 - cx) + (p.1 - cy) * (p.1 - cy) <= r * r)
}

/// The part of `disk(cx, cy, r)` in the rows above offset `dy`, and in row
/// `dy` left of offset `dx`.
spec fn disk_prefix(cx: int, cy: int, r: int, dy: int, dx: int) -> Set<(int, int)> {
    Set::new(|p: (int, int)|
        disk(cx, cy, r).contains(p) && (p.1 - cy < dy || (p.1 - cy == dy && p.0 - cx < dx)))
}

/// Paints the filled disk of the given radius around `center`, clipped to the frame.
pub fn draw_dot_rgb(frame: &mut Frame, center: (i32, i32), radius: i32, color: [u8; 3])
    requires
        frame_indexable(old(frame).width as int, old(frame).height as int),
        i32::MIN < radius <= 0x7fff,
        radius < 0 || (i32::MIN <= center.0 - radius && center.0 + radius <= i32::MAX
            && i32::MIN <= center.1 - radius && center.1 + radius <= i32::MAX),
    ensures
        final(frame).width == old(frame).width,
        final(frame).height == old(frame).height,
        final(frame).data@ == paint_set(
            old(frame).data@,
            old(frame).width as int,
            old(frame).height as int,
            disk(center.0 as int, center.1 as int, radius as int),
            color@,
        ),
{
    let ghost old_data = frame.data@;
    let ghost w = frame.width as int;
    let ghost h = frame.height as int;
    let ghost cxi = center.0 as int;
    let ghost cyi = center.1 as int;
    let ghost r = radius as int;
    let (cx, cy) = center;
    if radius < 0 {
        proof {
            assert(disk(cxi, cyi, r) =~= Set::empty());
            lemma_paint_empty(old_data, w, h, color@);
        }
        return;
    }
    proof {
        assert(disk_prefix(cxi, cyi, r, -r, -r) =~= Set::empty());
        lemma_paint_empty(old_data, w, h, color@);
    }
    let mut dy: i32 = -radius;
    while dy <= radius
        invariant
            0 <= radius <= 0x7fff,
            -radius <= dy <= radius + 1,
            i32::MIN <= cx - radius, cx + radius <= i32::MAX,
            i32::MIN <= cy - radius, cy + radius <= i32::MAX,
            cxi == cx, cyi == cy, r == radius,
            frame.width == w, frame.height == h,
            frame_indexable(w, h),
            frame.data@ == paint_set(old_data, w, h, disk_prefix(cxi, cyi, r, dy as int, -r), color@),
        decreases radius + 1 - dy,
    {
        let mut dx: i32 = -radius;
        while dx <= radius
            invariant
                0 <= radius <= 0x7fff,
                -radius <= dy <= radius,
                -radius <= dx <= radius + 1,
                i32::MIN <= cx - radius, cx + radius <= i32::MAX,
                i32::MIN <= cy - radius, cy + radius <= i32::MAX,
                cxi == cx, cyi == cy, r == radius,
                frame.width == w, frame.height == h,
                frame_indexable(w, h),
                frame.data@ == paint_set(old_data, w, h, disk_prefix(cxi, cyi, r, dy as int, dx as int), color@),
            decreases radius + 1 - dx,
        {
            proof {
                assert(dx * dx <= radius * radius) by (nonlinear_arith)
                    requires -radius <= dx <= radius;
                assert(dy * dy <= radius * radius) by (nonlinear_arith)
                    requires -radius <= dy <= radius;
                assert(radius * radius <= 0x7fff * 0x7fff) by (nonlinear_arith)
                    requires 0 <= radius <= 0x7fff;
                assert(dx * dx >= 0) by (nonlinear_arith);
                assert(dy * dy >= 0) by (nonlinear_arith);
            }
            let ghost before = disk_prefix(cxi, cyi, r, dy as int, dx as int);
            let ghost p = (cxi + dx, cyi + dy);
            if dx * dx + dy * dy <= radius * radius {
                set_pixel_rgb(frame, cx + dx, cy + dy, color);
                proof {
                    lemma_paint_union(old_data, w, h, before, set![p], color@);
                    assert(before.union(set![p]) =~= disk_prefix(cxi, cyi, r, dy as int, dx + 1));
                }
            } else {
                proof {
                    assert(before =~= disk_prefix(cxi, cyi, r, dy as int, dx + 1));
                }
            }
            dx = dx + 1;
        }
        proof {
            assert(disk_prefix(cxi, cyi, r, dy as int, r + 1) =~= disk_prefix(cxi, cyi, r, dy + 1, -r));
        }
        dy = dy + 1;
    }
    proof {
        assert(disk_prefix(cxi, cyi, r, r + 1, -r) =~= disk(cxi, cyi, r));
    }
}


/// The set of points that occur in `s`.
pub open spec fn points_of(s: Seq<(int, int)>) -> Set<(int, int)> {
    Set::new(|p: (int, int)| s.contains(p))
}

/// Absolute value on mathematical integers.
pub open spec fn iabs(v: int) -> int {
    if v < 0 { -v } else { v }
}

/// One step of the line walk from state (x, y, err): move along x when
/// `2 * err >= dy`, along y when `2 * err <= dx`, or both.
pub open spec fn line_next(s: (int, int, int), dx: int, dy: int, sx: int, sy: int) -> (int, int, int) {
    let e2 = 2 * s.2;
    let after_x = if e2 >= dy { (s.0 + sx, s.1, s.2 + dy) } else { s };
    if e2 <= dx { (after_x.0, after_x.1 + sy, after_x.2 + dx) } else { after_x }
}

/// The points visited by the line walk from state `s` until it reaches `end`,
/// taking at most `fuel` points.
pub open spec fn line_walk(s: (int, int, int), end: (int, int), dx: int, dy: int, sx: int, sy: int, fuel: nat) -> Seq<(int, int)>
    decreases fuel,
{
    if fuel == 0 {
        Seq::empty()
    } else if s.0 == end.0 && s.1 == end.1 {
        seq![(s.0, s.1)]
    } else {
        seq![(s.0, s.1)] + line_walk(line_next(s, dx, dy, sx, sy), end, dx, dy, sx, sy, (fuel - 1) as nat)
    }
}

/// The pixels of the Bresenham line from `p0` to `p1`, in drawing order.
pub open spec fn line_pixels(p0: (int, int), p1: (int, int)) -> Seq<(int, int)> {
    let dx = iabs(p1.0 - p0.0);
    let dy = -iabs(p1.1 - p0.1);
    let sx = if p0.0 < p1.0 { 1int } else { -1int };
    let sy = if p0.1 < p1.1 { 1int } else { -1int };
    line_walk((p0.0, p0.1, dx + dy), p1, dx, dy, sx, sy, (dx - dy + 1) as nat)
}

/// The larger of two integers.
pub open spec fn imax(a: int, b: int) -> int {
    if a < b { b } else { a }
}

/// The walk invariant of Bresenham's algorithm, with `a = |dx|`, `b = |dy|`
/// and `X`, `Y` the steps taken along each axis: the walk never passes the end
/// on either axis, and `f = Y * a - X * b` (twice the signed area between the
/// walk and the ideal line) stays within half the larger extent.
pub open spec fn line_walk_inv(a: int, b: int, steps_x: int, steps_y: int) -> bool {
    &&& a >= 0
    &&& b >= 0
    &&& 0 <= steps_x <= a
    &&& 0 <= steps_y <= b
    &&& -imax(a, b) <= 2 * (steps_y * a - steps_x * b) <= imax(a, b)
}

/// One step of the walk keeps its invariant, always makes progress, and never
/// steps past the end on either axis.
pub proof fn lemma_line_step(a: int, b: int, steps_x: int, steps_y: int)
    requires
        line_walk_inv(a, b, steps_x, steps_y),
        !(steps_x == a && steps_y == b),
    ensures
        ({
            let f = steps_y * a - steps_x * b;
            let e2 = 2 * (a - b + f);
            let move_x = e2 >= -b;
            let move_y = e2 <= a;
            let nx = if move_x { steps_x + 1 } else { steps_x };
            let ny = if move_y { steps_y + 1 } else { steps_y };
            &&& move_x || move_y
            &&& a >= b ==> move_x
            &&& b >= a ==> move_y
            &&& line_walk_inv(a, b, nx, ny)
            &&& nx * b == steps_x * b + (if move_x { b } else { 0 })
            &&& ny * a == steps_y * a + (if move_y { a } else { 0 })
        }),
{
    let f = steps_y * a - steps_x * b;
    let e2 = 2 * (a - b + f);
    let m = imax(a, b);
    assert((steps_x + 1) * b == steps_x * b + b) by (nonlinear_arith);
    assert((steps_y + 1) * a == steps_y * a + a) by (nonlinear_arith);
    if e2 >= -b && steps_x == a {
        // Then steps_y < b, so f = a * (steps_y - b) <= -a, which contradicts e2 >= -b unless b == 0.
        assert(steps_y * a <= (b - 1) * a) by (nonlinear_arith)
            requires steps_y <= b - 1, a >= 0;
        assert((b - 1) * a == b * a - a) by (nonlinear_arith);
        assert(steps_x * b == a * b) by (nonlinear_arith)
            requires steps_x == a;
        assert(b * a == a * b) by (nonlinear_arith);
    }
    if e2 <= a && steps_y == b {
        // Then steps_x < a, so f = b * (a - steps_x) >= b, which contradicts e2 <= a unless a == 0.
        assert(steps_x * b <= (a - 1) * b) by (nonlinear_arith)
            requires steps_x <= a - 1, b >= 0;
        assert((a - 1) * b == a * b - b) by (nonlinear_arith);
        assert(steps_y * a == b * a) by (nonlinear_arith)
            requires steps_y == b;
        assert(b * a == a * b) by (nonlinear_arith);
    }
}

/// Draws the Bresenham line from `p0` to `p1`, both ends included, clipped to the frame.
pub fn draw_line_rgb(frame: &mut Frame, p0: (i32, i32), p1: (i32, i32), color: [u8; 3])
    requires
        frame_indexable(old(frame).width as int, old(frame).height as int),
        iabs(p1.0 - p0.0) <= 0x2000_0000,
        iabs(p1.1 - p0.1) <= 0x2000_0000,
    ensures
        final(frame).width == old(frame).width,
        final(frame).height == old(frame).height,
        final(frame).data@ == paint_set(
            old(frame).data@,
            old(frame).width as int,
            old(frame).height as int,
            points_of(line_pixels((p0.0 as int, p0.1 as int), (p1.0 as int, p1.1 as int))),
            color@,
        ),
{
    let ghost old_data = frame.data@;
    let ghost w = frame.width as int;
    let ghost h = frame.height as int;
    let ghost start = (p0.0 as int, p0.1 as int);
    let ghost end = (p1.0 as int, p1.1 as int);
    let (mut x0, mut y0) = p0;
    let (x1, y1) = p1;

    let ddx = x1 - x0;
    let dx = if ddx < 0 { -ddx } else { ddx };
    let sx: i32 = if x0 < x1 { 1 } else { -1 };
    let ddy = y1 - y0;
    let dy = if ddy < 0 { ddy } else { -ddy };
    let sy: i32 = if y0 < y1 { 1 } else { -1 };
    let mut err = dx + dy;

    let ghost a = dx as int;
    let ghost b = -(dy as int);
    let ghost fuel0 = (a + b + 1) as nat;
    let ghost mut steps_x: int = 0;
    let ghost mut steps_y: int = 0;
    let ghost mut taken: int = 0;
    let ghost mut visited: Seq<(int, int)> = Seq::empty();
    proof {
        assert(visited + line_walk((x0 as int, y0 as int, err as int), end, a, -b, sx as int, sy as int, fuel0)
            =~= line_pixels(start, end));
        assert(points_of(visited) =~= Set::empty());
        lemma_paint_empty(old_data, w, h, color@);
        assert(0 * a == 0 && 0 * b == 0) by (nonlinear_arith);
    }

    loop
        invariant_except_break
            line_pixels(start, end) == visited + line_walk(
                (x0 as int, y0 as int, err as int), end, a, -b, sx as int, sy as int, (fuel0 - taken) as nat),
            frame.data@ == paint_set(old_data, w, h, points_of(visited), color@),
        invariant
            frame.width == w,
            frame.height == h,
            frame_indexable(w, h),
            a == dx, b == -dy, 0 <= a <= 0x2000_0000, 0 <= b <= 0x2000_0000,
            sx == (if start.0 < end.0 { 1int } else { -1int }),
            sy == (if start.1 < end.1 { 1int } else { -1int }),
            a == iabs(end.0 - start.0), b == iabs(end.1 - start.1),
            x1 == end.0, y1 == end.1,
            x0 == start.0 + sx * steps_x,
            y0 == start.1 + sy * steps_y,
            line_walk_inv(a, b, steps_x, steps_y),
            err == a - b + (steps_y * a - steps_x * b),
            0 <= taken <= steps_x + steps_y,
            fuel0 == a + b + 1,
        ensures
            frame.width == w,
            frame.height == h,
            frame.data@ == paint_set(old_data, w, h, points_of(line_pixels(start, end)), color@),
        decreases (a - steps_x) + (b - steps_y),
    {
        let ghost cur = (x0 as int, y0 as int);
        let ghost before = visited;
        set_pixel_rgb(frame, x0, y0, color);
        proof {
            lemma_paint_union(old_data, w, h, points_of(before), set![cur], color@);
            visited = visited.push(cur);
            assert(points_of(before).union(set![cur]) =~= points_of(visited)) by {
                assert forall|p: (int, int)| points_of(visited).contains(p) implies
                    points_of(before).union(set![cur]).contains(p) by {
                    let i = choose|i: int| 0 <= i < visited.len() && visited[i] == p;
                    if i < before.len() {
                        assert(before[i] == p);
                    }
                }
                assert forall|p: (int, int)| points_of(before).union(set![cur]).contains(p) implies
                    points_of(visited).contains(p) by {
                    if p == cur {
                        assert(visited[before.len() as int] == p);
                    } else {
                        let i = choose|i: int| 0 <= i < before.len() && before[i] == p;
                        assert(visited[i] == p);
                    }
                }
            }
        }
        if x0 == x1 && y0 == y1 {
            proof {
                assert(line_walk((x0 as int, y0 as int, err as int), end, a, -b, sx as int, sy as int, (fuel0 - taken) as nat)
                    == seq![cur]);
                assert(line_pixels(start, end) =~= visited);
            }
            break;
        }
        proof {
            if steps_x == a && steps_y == b {
                assert(sx * steps_x == end.0 - start.0) by (nonlinear_arith)
                    requires sx == (if start.0 < end.0 { 1int } else { -1int }), a == iabs(end.0 - start.0), steps_x == a;
                assert(sy * steps_y == end.1 - start.1) by (nonlinear_arith)
                    requires sy == (if start.1 < end.1 { 1int } else { -1int }), b == iabs(end.1 - start.1), steps_y == b;
            }
            lemma_line_step(a, b, steps_x, steps_y);
            assert(sx * (steps_x + 1) == sx * steps_x + sx) by (nonlinear_arith);
            assert(sy * (steps_y + 1) == sy * steps_y + sy) by (nonlinear_arith);
            assert(sx * steps_x <= a && -a <= sx * steps_x) by (nonlinear_arith)
                requires sx == 1 || sx == -1, 0 <= steps_x <= a;
            assert(sy * steps_y <= b && -b <= sy * steps_y) by (nonlinear_arith)
                requires sy == 1 || sy == -1, 0 <= steps_y <= b;
            assert(steps_y * a - steps_x * b <= 0x2000_0000 && -0x2000_0000 <= steps_y * a - steps_x * b);
            let rest = line_walk(line_next((x0 as int, y0 as int, err as int), a, -b, sx as int, sy as int),
                end, a, -b, sx as int, sy as int, (fuel0 - taken - 1) as nat);
            assert(line_walk((x0 as int, y0 as int, err as int), end, a, -b, sx as int, sy as int, (fuel0 - taken) as nat)
                == seq![cur] + rest);
            assert(before + (seq![cur] + rest) =~= visited + rest);
        }
        let e2 = err * 2;
        if e2 >= dy {
            err = err + dy;
            x0 = x0 + sx;
            proof { steps_x = steps_x + 1; }
        }
        if e2 <= dx {
            err = err + dx;
            y0 = y0 + sy;
            proof { steps_y = steps_y + 1; }
        }
        proof { taken = taken + 1; }
    }
}


/// `p` lies in the bounding box of `p0` and `p1`.
pub open spec fn in_box(p: (int, int), p0: (int, int), p1: (int, int)) -> bool {
    &&& (if p0.0 <= p1.0 { p0.0 <= p.0 <= p1.0 } else { p1.0 <= p.0 <= p0.0 })
    &&& (if p0.1 <= p1.1 { p0.1 <= p.1 <= p1.1 } else { p1.1 <= p.1 <= p0.1 })
}

/// `p` and `q` are distinct 8-neighbours.
pub open spec fn adjacent(p: (int, int), q: (int, int)) -> bool {
    &&& -1 <= p.0 - q.0 <= 1
    &&& -1 <= p.1 - q.1 <= 1
    &&& p != q
}

/// The shape of the walk from any reachable state: one point per step along
/// the major axis, starting where the walk stands and ending at `end`.
proof fn lemma_line_walk_shape(
    start: (int, int),
    end: (int, int),
    sx: int,
    sy: int,
    steps_x: int,
    steps_y: int,
    fuel: nat,
)
    requires
        sx == (if start.0 < end.0 { 1int } else { -1int }),
        sy == (if start.1 < end.1 { 1int } else { -1int }),
        line_walk_inv(iabs(end.0 - start.0), iabs(end.1 - start.1), steps_x, steps_y),
        fuel >= (iabs(end.0 - start.0) - steps_x) + (iabs(end.1 - start.1) - steps_y) + 1,
    ensures
        ({
            let a = iabs(end.0 - start.0);
            let b = iabs(end.1 - start.1);
            let pos = (start.0 + sx * steps_x, start.1 + sy * steps_y);
            let walk = line_walk((pos.0, pos.1, a - b + (steps_y * a - steps_x * b)), end, a, -b, sx, sy, fuel);
            &&& walk.len() == (if a >= b { a - steps_x } else { b - steps_y }) + 1
            &&& walk[0] == pos
            &&& walk.last() == end
            &&& forall|k: int| 0 <= k < walk.len() ==> in_box(#[trigger] walk[k], start, end)
            &&& forall|k: int| 0 <= k < walk.len() - 1 ==> adjacent(#[trigger] walk[k], walk[k + 1])
        }),
    decreases fuel,
{
    let a = iabs(end.0 - start.0);
    let b = iabs(end.1 - start.1);
    let pos = (start.0 + sx * steps_x, start.1 + sy * steps_y);
    let st = (pos.0, pos.1, a - b + (steps_y * a - steps_x * b));
    assert(in_box(pos, start, end)) by {
        assert(0 <= sx * steps_x <= a || (-a <= sx * steps_x <= 0)) by (nonlinear_arith)
            requires sx == 1 || sx == -1, 0 <= steps_x <= a;
        assert(sx == 1 ==> sx * steps_x == steps_x) by (nonlinear_arith);
        assert(sx == -1 ==> sx * steps_x == -steps_x) by (nonlinear_arith);
        assert(sy == 1 ==> sy * steps_y == steps_y) by (nonlinear_arith);
        assert(sy == -1 ==> sy * steps_y == -steps_y) by (nonlinear_arith);
    }
    if steps_x == a && steps_y == b {
        assert(sx * steps_x == end.0 - start.0) by (nonlinear_arith)
            requires sx == (if start.0 < end.0 { 1int } else { -1int }), a == iabs(end.0 - start.0), steps_x == a;
        assert(sy * steps_y == end.1 - start.1) by (nonlinear_arith)
            requires sy == (if start.1 < end.1 { 1int } else { -1int }), b == iabs(end.1 - start.1), steps_y == b;
        assert(line_walk(st, end, a, -b, sx, sy, fuel) == seq![pos]);
    } else {
        if pos.0 == end.0 && pos.1 == end.1 {
            assert(steps_x == a) by (nonlinear_arith)
                requires sx == (if start.0 < end.0 { 1int } else { -1int }), a == iabs(end.0 - start.0),
                    start.0 + sx * steps_x == end.0, 0 <= steps_x <= a;
            assert(steps_y == b) by (nonlinear_arith)
                requires sy == (if start.1 < end.1 { 1int } else { -1int }), b == iabs(end.1 - start.1),
                    start.1 + sy * steps_y == end.1, 0 <= steps_y <= b;
        }
        lemma_line_step(a, b, steps_x, steps_y);
        let f = steps_y * a - steps_x * b;
        let e2 = 2 * (a - b + f);
        let nx = if e2 >= -b { steps_x + 1 } else { steps_x };
        let ny = if e2 <= a { steps_y + 1 } else { steps_y };
        assert(sx * (steps_x + 1) == sx * steps_x + sx) by (nonlinear_arith);
        assert(sy * (steps_y + 1) == sy * steps_y + sy) by (nonlinear_arith);
        assert(line_next(st, a, -b, sx, sy) == (start.0 + sx * nx, start.1 + sy * ny, a - b + (ny * a - nx * b)));
        lemma_line_walk_shape(start, end, sx, sy, nx, ny, (fuel - 1) as nat);
        let rest = line_walk(line_next(st, a, -b, sx, sy), end, a, -b, sx, sy, (fuel - 1) as nat);
        let walk = line_walk(st, end, a, -b, sx, sy, fuel);
        assert(walk == seq![pos] + rest);
        assert(rest[0] == (start.0 + sx * nx, start.1 + sy * ny));
        assert(adjacent(walk[0], walk[1]));
        assert forall|k: int| 0 <= k < walk.len() implies in_box(#[trigger] walk[k], start, end) by {
            if k > 0 {
                assert(walk[k] == rest[k - 1]);
            }
        }
        assert forall|k: int| 0 <= k < walk.len() - 1 implies adjacent(#[trigger] walk[k], walk[k + 1]) by {
            if k > 0 {
                assert(walk[k] == rest[k - 1]);
                assert(walk[k + 1] == rest[k]);
            }
        }
    }
}

/// A Bresenham line is drawn from `p0` to `p1`: its first pixel is `p0`, its
/// last is `p1`, it has one pixel per unit of the longer axis, plus one, it
/// stays in the bounding box of its ends, and each pixel touches the next.
pub proof fn lemma_line_pixels_endpoints(p0: (int, int), p1: (int, int))
    ensures
        line_pixels(p0, p1).len() == imax(iabs(p1.0 - p0.0), iabs(p1.1 - p0.1)) + 1,
        line_pixels(p0, p1)[0] == p0,
        line_pixels(p0, p1).last() == p1,
        forall|k: int| 0 <= k < line_pixels(p0, p1).len() ==> in_box(#[trigger] line_pixels(p0, p1)[k], p0, p1),
        forall|k: int| 0 <= k < line_pixels(p0, p1).len() - 1 ==>
            adjacent(#[trigger] line_pixels(p0, p1)[k], line_pixels(p0, p1)[k + 1]),
{
    let a = iabs(p1.0 - p0.0);
    let b = iabs(p1.1 - p0.1);
    let sx = if p0.0 < p1.0 { 1int } else { -1int };
    let sy = if p0.1 < p1.1 { 1int } else { -1int };
    assert(sx * 0 == 0 && sy * 0 == 0 && 0 * a == 0 && 0 * b == 0) by (nonlinear_arith);
    lemma_line_walk_shape(p0, p1, sx, sy, 0, 0, (a + b + 1) as nat);
}


/// Colour of the skeleton's bones.
pub open spec fn bone_color() -> Seq<u8> {
    seq![0u8, 255u8, 0u8]
}

/// Colour of the skeleton's joints.
pub open spec fn joint_color() -> Seq<u8> {
    seq![255u8, 80u8, 80u8]
}

/// Radius of the dot drawn on each joint.
pub open spec fn joint_radius() -> int {
    2
}

/// A frame point as a pair of mathematical integers.
pub open spec fn point_int(p: (i32, i32)) -> (int, int) {
    (p.0 as int, p.1 as int)
}

/// The pixels of the first `k` bones of the hand whose two landmarks are both
/// among `points`.
pub open spec fn bone_pixels(points: Seq<(i32, i32)>, k: int) -> Set<(int, int)>
    decreases k,
{
    if k <= 0 {
        Set::empty()
    } else {
        let (a, b) = hand_connections_spec()[k - 1];
        let earlier = bone_pixels(points, k - 1);
        if (a as int) < points.len() && (b as int) < points.len() {
            earlier.union(points_of(line_pixels(point_int(points[a as int]), point_int(points[b as int]))))
        } else {
            earlier
        }
    }
}

/// The pixels of the joint dots on the first `n` points.
pub open spec fn joint_pixels(points: Seq<(i32, i32)>, n: int) -> Set<(int, int)>
    decreases n,
{
    if n <= 0 {
        Set::empty()
    } else {
        joint_pixels(points, n - 1).union(disk(points[n - 1].0 as int, points[n - 1].1 as int, joint_radius()))
    }
}

/// Every point is far enough from the limits of `i32` for the skeleton to be drawn.
pub open spec fn skeleton_points_in_range(points: Seq<(i32, i32)>) -> bool {
    forall|i: int| 0 <= i < points.len() ==>
        -0x1000_0000 <= #[trigger] points[i].0 <= 0x1000_0000 && -0x1000_0000 <= points[i].1 <= 0x1000_0000
}

/// Draws the hand skeleton over the frame: first every bone whose two
/// landmarks are present in `points` (green lines), then a red dot of radius
/// two on every point.
pub fn draw_skeleton(frame: &mut Frame, points: &[(i32, i32)])
    requires
        frame_indexable(old(frame).width as int, old(frame).height as int),
        skeleton_points_in_range(points@),
    ensures
        final(frame).width == old(frame).width,
        final(frame).height == old(frame).height,
        final(frame).data@ == paint_set(
            paint_set(
                old(frame).data@,
                old(frame).width as int,
                old(frame).height as int,
                bone_pixels(points@, 21),
                bone_color(),
            ),
            old(frame).width as int,
            old(frame).height as int,
            joint_pixels(points@, points@.len() as int),
            joint_color(),
        ),
{
    let ghost old_data = frame.data@;
    let ghost w = frame.width as int;
    let ghost h = frame.height as int;
    let connections = hand_connections();
    let green: [u8; 3] = [0, 255, 0];
    let red: [u8; 3] = [255, 80, 80];
    assert(green@ =~= bone_color());
    assert(red@ =~= joint_color());
    proof {
        lemma_paint_empty(old_data, w, h, bone_color());
    }
    let mut k: usize = 0;
    while k < 21
        invariant
            0 <= k <= 21,
            connections@ == hand_connections_spec(),
            green@ == bone_color(),
            frame.width == w,
            frame.height == h,
            frame_indexable(w, h),
            skeleton_points_in_range(points@),
            frame.data@ == paint_set(old_data, w, h, bone_pixels(points@, k as int), bone_color()),
        decreases 21 - k,
    {
        let (a, b) = connections[k];
        if a < points.len() && b < points.len() {
            let p0 = points[a];
            let p1 = points[b];
            proof {
                assert(-0x1000_0000 <= points@[a as int].0 <= 0x1000_0000);
                assert(-0x1000_0000 <= points@[b as int].0 <= 0x1000_0000);
            }
            draw_line_rgb(frame, p0, p1, green);
            proof {
                lemma_paint_union(old_data, w, h, bone_pixels(points@, k as int),
                    points_of(line_pixels(point_int(p0), point_int(p1))), bone_color());
            }
        }
        k = k + 1;
    }
    let ghost lined = frame.data@;
    proof {
        lemma_paint_empty(lined, w, h, joint_color());
    }
    let mut i: usize = 0;
    while i < points.len()
        invariant
            0 <= i <= points.len(),
            red@ == joint_color(),
            frame.width == w,
            frame.height == h,
            frame_indexable(w, h),
            skeleton_points_in_range(points@),
            frame.data@ == paint_set(lined, w, h, joint_pixels(points@, i as int), joint_color()),
        decreases points.len() - i,
    {
        let p = points[i];
        proof {
            assert(-0x1000_0000 <= points@[i as int].0 <= 0x1000_0000);
        }
        draw_dot_rgb(frame, p, 2, red);
        proof {
            lemma_paint_union(lined, w, h, joint_pixels(points@, i as int),
                disk(p.0 as int, p.1 as int, 2), joint_color());
        }
        i = i + 1;
    }
}

} // verus!
