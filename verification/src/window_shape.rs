//! The shape of the window with rounded corners, as rows of pixels: the
//! region that the window is clipped to, and the region behind the sidebar
//! that the compositor blurs.
use vstd::prelude::*;

verus! {

/// The radius of the window's rounded corners, in pixels.
pub const WINDOW_RADIUS: i32 = 16;

/// A rectangle of pixels: its top-left corner, width and height.
#[derive(Clone, Copy, Debug, PartialEq, Eq)]
pub struct RegionRect {
    pub x: i32,
    pub y: i32,
    pub width: i32,
    pub height: i32,
}

/// `s` is the whole part of the square root of `n`.
pub open spec fn is_floor_sqrt(s: int, n: int) -> bool {
    0 <= s && s * s <= n && n < (s + 1) * (s + 1)
}

/// The whole part of the square root of `n`, for `n >= 0`.
pub open spec fn floor_sqrt(n: int) -> int {
    choose|s: int| is_floor_sqrt(s, n)
}

proof fn lemma_square_monotone(a: int, b: int)
    by (nonlinear_arith)
    requires
        0 <= a <= b,
    ensures
        a * a <= b * b,
{
}

/// The whole part of a square root is unique.
proof fn lemma_floor_sqrt_unique(s: int, n: int)
    requires
        is_floor_sqrt(s, n),
    ensures
        floor_sqrt(n) == s,
{
    let t = floor_sqrt(n);
    assert(is_floor_sqrt(t, n));
    if t < s {
        lemma_square_monotone(t + 1, s);
    } else if s < t {
        lemma_square_monotone(s + 1, t);
    }
}

/// The whole part of the square root of `n`.
fn isqrt(n: u64) -> (s: u64)
    requires
        n < 0x4000_0000_0000_0000,
    ensures
        is_floor_sqrt(s as int, n as int),
        s < 0x8000_0000,
{
    let mut lo: u64 = 0;
    let mut hi: u64 = 0x8000_0000;
    assert(0x8000_0000u64 * 0x8000_0000u64 == 0x4000_0000_0000_0000u64) by (nonlinear_arith);
    while hi - lo > 1
        invariant
            lo < hi <= 0x8000_0000,
            lo * lo <= n,
            n < hi * hi,
        decreases hi - lo,
    {
        let mid = lo + (hi - lo) / 2;
        assert(mid * mid <= 0x8000_0000u64 * 0x8000_0000u64) by (nonlinear_arith)
            requires
                mid <= 0x8000_0000u64,
        ;
        if mid * mid <= n {
            lo = mid;
        } else {
            hi = mid;
        }
    }
    assert(hi == lo + 1);
    lo
}

/// How far a row at height `y` lies from the centre of the corner arc it
/// crosses: none for a row between the top and bottom corners.
pub open spec fn corner_distance(y: int, height: int, radius: int) -> Option<int> {
    let top = y < radius;
    let bottom = y >= height - radius;
    if !top && !bottom {
        None
    } else {
        let center_y = if top { radius } else { height - radius - 1 };
        Some(if y >= center_y { y - center_y } else { center_y - y })
    }
}

/// The pixels cut from each end of row `y` of a window `height` rows tall
/// whose corners are quarter circles of `radius`: the least whole number of
/// pixels at least `radius - sqrt(radius² - dy²)`, where `dy` is the row's
/// distance from the centre of its corner's circle.
pub open spec fn inset_spec(y: int, height: int, radius: int) -> int {
    match corner_distance(y, height, radius) {
        None => 0,
        Some(dy) => radius - floor_sqrt(radius * radius - dy * dy),
    }
}

/// The pixels cut from each end of row `y` of a window `height` rows tall
/// whose corners are rounded with `radius`.
pub fn rounded_row_inset(y: i32, height: i32, radius: i32) -> (inset: i32)
    requires
        0 <= y < height,
        i32::MIN <= height - radius <= i32::MAX,
    ensures
        inset == inset_spec(y as int, height as int, radius as int),
        0 <= inset,
        inset <= radius || inset == 0,
{
    let top = y < radius;
    let bottom = y >= height - radius;
    if !top && !bottom {
        return 0;
    }
    let center_y: i32 = if top { radius } else { height - radius - 1 };
    let dy: i32 = if y >= center_y { y - center_y } else { center_y - y };
    assert(1 <= dy <= radius);
    let r = radius as u64;
    let d = dy as u64;
    assert(d * d <= r * r) by (nonlinear_arith)
        requires
            d <= r,
    ;
    assert(r * r < 0x4000_0000_0000_0000) by (nonlinear_arith)
        requires
            r < 0x8000_0000,
    ;
    let s = isqrt(r * r - d * d);
    proof {
        lemma_floor_sqrt_unique(s as int, (r * r - d * d) as int);
        assert(r * r < (r + 1) * (r + 1)) by (nonlinear_arith);
        if s > r {
            lemma_square_monotone(r + 1, s as int);
        }
        assert(s <= r);
    }
    radius - (s as i32)
}

/// The radius that fits a window `width` by `height`: at most half of
/// either side, and none where the window or the radius is empty.
pub open spec fn clamped_radius(width: int, height: int, radius: int) -> int {
    if width <= 0 || height <= 0 || radius <= 0 {
        0
    } else {
        let half_w = width / 2;
        let half_h = height / 2;
        let r = if radius < half_w { radius } else { half_w };
        if r < half_h { r } else { half_h }
    }
}

/// The rows `0..n` of the rounded window: each row with pixels left after
/// cutting its inset from both ends, one pixel tall.
pub open spec fn window_rows(width: int, height: int, radius: int, n: int) -> Seq<RegionRect>
    decreases n,
{
    if n <= 0 {
        Seq::empty()
    } else {
        let prev = window_rows(width, height, radius, n - 1);
        let y = n - 1;
        let inset = inset_spec(y, height, radius);
        let w = width - 2 * inset;
        if w > 0 {
            prev.push(RegionRect { x: inset as i32, y: y as i32, width: w as i32, height: 1 })
        } else {
            prev
        }
    }
}

/// The region of a window `width` by `height` with corners rounded to
/// `radius`: the whole rectangle where no radius fits, else its rows.
pub open spec fn window_region_spec(width: int, height: int, radius: int) -> Seq<RegionRect> {
    let r = clamped_radius(width, height, radius);
    if r == 0 {
        seq![RegionRect { x: 0, y: 0, width: width as i32, height: height as i32 }]
    } else {
        window_rows(width, height, r, height)
    }
}

/// The rectangles that make up a window `width` by `height` whose corners
/// are rounded to `radius`, clamped to half of either side. Each row lies
/// inside the window and is centred in it.
pub fn rounded_window_region(width: i32, height: i32, radius: i32) -> (region: Vec<RegionRect>)
    ensures
        region@ == window_region_spec(width as int, height as int, radius as int),
        clamped_radius(width as int, height as int, radius as int) > 0 ==> forall|i: int|
            0 <= i < region@.len() ==> {
                let r = #[trigger] region@[i];
                &&& r.height == 1
                &&& 0 <= r.y < height
                &&& 0 <= r.x
                &&& r.width > 0
                &&& r.x + r.width + r.x == width
            },
{
    let mut r = radius;
    if width <= 0 || height <= 0 || radius <= 0 {
        r = 0;
    } else {
        if width / 2 < r {
            r = width / 2;
        }
        if height / 2 < r {
            r = height / 2;
        }
    }
    if r == 0 {
        let mut single: Vec<RegionRect> = Vec::new();
        single.push(RegionRect { x: 0, y: 0, width: width, height: height });
        assert(single@ =~= window_region_spec(width as int, height as int, radius as int));
        return single;
    }
    let mut region: Vec<RegionRect> = Vec::new();
    let mut y: i32 = 0;
    while y < height
        invariant
            0 <= y <= height,
            0 < r <= width / 2,
            r <= height / 2,
            r == clamped_radius(width as int, height as int, radius as int),
            region@ == window_rows(width as int, height as int, r as int, y as int),
            forall|i: int|
                0 <= i < region@.len() ==> {
                    let q = #[trigger] region@[i];
                    &&& q.height == 1
                    &&& 0 <= q.y < y
                    &&& 0 <= q.x
                    &&& q.width > 0
                    &&& q.x + q.width + q.x == width
                },
        decreases height - y,
    {
        let inset = rounded_row_inset(y, height, r);
        let row_width = width - inset * 2;
        if row_width > 0 {
            region.push(RegionRect { x: inset, y: y, width: row_width, height: 1 });
        }
        y = y + 1;
    }
    region
}

/// The rows `0..n` of the sidebar's region: each row from its left inset to
/// `width`, where pixels are left.
pub open spec fn sidebar_rows(width: int, height: int, n: int) -> Seq<RegionRect>
    decreases n,
{
    if n <= 0 {
        Seq::empty()
    } else {
        let prev = sidebar_rows(width, height, n - 1);
        let y = n - 1;
        let inset = inset_spec(y, height, WINDOW_RADIUS as int);
        let w = width - inset;
        if w > 0 {
            prev.push(RegionRect { x: inset as i32, y: y as i32, width: w as i32, height: 1 })
        } else {
            prev
        }
    }
}

/// Adds to `region` the rows behind a sidebar `width` wide in a window
/// `height` tall whose left corners are rounded: nothing where either side is
/// empty.
pub fn add_sidebar_region(region: &mut Vec<RegionRect>, width: i32, height: i32)
    ensures
        width <= 0 || height <= 0 ==> final(region)@ == old(region)@,
        width > 0 && height > 0 ==> final(region)@ == old(region)@ + sidebar_rows(
            width as int,
            height as int,
            height as int,
        ),
{
    if width <= 0 || height <= 0 {
        return;
    }
    let ghost start = region@;
    let mut y: i32 = 0;
    assert(start + sidebar_rows(width as int, height as int, 0) =~= start);
    while y < height
        invariant
            0 <= y <= height,
            width > 0,
            region@ == start + sidebar_rows(width as int, height as int, y as int),
        decreases height - y,
    {
        let inset = rounded_row_inset(y, height, WINDOW_RADIUS);
        let row_width = width - inset;
        if row_width > 0 {
            region.push(RegionRect { x: inset, y: y, width: row_width, height: 1 });
            assert(region@ =~= start + sidebar_rows(width as int, height as int, y + 1));
        }
        y = y + 1;
    }
}

/// The corners are alike: where both corner arcs fit in the window, row `y`
/// and the row as far from the bottom are cut by the same inset.
pub proof fn lemma_inset_symmetric(y: int, height: int, radius: int)
    requires
        0 <= y < height,
        0 <= radius,
        2 * radius <= height,
    ensures
        inset_spec(y, height, radius) == inset_spec(height - 1 - y, height, radius),
{
}

} // verus!
