//! Oil-painting stylisation: each pixel takes the average colour of the most
//! common brightness band in the square window around it.
use vstd::prelude::*;

verus! {

/// Number of brightness bands a window is sorted into.
pub const OIL_LEVELS: usize = 20;

/// Largest window radius the filter accepts. Up to it a band holds at most
/// 255 * 255 cells, so every channel sum of a band stays below 2^24 and is
/// exact in single precision, which is what the band averages are defined on.
pub const MAX_OIL_RADIUS: i32 = 127;

/// The band of a pixel: its mean brightness scaled onto `0 ..= OIL_LEVELS - 1`,
/// rounded down.
pub open spec fn brightness_band(r: int, g: int, b: int) -> int {
    let l = (r + g + b) * (OIL_LEVELS - 1) / 765;
    if l >= OIL_LEVELS { OIL_LEVELS - 1 } else { l }
}

/// `v` moved into `0 ..= len - 1`.
pub open spec fn clamp_index(v: int, len: int) -> int {
    if v < 0 {
        0
    } else if v >= len {
        len - 1
    } else {
        v
    }
}

/// The first index among `c[0 .. k]` whose value is strictly greater than all
/// before it and not exceeded after it: the first maximum.
pub open spec fn first_max(c: Seq<int>, k: nat) -> int
    decreases k,
{
    if k <= 1 {
        0
    } else {
        let b = first_max(c, (k - 1) as nat);
        if c[k - 1] > c[b] { k - 1 } else { b }
    }
}

/// The window of an RGBA8 image `src` (`w` by `h`) centred on pixel (`x`, `y`).
pub struct OilSite {
    pub src: Seq<u8>,
    pub w: int,
    pub h: int,
    pub radius: int,
    pub x: int,
    pub y: int,
}

/// The window around pixel number `p` (row-major) of a `w`-wide image.
pub open spec fn site_of_pixel(src: Seq<u8>, w: int, h: int, radius: int, p: int) -> OilSite {
    OilSite { src, w, h, radius, x: p % w, y: p / w }
}

/// Byte index of channel `c` of pixel number `p` in an RGBA8 buffer.
pub open spec fn channel_index(p: int, c: int) -> int {
    p * 4 + c
}

impl OilSite {
    /// Side length of the window: `2 * radius + 1`, or 0 for a negative radius.
    pub open spec fn side(self) -> nat {
        if self.radius < 0 { 0 } else { (2 * self.radius + 1) as nat }
    }

    /// Byte index of the pixel at offset (`dx`, `dy`), clamped to the image.
    pub open spec fn cell(self, dx: int, dy: int) -> int {
        (clamp_index(self.y + dy, self.h) * self.w + clamp_index(self.x + dx, self.w)) * 4
    }

    /// What the cell at (`dx`, `dy`) adds to band `band`: for `ch == 3` one cell,
    /// for `ch < 3` the value of that channel; nothing if it lies in another band.
    pub open spec fn contribution(self, dx: int, dy: int, band: int, ch: int) -> int {
        let i = self.cell(dx, dy);
        if brightness_band(self.src[i] as int, self.src[i + 1] as int, self.src[i + 2] as int)
            == band {
            if ch == 3 { 1 } else { self.src[i + ch] as int }
        } else {
            0
        }
    }

    /// Sum of contributions of the first `n` cells of row `dy` of the window.
    pub open spec fn row_sum(self, dy: int, band: int, ch: int, n: nat) -> int
        decreases n,
    {
        if n == 0 {
            0
        } else {
            self.row_sum(dy, band, ch, (n - 1) as nat) + self.contribution(
                -self.radius + n - 1,
                dy,
                band,
                ch,
            )
        }
    }

    /// Sum of contributions of the first `m` rows of the window.
    pub open spec fn rows_sum(self, band: int, ch: int, m: nat) -> int
        decreases m,
    {
        if m == 0 {
            0
        } else {
            self.rows_sum(band, ch, (m - 1) as nat) + self.row_sum(
                -self.radius + m - 1,
                band,
                ch,
                self.side(),
            )
        }
    }

    /// Over the whole window: the number of cells in `band` (`ch == 3`) or the
    /// sum of channel `ch` over them (`ch < 3`).
    pub open spec fn band_total(self, band: int, ch: int) -> int {
        self.rows_sum(band, ch, self.side())
    }

    /// Cell counts of all bands.
    pub open spec fn band_counts(self) -> Seq<int> {
        Seq::new(OIL_LEVELS as nat, |l: int| self.band_total(l, 3))
    }

    /// The most common band, the lowest one on a tie.
    pub open spec fn dominant_band(self) -> int {
        first_max(self.band_counts(), OIL_LEVELS as nat)
    }

    /// Channel `c` of the painted pixel: the mean of that channel over the
    /// cells of the dominant band (rounded down; 0 for an empty window).
    pub open spec fn painted_channel(self, c: int) -> int {
        let b = self.dominant_band();
        let n = self.band_total(b, 3);
        self.band_total(b, c) / (if n < 1 { 1 } else { n })
    }
}

/// The band of a pixel from its red, green and blue bytes.
pub fn oil_level(r: u8, g: u8, b: u8) -> (l: usize)
    ensures
        l == brightness_band(r as int, g as int, b as int),
        l < OIL_LEVELS,
        l == (if (r + g + b) * 19 / 765 >= 20 { 19 } else { (r + g + b) * 19 / 765 }),
        l * 765 <= (r + g + b) * 19 < (l + 1) * 765,
{
    let s = r as usize + g as usize + b as usize;
    assert(s * (OIL_LEVELS - 1) <= 765 * 19) by (nonlinear_arith)
        requires
            s <= 765,
            OIL_LEVELS == 20,
    ;
    let l = s * (OIL_LEVELS - 1) / 765;
    if l >= OIL_LEVELS {
        OIL_LEVELS - 1
    } else {
        l
    }
}


/// The window around pixel (`x`, `y`).
pub open spec fn site_at(src: Seq<u8>, w: int, h: int, radius: int, x: int, y: int) -> OilSite {
    OilSite { src, w, h, radius, x, y }
}

/// `v` moved into `0 ..= len - 1`.
fn clamp_coord(v: i64, len: usize) -> (c: usize)
    requires
        1 <= len <= 0x4000_0000_0000_0000,
    ensures
        c == clamp_index(v as int, len as int),
        c < len,
{
    if v < 0 {
        0
    } else if v >= len as i64 {
        len - 1
    } else {
        v as usize
    }
}

/// Per-band cell counts and red, green and blue sums over the window of
/// pixel (`x`, `y`).
fn window_bands(src: &[u8], w: usize, h: usize, x: usize, y: usize, radius: i32) -> (res: (
    Vec<u32>,
    Vec<u32>,
    Vec<u32>,
    Vec<u32>,
))
    requires
        x < w,
        y < h,
        w * h * 4 <= usize::MAX,
        src@.len() + 1 >= w * h * 4,
        radius <= MAX_OIL_RADIUS,
    ensures
        res.0@.len() == OIL_LEVELS,
        res.1@.len() == OIL_LEVELS,
        res.2@.len() == OIL_LEVELS,
        res.3@.len() == OIL_LEVELS,
        forall|l: int|
            #![trigger res.0@[l]]
            0 <= l < OIL_LEVELS ==> {
                let s = site_at(src@, w as int, h as int, radius as int, x as int, y as int);
                &&& res.0@[l] == s.band_total(l, 3)
                &&& res.1@[l] == s.band_total(l, 0)
                &&& res.2@[l] == s.band_total(l, 1)
                &&& res.3@[l] == s.band_total(l, 2)
                &&& res.1@[l] <= 255 * res.0@[l]
                &&& res.2@[l] <= 255 * res.0@[l]
                &&& res.3@[l] <= 255 * res.0@[l]
            },
{
    let ghost s = site_at(src@, w as int, h as int, radius as int, x as int, y as int);
    let mut count: Vec<u32> = Vec::new();
    let mut red: Vec<u32> = Vec::new();
    let mut green: Vec<u32> = Vec::new();
    let mut blue: Vec<u32> = Vec::new();
    let mut k: usize = 0;
    while k < OIL_LEVELS
        invariant
            k <= OIL_LEVELS,
            count@.len() == k,
            red@.len() == k,
            green@.len() == k,
            blue@.len() == k,
            forall|l: int|
                #![trigger count@[l]]
                0 <= l < k ==> count@[l] == 0 && red@[l] == 0 && green@[l] == 0 && blue@[l] == 0,
        decreases OIL_LEVELS - k,
    {
        count.push(0);
        red.push(0);
        green.push(0);
        blue.push(0);
        k += 1;
    }
    if radius < 0 {
        assert forall|l: int| 0 <= l < OIL_LEVELS implies s.band_total(l, 3) == 0 && s.band_total(l, 0) == 0
            && s.band_total(l, 1) == 0 && s.band_total(l, 2) == 0 by {
            assert(s.side() == 0);
        }
        return (count, red, green, blue);
    }
    let r: i64 = radius as i64;
    let ghost side: int = 2 * r + 1;
    assert(w <= 0x4000_0000_0000_0000 && h <= 0x4000_0000_0000_0000) by (nonlinear_arith)
        requires
            x < w,
            y < h,
            w * h * 4 <= usize::MAX,
            usize::MAX <= u64::MAX,
    ;
    let mut dy: i64 = -r;
    let ghost mut done: int = 0;
    assert((dy + r) * side == 0) by (nonlinear_arith)
        requires
            dy + r == 0,
    ;
    // Before the first row every band is empty.
    assert forall|l: int| 0 <= l < OIL_LEVELS implies count@[l] == s.rows_sum(l, 3, 0) && count@[l]
        <= done && red@[l] <= 255 * count@[l] by {
        assert(count@[l] == 0);
    }
    while dy <= r
        invariant
            0 <= r <= 127,
            r == radius,
            side == 2 * r + 1,
            s.side() == side,
            -r <= dy <= r + 1,
            x < w,
            y < h,
            w <= 0x4000_0000_0000_0000,
            h <= 0x4000_0000_0000_0000,
            w * h * 4 <= usize::MAX,
            src@.len() + 1 >= w * h * 4,
            s == site_at(src@, w as int, h as int, radius as int, x as int, y as int),
            count@.len() == OIL_LEVELS,
            red@.len() == OIL_LEVELS,
            green@.len() == OIL_LEVELS,
            blue@.len() == OIL_LEVELS,
            done == (dy + r) * side,
            forall|l: int|
                #![trigger count@[l]]
                0 <= l < OIL_LEVELS ==> {
                    &&& count@[l] == s.rows_sum(l, 3, (dy + r) as nat)
                    &&& red@[l] == s.rows_sum(l, 0, (dy + r) as nat)
                    &&& green@[l] == s.rows_sum(l, 1, (dy + r) as nat)
                    &&& blue@[l] == s.rows_sum(l, 2, (dy + r) as nat)
                    &&& count@[l] <= done
                    &&& red@[l] <= 255 * count@[l]
                    &&& green@[l] <= 255 * count@[l]
                    &&& blue@[l] <= 255 * count@[l]
                },
        decreases r + 1 - dy,
    {
        let ny = clamp_coord(y as i64 + dy, h);
        let mut dx: i64 = -r;
        assert forall|l: int| 0 <= l < OIL_LEVELS implies s.row_sum(dy as int, l, 3, 0) == 0
            && s.row_sum(dy as int, l, 0, 0) == 0 && s.row_sum(dy as int, l, 1, 0) == 0
            && s.row_sum(dy as int, l, 2, 0) == 0 && count@[l] <= done by {
            assert(count@[l] <= done);
        }
        while dx <= r
            invariant
                0 <= r <= 127,
                r == radius,
                side == 2 * r + 1,
                s.side() == side,
                -r <= dy <= r,
                -r <= dx <= r + 1,
                x < w,
                y < h,
                w <= 0x4000_0000_0000_0000,
                h <= 0x4000_0000_0000_0000,
                w * h * 4 <= usize::MAX,
                src@.len() + 1 >= w * h * 4,
                ny == clamp_index(y + dy, h as int),
                ny < h,
                s == site_at(src@, w as int, h as int, radius as int, x as int, y as int),
                count@.len() == OIL_LEVELS,
                red@.len() == OIL_LEVELS,
                green@.len() == OIL_LEVELS,
                blue@.len() == OIL_LEVELS,
                done == (dy + r) * side + (dx + r),
                forall|l: int|
                    #![trigger count@[l]]
                    0 <= l < OIL_LEVELS ==> {
                        &&& count@[l] == s.rows_sum(l, 3, (dy + r) as nat) + s.row_sum(
                            dy as int,
                            l,
                            3,
                            (dx + r) as nat,
                        )
                        &&& red@[l] == s.rows_sum(l, 0, (dy + r) as nat) + s.row_sum(
                            dy as int,
                            l,
                            0,
                            (dx + r) as nat,
                        )
                        &&& green@[l] == s.rows_sum(l, 1, (dy + r) as nat) + s.row_sum(
                            dy as int,
                            l,
                            1,
                            (dx + r) as nat,
                        )
                        &&& blue@[l] == s.rows_sum(l, 2, (dy + r) as nat) + s.row_sum(
                            dy as int,
                            l,
                            2,
                            (dx + r) as nat,
                        )
                        &&& count@[l] <= done
                        &&& red@[l] <= 255 * count@[l]
                        &&& green@[l] <= 255 * count@[l]
                        &&& blue@[l] <= 255 * count@[l]
                    },
            decreases r + 1 - dx,
        {
            let nx = clamp_coord(x as i64 + dx, w);
            assert(ny * w + nx < w * h) by (nonlinear_arith)
                requires
                    ny < h,
                    nx < w,
            ;
            let i = (ny * w + nx) * 4;
            assert(i == s.cell(dx as int, dy as int));
            let lvl = oil_level(src[i], src[i + 1], src[i + 2]);
            assert(done + 1 <= side * side) by (nonlinear_arith)
                requires
                    done == (dy + r) * side + (dx + r),
                    0 <= dy + r <= 2 * r,
                    0 <= dx + r <= 2 * r,
                    side == 2 * r + 1,
                    r >= 0,
            ;
            assert(side * side <= 255 * 255) by (nonlinear_arith)
                requires
                    side == 2 * r + 1,
                    0 <= r <= 127,
            ;
            let ghost old_count = count@;
            let ghost old_red = red@;
            let ghost old_green = green@;
            let ghost old_blue = blue@;
            let c = count[lvl] + 1;
            count.set(lvl, c);
            let v = red[lvl] + src[i] as u32;
            red.set(lvl, v);
            let v = green[lvl] + src[i + 1] as u32;
            green.set(lvl, v);
            let v = blue[lvl] + src[i + 2] as u32;
            blue.set(lvl, v);
            proof {
                done = done + 1;
                assert forall|l: int| 0 <= l < OIL_LEVELS implies {
                    &&& count@[l] == s.rows_sum(l, 3, (dy + r) as nat) + s.row_sum(
                        dy as int,
                        l,
                        3,
                        (dx + 1 + r) as nat,
                    )
                    &&& red@[l] == s.rows_sum(l, 0, (dy + r) as nat) + s.row_sum(
                        dy as int,
                        l,
                        0,
                        (dx + 1 + r) as nat,
                    )
                    &&& green@[l] == s.rows_sum(l, 1, (dy + r) as nat) + s.row_sum(
                        dy as int,
                        l,
                        1,
                        (dx + 1 + r) as nat,
                    )
                    &&& blue@[l] == s.rows_sum(l, 2, (dy + r) as nat) + s.row_sum(
                        dy as int,
                        l,
                        2,
                        (dx + 1 + r) as nat,
                    )
                    &&& count@[l] <= done
                    &&& red@[l] <= 255 * count@[l]
                    &&& green@[l] <= 255 * count@[l]
                    &&& blue@[l] <= 255 * count@[l]
                } by {
                    assert(old_count[l] == s.rows_sum(l, 3, (dy + r) as nat) + s.row_sum(
                        dy as int,
                        l,
                        3,
                        (dx + r) as nat,
                    ));
                    assert(-s.radius + (dx + 1 + r) - 1 == dx);
                }
            }
            dx += 1;
        }
        proof {
            assert(done == (dy + 1 + r) * side) by (nonlinear_arith)
                requires
                    done == (dy + r) * side + (r + 1 + r),
                    side == 2 * r + 1,
            ;
            assert forall|l: int| 0 <= l < OIL_LEVELS implies count@[l] == s.rows_sum(
                l,
                3,
                (dy + 1 + r) as nat,
            ) && red@[l] == s.rows_sum(l, 0, (dy + 1 + r) as nat) && green@[l] == s.rows_sum(
                l,
                1,
                (dy + 1 + r) as nat,
            ) && blue@[l] == s.rows_sum(l, 2, (dy + 1 + r) as nat) by {
                assert(-s.radius + (dy + 1 + r) - 1 == dy);
                assert(count@[l] == s.rows_sum(l, 3, (dy + r) as nat) + s.row_sum(
                    dy as int,
                    l,
                    3,
                    (r + 1 + r) as nat,
                ));
            }
        }
        dy += 1;
    }
    assert forall|l: int| 0 <= l < OIL_LEVELS implies count@[l] == s.band_total(l, 3)
        && red@[l] == s.band_total(l, 0) && green@[l] == s.band_total(l, 1)
        && blue@[l] == s.band_total(l, 2) by {
        assert(count@[l] == s.rows_sum(l, 3, side as nat));
    }
    (count, red, green, blue)
}


/// `count` read as integers.
pub open spec fn as_ints(count: Seq<u32>) -> Seq<int> {
    count.map_values(|v: u32| v as int)
}

/// The most common band, the lowest one on a tie.
fn dominant_band(count: &Vec<u32>) -> (b: usize)
    requires
        count@.len() == OIL_LEVELS,
    ensures
        b < OIL_LEVELS,
        b == first_max(as_ints(count@), OIL_LEVELS as nat),
{
    let ghost c = as_ints(count@);
    let mut best: usize = 0;
    let mut k: usize = 1;
    while k < OIL_LEVELS
        invariant
            1 <= k <= OIL_LEVELS,
            count@.len() == OIL_LEVELS,
            c == as_ints(count@),
            best < k,
            best == first_max(c, k as nat),
        decreases OIL_LEVELS - k,
    {
        if count[k] > count[best] {
            best = k;
        }
        k += 1;
    }
    best
}

/// The painted colour of pixel (`x`, `y`).
fn paint_pixel(src: &[u8], w: usize, h: usize, x: usize, y: usize, radius: i32) -> (rgb: (
    u8,
    u8,
    u8,
))
    requires
        x < w,
        y < h,
        w * h * 4 <= usize::MAX,
        src@.len() + 1 >= w * h * 4,
        radius <= MAX_OIL_RADIUS,
    ensures
        rgb.0 == site_at(src@, w as int, h as int, radius as int, x as int, y as int).painted_channel(0),
        rgb.1 == site_at(src@, w as int, h as int, radius as int, x as int, y as int).painted_channel(1),
        rgb.2 == site_at(src@, w as int, h as int, radius as int, x as int, y as int).painted_channel(2),
{
    let ghost s = site_at(src@, w as int, h as int, radius as int, x as int, y as int);
    let (count, red, green, blue) = window_bands(src, w, h, x, y, radius);
    let b = dominant_band(&count);
    proof {
        assert(as_ints(count@) =~= s.band_counts());
        assert(b as int == s.dominant_band());
    }
    let n: u32 = if count[b] < 1 {
        1
    } else {
        count[b]
    };
    assert(count@[b as int] == s.band_total(b as int, 3));
    let rv = red[b] / n;
    let gv = green[b] / n;
    let bv = blue[b] / n;
    assert(rv <= 255 && gv <= 255 && bv <= 255) by (nonlinear_arith)
        requires
            n >= 1,
            red[b as int] <= 255 * count[b as int],
            green[b as int] <= 255 * count[b as int],
            blue[b as int] <= 255 * count[b as int],
            count[b as int] == 0 || n == count[b as int],
            rv == red[b as int] / n,
            gv == green[b as int] / n,
            bv == blue[b as int] / n,
    ;
    (rv as u8, gv as u8, bv as u8)
}

/// Whether the window arithmetic on 32-bit signed coordinates stays in range:
/// always for a negative radius or an empty image (no window is visited),
/// otherwise when every coordinate plus the radius fits.
pub open spec fn window_coords_fit(w: int, h: int, radius: int) -> bool {
    radius < 0 || w * h == 0 || (w <= i32::MAX && h <= i32::MAX && w - 1 + radius <= i32::MAX
        && h - 1 + radius <= i32::MAX)
}

/// `out` is the oil painting of the `w` by `h` image `src` with the given
/// radius: same size, each pixel the painted colour of its window, opaque.
pub open spec fn is_oil_painting(src: Seq<u8>, w: int, h: int, radius: int, out: Seq<u8>) -> bool {
    &&& out.len() == w * h * 4
    &&& forall|p: int, c: int|
        0 <= p < w * h && 0 <= c < 3 ==> #[trigger] out[channel_index(p, c)]
            == site_of_pixel(src, w, h, radius, p).painted_channel(c)
    &&& forall|i: int| 0 <= i < out.len() && i % 4 == 3 ==> #[trigger] out[i] == 255
}

/// Oil-paints a `w` by `h` RGBA8 image: each output pixel is the mean colour
/// of the most common brightness band in the window of the given radius around
/// it (edges clamped), and fully opaque.
pub fn oil_filter(src: &[u8], w: usize, h: usize, radius: i32) -> (out: Vec<u8>)
    requires
        w * h * 4 <= usize::MAX,
        w * h == 0 || src@.len() + 1 >= w * h * 4,
        i32::MIN < radius <= MAX_OIL_RADIUS,
        window_coords_fit(w as int, h as int, radius as int),
    ensures
        is_oil_painting(src@, w as int, h as int, radius as int, out@),
{
    let n = w * h;
    let mut out: Vec<u8> = Vec::new();
    let mut p: usize = 0;
    while p < n
        invariant
            n == w * h,
            p <= n,
            w * h * 4 <= usize::MAX,
            w * h == 0 || src@.len() + 1 >= w * h * 4,
            radius <= MAX_OIL_RADIUS,
            out@.len() == p * 4,
            forall|q: int, c: int|
                0 <= q < p && 0 <= c < 3 ==> #[trigger] out@[channel_index(q, c)]
                    == site_of_pixel(src@, w as int, h as int, radius as int, q).painted_channel(c),
            forall|q: int| 0 <= q < p ==> #[trigger] out@[channel_index(q, 3)] == 255,
        decreases n - p,
    {
        let x = p % w;
        let y = p / w;
        assert(y < h) by (nonlinear_arith)
            requires
                p < w * h,
                y == p / w,
                w > 0,
        ;
        let rgb = paint_pixel(src, w, h, x, y, radius);
        let ghost before = out@;
        out.push(rgb.0);
        out.push(rgb.1);
        out.push(rgb.2);
        out.push(255);
        proof {
            assert forall|q: int, c: int| 0 <= q < p + 1 && 0 <= c < 3 implies #[trigger] out@[channel_index(q, c)]
                == site_of_pixel(src@, w as int, h as int, radius as int, q).painted_channel(c) by {
                if q < p {
                    assert(out@[channel_index(q, c)] == before[channel_index(q, c)]);
                }
            }
            assert forall|q: int| 0 <= q < p + 1 implies #[trigger] out@[channel_index(q, 3)] == 255 by {
                if q < p {
                    assert(out@[channel_index(q, 3)] == before[channel_index(q, 3)]);
                }
            }
        }
        p += 1;
    }
    proof {
        assert forall|i: int| 0 <= i < out@.len() && i % 4 == 3 implies #[trigger] out@[i] == 255 by {
            let q = i / 4;
            assert(i == channel_index(q, 3));
        }
    }
    out
}


/// The window radius used for an image: a 220th of its smaller side, at least
/// 2 and at most 6 (the intermediate value is taken as a 32-bit signed integer).
pub open spec fn oil_radius_for(w: int, h: int) -> i32 {
    let m = if w < h { w } else { h };
    let q = m / 220;
    let t = (if q < 2 { 2 } else { q }) as i32;
    if t < 6 { t } else { 6 }
}

/// The window radius for a `w` by `h` image.
pub fn oil_radius(w: usize, h: usize) -> (r: i32)
    ensures
        r == oil_radius_for(w as int, h as int),
        r <= 6,
        (if w < h { w } else { h }) / 220 <= i32::MAX ==> 2 <= r,
        (if w < h { w } else { h }) / 220 <= i32::MAX ==> r == (if (if w < h { w } else { h })
            / 220 < 2 {
            2
        } else if (if w < h { w } else { h }) / 220 > 6 {
            6
        } else {
            (if w < h { w } else { h }) / 220
        }),
{
    let m = if w < h { w } else { h };
    let q = m / 220;
    let t = (if q < 2 { 2 } else { q }) as i32;
    if t < 6 { t } else { 6 }
}

/// Oil-paints a `width` by `height` RGBA8 image with the radius its size calls
/// for. A buffer whose length is not `width * height * 4` comes back unchanged
/// as the error, so the caller can fail gracefully.
pub fn oil_stylize(bytes: Vec<u8>, width: u32, height: u32) -> (res: Result<Vec<u8>, Vec<u8>>)
    requires
        width * height * 4 <= usize::MAX,
        bytes@.len() != width * height * 4 || window_coords_fit(
            width as int,
            height as int,
            oil_radius_for(width as int, height as int) as int,
        ),
    ensures
        bytes@.len() != width * height * 4 <==> res is Err,
        res matches Err(b) ==> b@ == bytes@,
        res matches Ok(out) ==> is_oil_painting(
            bytes@,
            width as int,
            height as int,
            oil_radius_for(width as int, height as int) as int,
            out@,
        ),
{
    let w = width as usize;
    let h = height as usize;
    if bytes.len() != w * h * 4 {
        return Err(bytes);
    }
    let radius = oil_radius(w, h);
    assert(radius >= 2) by {
        assert(w <= u32::MAX && h <= u32::MAX);
        assert((if w < h { w } else { h }) / 220 <= i32::MAX);
    }
    Ok(oil_filter(bytes.as_slice(), w, h, radius))
}


/// The band a pixel is painted from is a most common one, and no band before it
/// is as common: the first maximum of the counts.
pub proof fn lemma_first_max_is_first_maximum(c: Seq<int>, k: nat)
    requires
        1 <= k <= c.len(),
    ensures
        0 <= first_max(c, k) < k,
        forall|l: int| 0 <= l < k ==> #[trigger] c[l] <= c[first_max(c, k)],
        forall|l: int| 0 <= l < first_max(c, k) ==> #[trigger] c[l] < c[first_max(c, k)],
    decreases k,
{
    if k > 1 {
        lemma_first_max_is_first_maximum(c, (k - 1) as nat);
    }
}


/// Channel `ch` (0 red, 1 green, 2 blue) of a colour.
pub open spec fn rgb_channel(rgb: (u8, u8, u8), ch: int) -> int {
    if ch == 0 {
        rgb.0 as int
    } else if ch == 1 {
        rgb.1 as int
    } else {
        rgb.2 as int
    }
}

/// Every pixel of the `w` by `h` image has colour `rgb` (alpha aside).
pub open spec fn is_flat(src: Seq<u8>, w: int, h: int, rgb: (u8, u8, u8)) -> bool {
    forall|p: int|
        #![trigger src[channel_index(p, 0)]]
        0 <= p < w * h ==> src[channel_index(p, 0)] == rgb.0 && src[channel_index(p, 1)] == rgb.1
            && src[channel_index(p, 2)] == rgb.2
}

/// What one pixel of colour `rgb` adds to band `band` in channel `ch`.
pub open spec fn flat_contribution(rgb: (u8, u8, u8), band: int, ch: int) -> int {
    if brightness_band(rgb.0 as int, rgb.1 as int, rgb.2 as int) == band {
        if ch == 3 { 1 } else { rgb_channel(rgb, ch) }
    } else {
        0
    }
}

proof fn lemma_flat_cell(s: OilSite, dx: int, dy: int, band: int, ch: int, rgb: (u8, u8, u8))
    requires
        s.w >= 1,
        s.h >= 1,
        0 <= ch <= 3,
        is_flat(s.src, s.w, s.h, rgb),
    ensures
        s.contribution(dx, dy, band, ch) == flat_contribution(rgb, band, ch),
{
    let ny = clamp_index(s.y + dy, s.h);
    let nx = clamp_index(s.x + dx, s.w);
    let p = ny * s.w + nx;
    assert(0 <= p < s.w * s.h) by (nonlinear_arith)
        requires
            0 <= ny < s.h,
            0 <= nx < s.w,
            p == ny * s.w + nx,
    ;
    assert(s.cell(dx, dy) == channel_index(p, 0));
    assert(s.src[channel_index(p, 0)] == rgb.0);
}

proof fn lemma_flat_row(s: OilSite, dy: int, band: int, ch: int, rgb: (u8, u8, u8), n: nat)
    requires
        s.w >= 1,
        s.h >= 1,
        0 <= ch <= 3,
        is_flat(s.src, s.w, s.h, rgb),
    ensures
        s.row_sum(dy, band, ch, n) == n * flat_contribution(rgb, band, ch),
    decreases n,
{
    if n > 0 {
        lemma_flat_row(s, dy, band, ch, rgb, (n - 1) as nat);
        lemma_flat_cell(s, -s.radius + n - 1, dy, band, ch, rgb);
        let v = flat_contribution(rgb, band, ch);
        assert((n - 1) * v + v == n * v) by (nonlinear_arith);
    } else {
        let v = flat_contribution(rgb, band, ch);
        assert(0 * v == 0) by (nonlinear_arith);
    }
}

proof fn lemma_flat_rows(s: OilSite, band: int, ch: int, rgb: (u8, u8, u8), m: nat)
    requires
        s.w >= 1,
        s.h >= 1,
        0 <= ch <= 3,
        is_flat(s.src, s.w, s.h, rgb),
    ensures
        s.rows_sum(band, ch, m) == m * (s.side() * flat_contribution(rgb, band, ch)),
    decreases m,
{
    if m > 0 {
        lemma_flat_rows(s, band, ch, rgb, (m - 1) as nat);
        lemma_flat_row(s, -s.radius + m - 1, band, ch, rgb, s.side());
        let v = s.side() * flat_contribution(rgb, band, ch);
        assert((m - 1) * v + v == m * v) by (nonlinear_arith);
    } else {
        let v = s.side() * flat_contribution(rgb, band, ch);
        assert(0 * v == 0) by (nonlinear_arith);
    }
}

/// A flat image paints to itself: over a window of radius 0 or more, every
/// pixel of a single-colour image keeps that colour.
pub proof fn lemma_flat_pixel_unchanged(
    src: Seq<u8>,
    w: int,
    h: int,
    radius: int,
    rgb: (u8, u8, u8),
    p: int,
    c: int,
)
    requires
        w >= 1,
        h >= 1,
        radius >= 0,
        is_flat(src, w, h, rgb),
        0 <= c < 3,
    ensures
        site_of_pixel(src, w, h, radius, p).painted_channel(c) == rgb_channel(rgb, c),
{
    let s = site_of_pixel(src, w, h, radius, p);
    let big = brightness_band(rgb.0 as int, rgb.1 as int, rgb.2 as int);
    let area: int = (s.side() * s.side()) as int;
    assert(area >= 1) by (nonlinear_arith)
        requires
            area == s.side() * s.side(),
            s.side() >= 1,
    ;
    let counts = s.band_counts();
    assert forall|l: int| 0 <= l < OIL_LEVELS implies #[trigger] counts[l] == (if l == big {
        area
    } else {
        0
    }) by {
        lemma_flat_rows(s, l, 3, rgb, s.side());
        let f = flat_contribution(rgb, l, 3);
        assert(s.side() * (s.side() * f) == area * f) by (nonlinear_arith)
            requires
                area == s.side() * s.side(),
        ;
    }
    lemma_first_max_is_first_maximum(counts, OIL_LEVELS as nat);
    let b = s.dominant_band();
    assert(counts[big] <= counts[b]);
    assert(b == big);
    lemma_flat_rows(s, big, c, rgb, s.side());
    lemma_flat_rows(s, big, 3, rgb, s.side());
    let v = rgb_channel(rgb, c);
    assert(s.band_total(big, c) == area * v) by (nonlinear_arith)
        requires
            s.band_total(big, c) == s.side() * (s.side() * v),
            area == s.side() * s.side(),
    ;
    assert(s.band_total(big, 3) == area) by (nonlinear_arith)
        requires
            s.band_total(big, 3) == s.side() * (s.side() * 1),
            area == s.side() * s.side(),
    ;
    assert((area * v) / area == v) by (nonlinear_arith)
        requires
            area >= 1,
    ;
}

/// The oil painting of a single-colour image is that same image, opaque.
pub proof fn lemma_flat_image_paints_to_itself(
    src: Seq<u8>,
    w: int,
    h: int,
    radius: int,
    rgb: (u8, u8, u8),
    out: Seq<u8>,
)
    requires
        w >= 1,
        h >= 1,
        radius >= 0,
        is_flat(src, w, h, rgb),
        is_oil_painting(src, w, h, radius, out),
    ensures
        is_flat(out, w, h, rgb),
{
    assert forall|p: int| 0 <= p < w * h implies out[channel_index(p, 0)] == rgb.0 && out[channel_index(p, 1)] == rgb.1
        && out[channel_index(p, 2)] == rgb.2 by {
        lemma_flat_pixel_unchanged(src, w, h, radius, rgb, p, 0);
        lemma_flat_pixel_unchanged(src, w, h, radius, rgb, p, 1);
        lemma_flat_pixel_unchanged(src, w, h, radius, rgb, p, 2);
    }
}


/// `f(0) + f(1) + ... + f(k - 1)`.
pub open spec fn sum_to(k: nat, f: spec_fn(int) -> int) -> int
    decreases k,
{
    if k == 0 {
        0
    } else {
        sum_to((k - 1) as nat, f) + f(k - 1)
    }
}

proof fn lemma_sum_to_add(k: nat, f: spec_fn(int) -> int, g: spec_fn(int) -> int)
    ensures
        sum_to(k, |l: int| f(l) + g(l)) == sum_to(k, f) + sum_to(k, g),
    decreases k,
{
    if k > 0 {
        lemma_sum_to_add((k - 1) as nat, f, g);
    }
}

proof fn lemma_sum_to_indicator(k: nat, b: int)
    ensures
        sum_to(k, |l: int| if l == b { 1int } else { 0int }) == (if 0 <= b < k { 1int } else { 0int }),
    decreases k,
{
    if k > 0 {
        lemma_sum_to_indicator((k - 1) as nat, b);
    }
}

proof fn lemma_sum_to_zero(k: nat)
    ensures
        sum_to(k, |l: int| 0int) == 0,
    decreases k,
{
    if k > 0 {
        lemma_sum_to_zero((k - 1) as nat);
    }
}

/// Every cell lies in exactly one band.
proof fn lemma_cell_in_one_band(s: OilSite, dx: int, dy: int)
    ensures
        sum_to(OIL_LEVELS as nat, |l: int| s.contribution(dx, dy, l, 3)) == 1,
{
    let i = s.cell(dx, dy);
    let b = brightness_band(s.src[i] as int, s.src[i + 1] as int, s.src[i + 2] as int);
    assert(0 <= b < OIL_LEVELS) by {
        let t = s.src[i] as int + s.src[i + 1] as int + s.src[i + 2] as int;
        assert(t * (OIL_LEVELS - 1) >= 0) by (nonlinear_arith)
            requires
                t >= 0,
        ;
    }
    lemma_sum_to_indicator(OIL_LEVELS as nat, b);
    assert((|l: int| s.contribution(dx, dy, l, 3)) =~= (|l: int| if l == b { 1int } else { 0int }));
}

proof fn lemma_row_counts(s: OilSite, dy: int, n: nat)
    ensures
        sum_to(OIL_LEVELS as nat, |l: int| s.row_sum(dy, l, 3, n)) == n,
    decreases n,
{
    if n == 0 {
        lemma_sum_to_zero(OIL_LEVELS as nat);
        assert((|l: int| s.row_sum(dy, l, 3, 0)) =~= (|l: int| 0int));
    } else {
        let f = |l: int| s.row_sum(dy, l, 3, (n - 1) as nat);
        let g = |l: int| s.contribution(-s.radius + n - 1, dy, l, 3);
        lemma_row_counts(s, dy, (n - 1) as nat);
        lemma_cell_in_one_band(s, -s.radius + n - 1, dy);
        lemma_sum_to_add(OIL_LEVELS as nat, f, g);
        assert((|l: int| s.row_sum(dy, l, 3, n)) =~= (|l: int| f(l) + g(l)));
    }
}

proof fn lemma_rows_counts(s: OilSite, m: nat)
    ensures
        sum_to(OIL_LEVELS as nat, |l: int| s.rows_sum(l, 3, m)) == m * s.side(),
    decreases m,
{
    if m == 0 {
        lemma_sum_to_zero(OIL_LEVELS as nat);
        assert((|l: int| s.rows_sum(l, 3, 0)) =~= (|l: int| 0int));
    } else {
        let f = |l: int| s.rows_sum(l, 3, (m - 1) as nat);
        let g = |l: int| s.row_sum(-s.radius + m - 1, l, 3, s.side());
        lemma_rows_counts(s, (m - 1) as nat);
        lemma_row_counts(s, -s.radius + m - 1, s.side());
        lemma_sum_to_add(OIL_LEVELS as nat, f, g);
        assert((|l: int| s.rows_sum(l, 3, m)) =~= (|l: int| f(l) + g(l)));
        assert((m - 1) * s.side() + s.side() == m * s.side()) by (nonlinear_arith);
    }
}

/// The window has the requested size: over a window of radius `r >= 0` the
/// band counts of every pixel add up to `(2r + 1)^2` cells.
pub proof fn lemma_window_holds_all_cells(src: Seq<u8>, w: int, h: int, r: int, p: int)
    requires
        r >= 0,
    ensures
        sum_to(OIL_LEVELS as nat, |l: int| site_of_pixel(src, w, h, r, p).band_total(l, 3)) == (2
            * r + 1) * (2 * r + 1),
{
    let s = site_of_pixel(src, w, h, r, p);
    lemma_rows_counts(s, s.side());
    assert((|l: int| s.band_total(l, 3)) =~= (|l: int| s.rows_sum(l, 3, s.side())));
    assert(s.side() == 2 * r + 1);
}

proof fn lemma_row_sum_nonneg(s: OilSite, dy: int, band: int, ch: int, n: nat)
    requires
        0 <= ch <= 3,
    ensures
        s.row_sum(dy, band, ch, n) >= 0,
    decreases n,
{
    if n > 0 {
        lemma_row_sum_nonneg(s, dy, band, ch, (n - 1) as nat);
    }
}

proof fn lemma_rows_sum_nonneg(s: OilSite, band: int, ch: int, m: nat)
    requires
        0 <= ch <= 3,
    ensures
        s.rows_sum(band, ch, m) >= 0,
    decreases m,
{
    if m > 0 {
        lemma_rows_sum_nonneg(s, band, ch, (m - 1) as nat);
        lemma_row_sum_nonneg(s, -s.radius + m - 1, band, ch, s.side());
    }
}

proof fn lemma_row_sum_covers(s: OilSite, dy: int, band: int, ch: int, n: nat, dx: int)
    requires
        0 <= ch <= 3,
        -s.radius <= dx < -s.radius + n,
    ensures
        s.row_sum(dy, band, ch, n) >= s.contribution(dx, dy, band, ch),
    decreases n,
{
    lemma_row_sum_nonneg(s, dy, band, ch, (n - 1) as nat);
    if dx < -s.radius + n - 1 {
        lemma_row_sum_covers(s, dy, band, ch, (n - 1) as nat, dx);
    }
}

proof fn lemma_rows_sum_covers(s: OilSite, band: int, ch: int, m: nat, dy: int)
    requires
        0 <= ch <= 3,
        -s.radius <= dy < -s.radius + m,
    ensures
        s.rows_sum(band, ch, m) >= s.row_sum(dy, band, ch, s.side()),
    decreases m,
{
    lemma_rows_sum_nonneg(s, band, ch, (m - 1) as nat);
    lemma_row_sum_nonneg(s, -s.radius + m - 1, band, ch, s.side());
    if dy < -s.radius + m - 1 {
        lemma_rows_sum_covers(s, band, ch, (m - 1) as nat, dy);
    }
}

/// The window of pixel `p` (at column `p % w`, row `p / w`) takes in the cell
/// at every offset `-r <= dx, dy <= r`, edge-clamped: that cell's band holds at
/// least one cell and at least that cell's red, green and blue.
pub proof fn lemma_window_covers_offset(
    src: Seq<u8>,
    w: int,
    h: int,
    r: int,
    p: int,
    dx: int,
    dy: int,
)
    requires
        -r <= dx <= r,
        -r <= dy <= r,
    ensures
        ({
            let x = p % w;
            let y = p / w;
            let cx = if x + dx < 0 { 0 } else if x + dx >= w { w - 1 } else { x + dx };
            let cy = if y + dy < 0 { 0 } else if y + dy >= h { h - 1 } else { y + dy };
            let i = (cy * w + cx) * 4;
            let b = brightness_band(src[i] as int, src[i + 1] as int, src[i + 2] as int);
            let s = site_of_pixel(src, w, h, r, p);
            &&& s.band_total(b, 3) >= 1
            &&& s.band_total(b, 0) >= src[i]
            &&& s.band_total(b, 1) >= src[i + 1]
            &&& s.band_total(b, 2) >= src[i + 2]
        }),
{
    let s = site_of_pixel(src, w, h, r, p);
    let i = s.cell(dx, dy);
    let b = brightness_band(src[i] as int, src[i + 1] as int, src[i + 2] as int);
    assert(s.side() == 2 * r + 1);
    lemma_row_sum_covers(s, dy, b, 3, s.side(), dx);
    lemma_rows_sum_covers(s, b, 3, s.side(), dy);
    lemma_row_sum_covers(s, dy, b, 0, s.side(), dx);
    lemma_rows_sum_covers(s, b, 0, s.side(), dy);
    lemma_row_sum_covers(s, dy, b, 1, s.side(), dx);
    lemma_rows_sum_covers(s, b, 1, s.side(), dy);
    lemma_row_sum_covers(s, dy, b, 2, s.side(), dx);
    lemma_rows_sum_covers(s, b, 2, s.side(), dy);
    assert(s.band_total(b, 3) >= s.contribution(dx, dy, b, 3));
    assert(s.band_total(b, 0) >= s.contribution(dx, dy, b, 0));
    assert(s.band_total(b, 1) >= s.contribution(dx, dy, b, 1));
    assert(s.band_total(b, 2) >= s.contribution(dx, dy, b, 2));
}


/// Each pixel is painted from the most common band of its window, the lowest
/// one on a tie, with the mean of that band's cells rounded down (0 when the
/// band is empty).
pub proof fn lemma_painted_from_most_common_band(src: Seq<u8>, w: int, h: int, r: int, p: int, c: int)
    requires
        0 <= c < 3,
    ensures
        ({
            let s = site_of_pixel(src, w, h, r, p);
            let b = s.dominant_band();
            let n = s.band_total(b, 3);
            let v = s.painted_channel(c);
            &&& 0 <= b < OIL_LEVELS
            &&& forall|l: int| 0 <= l < OIL_LEVELS ==> #[trigger] s.band_total(l, 3) <= n
            &&& forall|l: int| 0 <= l < b ==> #[trigger] s.band_total(l, 3) < n
            &&& n >= 1 ==> v * n <= s.band_total(b, c) < (v + 1) * n
            &&& n < 1 ==> v == s.band_total(b, c)
        }),
{
    let s = site_of_pixel(src, w, h, r, p);
    let counts = s.band_counts();
    lemma_first_max_is_first_maximum(counts, OIL_LEVELS as nat);
    let b = s.dominant_band();
    let n = s.band_total(b, 3);
    assert(counts[b] == n);
    assert forall|l: int| 0 <= l < OIL_LEVELS implies #[trigger] s.band_total(l, 3) <= n by {
        assert(counts[l] == s.band_total(l, 3));
    }
    assert forall|l: int| 0 <= l < b implies #[trigger] s.band_total(l, 3) < n by {
        assert(counts[l] == s.band_total(l, 3));
    }
    let t = s.band_total(b, c);
    if n >= 1 {
        let v = t / n;
        assert(v * n <= t < (v + 1) * n) by (nonlinear_arith)
            requires
                n >= 1,
                v == t / n,
        ;
    }
}

/// An oil painting is laid out as RGBA8: byte `p*4 + c` of the output is
/// channel `c` of pixel `p`, and byte `p*4 + 3` is an opaque alpha.
pub proof fn lemma_painting_layout(src: Seq<u8>, w: int, h: int, r: int, out: Seq<u8>, p: int, c: int)
    requires
        is_oil_painting(src, w, h, r, out),
        0 <= p < w * h,
        0 <= c < 3,
    ensures
        out.len() == w * h * 4,
        out[p * 4 + c] == site_of_pixel(src, w, h, r, p).painted_channel(c),
        out[p * 4 + 3] == 255,
{
    assert(out[channel_index(p, c)] == site_of_pixel(src, w, h, r, p).painted_channel(c));
    assert(p * 4 + 3 < out.len()) by (nonlinear_arith)
        requires
            0 <= p < w * h,
            out.len() == w * h * 4,
    ;
    assert((p * 4 + 3) % 4 == 3);
}

} // verus!
