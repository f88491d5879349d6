//! An RGBA8 pixel buffer with bounds-checked writes and edge-clamped reads.
use vstd::prelude::*;

verus! {

/// Byte index of the first channel of pixel (`x`, `y`) in a `w`-wide image.
pub open spec fn pixel_offset(w: int, x: int, y: int) -> int {
    (y * w + x) * 4
}

/// `bytes` with pixel (`x`, `y`) set to `rgb` and made opaque.
pub open spec fn with_pixel(bytes: Seq<u8>, w: int, x: int, y: int, rgb: (u8, u8, u8)) -> Seq<u8> {
    let i = pixel_offset(w, x, y);
    bytes.update(i, rgb.0).update(i + 1, rgb.1).update(i + 2, rgb.2).update(i + 3, 255u8)
}

/// The red, green and blue bytes of pixel (`x`, `y`).
pub open spec fn pixel_rgb(bytes: Seq<u8>, w: int, x: int, y: int) -> (u8, u8, u8) {
    let i = pixel_offset(w, x, y);
    (bytes[i], bytes[i + 1], bytes[i + 2])
}

/// The alpha byte of pixel (`x`, `y`).
pub open spec fn pixel_alpha(bytes: Seq<u8>, w: int, x: int, y: int) -> u8 {
    bytes[pixel_offset(w, x, y) + 3]
}

/// `v` capped at `hi`.
pub open spec fn cap(v: int, hi: int) -> int {
    if v < hi { v } else { hi }
}

/// A `w` by `h` image stored row by row, four bytes (red, green, blue, alpha)
/// per pixel.
pub struct Canvas {
    buf: Vec<u8>,
    w: usize,
    h: usize,
}

impl Canvas {
    /// The bytes of the image.
    pub closed spec fn bytes(&self) -> Seq<u8> {
        self.buf@
    }

    /// The width in pixels.
    pub closed spec fn cols(&self) -> int {
        self.w as int
    }

    /// The height in pixels.
    pub closed spec fn rows(&self) -> int {
        self.h as int
    }

    /// Four bytes per pixel, as every constructor makes it and every method keeps it.
    pub open spec fn wf(&self) -> bool {
        self.bytes().len() == self.cols() * self.rows() * 4
    }

    /// A `w` by `h` canvas with every byte zero (transparent black).
    pub fn new(w: usize, h: usize) -> (c: Canvas)
        requires
            w * h * 4 <= usize::MAX,
        ensures
            c.cols() == w,
            c.rows() == h,
            c.bytes() == Seq::new((w * h * 4) as nat, |i: int| 0u8),
            c.wf(),
    {
        let n = w * h * 4;
        let mut buf: Vec<u8> = Vec::new();
        let mut k: usize = 0;
        while k < n
            invariant
                k <= n,
                buf@ == Seq::new(k as nat, |i: int| 0u8),
            decreases n - k,
        {
            buf.push(0);
            k += 1;
        }
        Canvas { buf, w, h }
    }

    /// Wraps an RGBA8 buffer as a `w` by `h` canvas; `None` when its length is
    /// not `w * h * 4`.
    pub fn from_rgba(bytes: Vec<u8>, w: usize, h: usize) -> (c: Option<Canvas>)
        ensures
            c is Some <==> bytes@.len() == w * h * 4,
            c matches Some(c) ==> c.bytes() == bytes@ && c.cols() == w && c.rows() == h
                && c.wf(),
    {
        let blen = bytes.len();
        match w.checked_mul(h) {
            None => {
                assert(w * h * 4 > usize::MAX) by (nonlinear_arith)
                    requires
                        w * h > usize::MAX,
                ;
                None
            },
            Some(n) => match n.checked_mul(4) {
                None => None,
                Some(len) => {
                    if blen == len {
                        Some(Canvas { buf: bytes, w, h })
                    } else {
                        None
                    }
                },
            },
        }
    }

    /// The width in pixels.
    pub fn width(&self) -> (w: usize)
        ensures
            w == self.cols(),
    {
        self.w
    }

    /// The height in pixels.
    pub fn height(&self) -> (h: usize)
        ensures
            h == self.rows(),
    {
        self.h
    }

    /// The bytes of the image.
    pub fn as_bytes(&self) -> (b: &[u8])
        ensures
            b@ == self.bytes(),
    {
        self.buf.as_slice()
    }

    /// Gives up the canvas and returns its bytes.
    pub fn into_bytes(self) -> (b: Vec<u8>)
        ensures
            b@ == self.bytes(),
    {
        self.buf
    }

    /// Paints pixel (`x`, `y`) with `rgb`, fully opaque; a pixel outside the
    /// canvas is ignored.
    pub fn set(&mut self, x: usize, y: usize, rgb: (u8, u8, u8))
        requires
            old(self).wf(),
        ensures
            final(self).wf(),
            final(self).cols() == old(self).cols(),
            final(self).rows() == old(self).rows(),
            x < old(self).cols() && y < old(self).rows() ==> final(self).bytes() == with_pixel(
                old(self).bytes(),
                old(self).cols(),
                x as int,
                y as int,
                rgb,
            ),
            !(x < old(self).cols() && y < old(self).rows()) ==> final(self).bytes()
                == old(self).bytes(),
            final(self).bytes().len() == old(self).bytes().len(),
            x < old(self).cols() && y < old(self).rows() ==> {
                let i = (y * old(self).cols() + x) * 4;
                &&& final(self).bytes()[i] == rgb.0
                &&& final(self).bytes()[i + 1] == rgb.1
                &&& final(self).bytes()[i + 2] == rgb.2
                &&& final(self).bytes()[i + 3] == 255
                &&& forall|j: int|
                    0 <= j < old(self).bytes().len() && !(i <= j < i + 4)
                        ==> #[trigger] final(self).bytes()[j] == old(self).bytes()[j]
            },
    {
        if x >= self.w || y >= self.h {
            return;
        }
        assert(y * self.w + x < self.w * self.h) by (nonlinear_arith)
            requires
                y < self.h,
                x < self.w,
        ;
        let len = self.buf.len();
        assert((y * self.w + x) * 4 + 3 < len);
        let i = (y * self.w + x) * 4;
        self.buf.set(i, rgb.0);
        self.buf.set(i + 1, rgb.1);
        self.buf.set(i + 2, rgb.2);
        self.buf.set(i + 3, 255);
    }

    /// The colour of pixel (`x`, `y`), with coordinates past the right or
    /// bottom edge moved onto it.
    pub fn get(&self, x: usize, y: usize) -> (rgb: (u8, u8, u8))
        requires
            self.wf(),
            self.cols() >= 1,
            self.rows() >= 1,
        ensures
            rgb == pixel_rgb(
                self.bytes(),
                self.cols(),
                cap(x as int, self.cols() - 1),
                cap(y as int, self.rows() - 1),
            ),
            ({
                let cx = if x < self.cols() - 1 { x as int } else { self.cols() - 1 };
                let cy = if y < self.rows() - 1 { y as int } else { self.rows() - 1 };
                let i = (cy * self.cols() + cx) * 4;
                rgb == (self.bytes()[i], self.bytes()[i + 1], self.bytes()[i + 2])
            }),
    {
        let x = if x < self.w - 1 { x } else { self.w - 1 };
        let y = if y < self.h - 1 { y } else { self.h - 1 };
        assert(y * self.w + x < self.w * self.h) by (nonlinear_arith)
            requires
                y < self.h,
                x < self.w,
        ;
        let len = self.buf.len();
        assert((y * self.w + x) * 4 + 3 < len);
        let i = (y * self.w + x) * 4;
        (self.buf[i], self.buf[i + 1], self.buf[i + 2])
    }
}

/// The layout is plain row-major: painting pixel (`x`, `y`) writes bytes
/// `(y*w + x)*4` to `(y*w + x)*4 + 3` (red, green, blue, then an opaque alpha)
/// and no other byte, and reading a pixel reads its first three bytes there.
pub proof fn lemma_row_major_layout(
    bytes: Seq<u8>,
    w: int,
    h: int,
    x: int,
    y: int,
    rgb: (u8, u8, u8),
    j: int,
)
    requires
        bytes.len() == w * h * 4,
        0 <= x < w,
        0 <= y < h,
    ensures
        with_pixel(bytes, w, x, y, rgb).len() == bytes.len(),
        with_pixel(bytes, w, x, y, rgb)[(y * w + x) * 4] == rgb.0,
        with_pixel(bytes, w, x, y, rgb)[(y * w + x) * 4 + 1] == rgb.1,
        with_pixel(bytes, w, x, y, rgb)[(y * w + x) * 4 + 2] == rgb.2,
        with_pixel(bytes, w, x, y, rgb)[(y * w + x) * 4 + 3] == 255,
        0 <= j < bytes.len() && !((y * w + x) * 4 <= j < (y * w + x) * 4 + 4) ==> with_pixel(
            bytes,
            w,
            x,
            y,
            rgb,
        )[j] == bytes[j],
        pixel_rgb(bytes, w, x, y) == (
            bytes[(y * w + x) * 4],
            bytes[(y * w + x) * 4 + 1],
            bytes[(y * w + x) * 4 + 2],
        ),
{
    assert((y * w + x) * 4 + 4 <= bytes.len()) by (nonlinear_arith)
        requires
            bytes.len() == w * h * 4,
            0 <= x < w,
            0 <= y < h,
    ;
}

/// Two different pixels of a `w`-wide image never share a byte offset.
pub proof fn lemma_pixel_offsets_distinct(w: int, x1: int, y1: int, x2: int, y2: int)
    requires
        0 <= x1 < w,
        0 <= x2 < w,
        0 <= y1,
        0 <= y2,
        x1 != x2 || y1 != y2,
    ensures
        pixel_offset(w, x1, y1) + 4 <= pixel_offset(w, x2, y2) || pixel_offset(w, x2, y2) + 4
            <= pixel_offset(w, x1, y1),
{
    if y1 == y2 {
    } else if y1 < y2 {
        assert(y1 * w + x1 < y2 * w + x2) by (nonlinear_arith)
            requires
                y1 < y2,
                0 <= x1 < w,
                0 <= x2,
        ;
    } else {
        assert(y2 * w + x2 < y1 * w + x1) by (nonlinear_arith)
            requires
                y2 < y1,
                0 <= x2 < w,
                0 <= x1,
        ;
    }
}

/// Reading a pixel back after painting it gives the colour painted, and the
/// pixel is opaque; every other pixel keeps its colour and alpha.
pub proof fn lemma_read_after_write(
    bytes: Seq<u8>,
    w: int,
    h: int,
    x: int,
    y: int,
    rgb: (u8, u8, u8),
    x2: int,
    y2: int,
)
    requires
        bytes.len() == w * h * 4,
        0 <= x < w,
        0 <= y < h,
        0 <= x2 < w,
        0 <= y2 < h,
    ensures
        pixel_rgb(with_pixel(bytes, w, x, y, rgb), w, x, y) == rgb,
        pixel_alpha(with_pixel(bytes, w, x, y, rgb), w, x, y) == 255,
        (x2 != x || y2 != y) ==> pixel_rgb(with_pixel(bytes, w, x, y, rgb), w, x2, y2)
            == pixel_rgb(bytes, w, x2, y2) && pixel_alpha(with_pixel(bytes, w, x, y, rgb), w, x2, y2)
            == pixel_alpha(bytes, w, x2, y2),
{
    assert(pixel_offset(w, x, y) + 4 <= bytes.len()) by (nonlinear_arith)
        requires
            bytes.len() == w * h * 4,
            0 <= x < w,
            0 <= y < h,
    ;
    if x2 != x || y2 != y {
        lemma_pixel_offsets_distinct(w, x, y, x2, y2);
        assert(pixel_offset(w, x2, y2) + 4 <= bytes.len()) by (nonlinear_arith)
            requires
                bytes.len() == w * h * 4,
                0 <= x2 < w,
                0 <= y2 < h,
        ;
    }
}

} // verus!
