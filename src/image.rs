//! An owned RGB pixel buffer, row-major with three interleaved bytes per pixel.

use vstd::prelude::*;
use crate::codec::{PngError, decode_png, headers_fit, png_headers_fit, encode_png, png_decoded, png_encoded};

verus! {

/// One pixel: red, green, blue.
pub type Rgb = (u8, u8, u8);

/// Byte offset of the first channel of pixel `(x, y)` in a buffer of the given
/// width and channel count.
pub open spec fn offset_of(width: int, channels: int, x: int, y: int) -> int {
    (y * width + x) * channels
}

/// Every in-bounds pixel starts at an offset whose channels lie inside the buffer.
pub proof fn lemma_offset_in_range(width: int, height: int, channels: int, x: int, y: int)
    requires
        0 <= x < width,
        0 <= y < height,
        channels > 0,
    ensures
        0 <= offset_of(width, channels, x, y),
        offset_of(width, channels, x, y) + channels <= width * height * channels,
{
    assert(y * width + x < height * width) by (nonlinear_arith)
        requires 0 <= x < width, 0 <= y < height;
    assert(0 <= y * width + x) by (nonlinear_arith)
        requires 0 <= x < width, 0 <= y < height;
    assert((y * width + x + 1) * channels <= (height * width) * channels) by (nonlinear_arith)
        requires y * width + x + 1 <= height * width, channels > 0;
    assert((height * width) * channels == width * height * channels) by (nonlinear_arith);
    assert((y * width + x) * channels + channels == (y * width + x + 1) * channels) by (nonlinear_arith);
    assert(0 <= (y * width + x) * channels) by (nonlinear_arith)
        requires 0 <= y * width + x, channels > 0;
}

/// Two distinct in-bounds pixels own disjoint channel ranges.
pub proof fn lemma_offset_disjoint(width: int, channels: int, x: int, y: int, a: int, b: int)
    requires
        0 <= x < width,
        0 <= a < width,
        0 <= y,
        0 <= b,
        channels > 0,
        x != a || y != b,
    ensures
        offset_of(width, channels, x, y) + channels <= offset_of(width, channels, a, b)
            || offset_of(width, channels, a, b) + channels <= offset_of(width, channels, x, y),
{
    let i = y * width + x;
    let j = b * width + a;
    if y < b {
        assert((y + 1) * width <= b * width) by (nonlinear_arith)
            requires y + 1 <= b, width > 0;
        assert(i + 1 <= j) by (nonlinear_arith)
            requires i == y * width + x, j == b * width + a, x < width, 0 <= a, (y + 1) * width <= b * width;
    } else if b < y {
        assert((b + 1) * width <= y * width) by (nonlinear_arith)
            requires b + 1 <= y, width > 0;
        assert(j + 1 <= i) by (nonlinear_arith)
            requires i == y * width + x, j == b * width + a, a < width, 0 <= x, (b + 1) * width <= y * width;
    } else {
        assert(i != j);
    }
    assert(i + 1 <= j ==> i * channels + channels <= j * channels) by (nonlinear_arith)
        requires channels > 0;
    assert(j + 1 <= i ==> j * channels + channels <= i * channels) by (nonlinear_arith)
        requires channels > 0;
}

/// Whether `len` bytes hold a `width` by `height` buffer of `channels` bytes per
/// pixel, with positive dimensions and a byte count that fits in an `i32`.
pub open spec fn packed_layout(width: int, height: int, channels: int, len: int) -> bool {
    &&& 0 < width
    &&& 0 < height
    &&& width * height * channels <= i32::MAX
    &&& len == width * height * channels
}

/// Decides `packed_layout` on machine values.
pub(crate) fn layout_fits(width: u32, height: u32, channels: u32, len: usize) -> (r: bool)
    requires
        1 <= channels <= 3,
    ensures
        r == packed_layout(width as int, height as int, channels as int, len as int),
        r ==> width <= i32::MAX && height <= i32::MAX,
{
    if width == 0 || height == 0 {
        return false;
    }
    assert((width as int) * (height as int) <= 0x1_0000_0000_0000_0000) by (nonlinear_arith)
        requires width <= 0xffff_ffff, height <= 0xffff_ffff;
    assert((width as int) * (height as int) * (channels as int) <= 0x3_0000_0000_0000_0000) by (nonlinear_arith)
        requires (width as int) * (height as int) <= 0x1_0000_0000_0000_0000, channels <= 3;
    let n: u128 = (width as u128) * (height as u128) * (channels as u128);
    assert(n <= i32::MAX ==> width <= i32::MAX && height <= i32::MAX) by (nonlinear_arith)
        requires n == (width as int) * (height as int) * (channels as int), width >= 1, height >= 1, channels >= 1;
    n <= i32::MAX as u128 && len as u128 == n
}

/// An RGB image of `width` by `height` pixels.
pub struct Image {
    pub width: i32,
    pub height: i32,
    pub data: Vec<u8>,
}

impl Image {
    /// Positive dimensions whose byte count fits in an `i32`, and a store of exactly
    /// that many bytes.
    pub open spec fn wf(&self) -> bool {
        &&& self.width > 0
        &&& self.height > 0
        &&& self.width * self.height * 3 <= i32::MAX
        &&& self.data@.len() == self.width * self.height * 3
    }

    pub open spec fn in_bounds(&self, x: int, y: int) -> bool {
        0 <= x < self.width && 0 <= y < self.height
    }

    /// The colour stored at `(x, y)`.
    pub open spec fn pixel(&self, x: int, y: int) -> Rgb {
        let o = offset_of(self.width as int, 3, x, y);
        (self.data@[o], self.data@[o + 1], self.data@[o + 2])
    }

    /// The image as rows of pixels, top row first.
    pub open spec fn grid(&self) -> Seq<Seq<Rgb>> {
        Seq::new(self.height as nat, |y: int| Seq::new(self.width as nat, |x: int| self.pixel(x, y)))
    }

    /// A zero-filled (black) image.
    pub fn new(width: i32, height: i32) -> (r: Image)
        requires
            width > 0,
            height > 0,
            width * height * 3 <= i32::MAX,
        ensures
            r.wf(),
            r.width == width,
            r.height == height,
            forall|x: int, y: int| r.in_bounds(x, y) ==> r.pixel(x, y) == (0u8, 0u8, 0u8),
    {
        let n: i32 = width * height * 3;
        let data: Vec<u8> = vec![0u8; n as usize];
        let r = Image { width, height, data };
        assert forall|x: int, y: int| r.in_bounds(x, y) implies r.pixel(x, y) == (0u8, 0u8, 0u8) by {
            lemma_offset_in_range(width as int, height as int, 3, x, y);
        }
        r
    }

    /// The image whose packed RGB rows are `data`, or `None` where `data` does not
    /// have that layout.
    pub fn from_raw(width: u32, height: u32, data: Vec<u8>) -> (r: Option<Image>)
        ensures
            r is Some <==> packed_layout(width as int, height as int, 3, data@.len() as int),
            r matches Some(img) ==> img.wf() && img.width == width && img.height == height && img.data@
                == data@,
    {
        if layout_fits(width, height, 3, data.len()) {
            Some(Image { width: width as i32, height: height as i32, data })
        } else {
            None
        }
    }

    /// Decodes a PNG stream held in memory into an RGB image.
    pub fn from_png(bytes: &[u8]) -> (r: Result<Image, PngError>)
        ensures
            !headers_fit(bytes@) ==> r == Err::<Image, PngError>(PngError::Header),
            headers_fit(bytes@) ==> match png_decoded(bytes@) {
                None => r == Err::<Image, PngError>(PngError::Decode),
                Some((w, h, d)) => if packed_layout(w as int, h as int, 3, d.len() as int) {
                    r matches Ok(img) && img.wf() && img.width == w && img.height == h && img.data@ == d
                } else {
                    r == Err::<Image, PngError>(PngError::Layout)
                },
            },
    {
        if !png_headers_fit(bytes) {
            return Err(PngError::Header);
        }
        match decode_png(bytes) {
            Err(_) => Err(PngError::Decode),
            Ok((w, h, d)) => match Image::from_raw(w, h, d) {
                Some(img) => Ok(img),
                None => Err(PngError::Layout),
            },
        }
    }

    /// Encodes the image as an 8-bit RGB PNG stream.
    pub fn save_png(&self) -> (r: Result<Vec<u8>, PngError>)
        requires
            self.wf(),
        ensures
            r is Ok,
            match png_encoded(self.width as u32, self.height as u32, self.data@) {
                Some(v) => r matches Ok(out) && out@ == v,
                None => r == Err::<Vec<u8>, PngError>(PngError::Encode),
            },
    {
        assert(self.data@.len() == 3 * (self.width as u32) * (self.height as u32)) by (nonlinear_arith)
            requires self.data@.len() == self.width * self.height * 3, self.width > 0, self.height > 0;
        match encode_png(self.width as u32, self.height as u32, self.data.as_slice()) {
            Ok(v) => Ok(v),
            Err(_) => Err(PngError::Encode),
        }
    }

    pub fn width(&self) -> (r: i32)
        ensures
            r == self.width,
    {
        self.width
    }

    pub fn height(&self) -> (r: i32)
        ensures
            r == self.height,
    {
        self.height
    }

    pub fn data(&self) -> (r: &[u8])
        ensures
            r@ == self.data@,
    {
        self.data.as_slice()
    }

    fn offset(&self, x: i32, y: i32) -> (r: usize)
        requires
            self.wf(),
            self.in_bounds(x as int, y as int),
        ensures
            r == offset_of(self.width as int, 3, x as int, y as int),
            r + 3 <= self.data@.len(),
    {
        proof {
            lemma_offset_in_range(self.width as int, self.height as int, 3, x as int, y as int);
        }
        ((y * self.width + x) * 3) as usize
    }

    /// The colour at `(x, y)`.
    pub fn get_pixel(&self, x: i32, y: i32) -> (r: Rgb)
        requires
            self.wf(),
            self.in_bounds(x as int, y as int),
        ensures
            r == self.grid()[y as int][x as int],
    {
        let o = self.offset(x, y);
        (self.data[o], self.data[o + 1], self.data[o + 2])
    }

    /// Writes `c` at `(x, y)` and leaves every other pixel as it was.
    pub fn set_pixel(&mut self, x: i32, y: i32, c: Rgb)
        requires
            old(self).wf(),
            old(self).in_bounds(x as int, y as int),
        ensures
            final(self).wf(),
            final(self).width == old(self).width,
            final(self).height == old(self).height,
            final(self).grid() == set_model(old(self).grid(), x as int, y as int, c),
    {
        let o = self.offset(x, y);
        self.data.set(o, c.0);
        self.data.set(o + 1, c.1);
        self.data.set(o + 2, c.2);
        proof {
            let w = self.width as int;
            assert forall|a: int, b: int| self.in_bounds(a, b) implies self.pixel(a, b) == (if a == x
                && b == y { c } else { old(self).pixel(a, b) }) by {
                lemma_offset_in_range(w, self.height as int, 3, a, b);
                if a != x || b != y {
                    lemma_offset_disjoint(w, 3, x as int, y as int, a, b);
                }
            }
            assert(self.grid() =~~= set_model(old(self).grid(), x as int, y as int, c));
        }
    }

    /// The colour at `(x, y)`, or `None` where the coordinate lies outside the image.
    pub fn sample(&self, x: i32, y: i32) -> (r: Option<Rgb>)
        requires
            self.wf(),
        ensures
            r == (if self.in_bounds(x as int, y as int) {
                Some(self.grid()[y as int][x as int])
            } else {
                None
            }),
    {
        if 0 <= x && x < self.width && 0 <= y && y < self.height {
            Some(self.get_pixel(x, y))
        } else {
            None
        }
    }

    /// Paints every pixel of the `width` by `height` rectangle whose top-left corner
    /// is `(x, y)` with `c`; all other pixels keep their colour.
    pub fn fill_rect(&mut self, x: i32, y: i32, width: i32, height: i32, c: Rgb)
        requires
            old(self).wf(),
            width > 0 && height > 0 ==> 0 <= x && 0 <= y && x + width <= old(self).width && y + height
                <= old(self).height,
        ensures
            final(self).wf(),
            final(self).width == old(self).width,
            final(self).height == old(self).height,
            final(self).grid() == fill_model(old(self).grid(), x as int, y as int, width as int, height as int, c),
    {
        let ghost g0 = self.grid();
        if width <= 0 || height <= 0 {
            assert(g0 =~~= fill_model(g0, x as int, y as int, width as int, height as int, c));
            return;
        }
        assert(g0 =~~= fill_model(g0, x as int, y as int, width as int, 0, c));
        let mut iy: i32 = 0;
        while iy < height
            invariant
                self.wf(),
                self.width == old(self).width,
                self.height == old(self).height,
                g0 == old(self).grid(),
                0 <= x,
                0 <= y,
                0 <= width,
                x + width <= self.width,
                y + height <= self.height,
                0 <= iy <= height,
                self.grid() == fill_model(g0, x as int, y as int, width as int, iy as int, c),
            decreases height - iy,
        {
            let ghost g1 = self.grid();
            assert(g1 =~~= fill_model(g1, x as int, (y + iy) as int, 0, 1, c));
            let mut ix: i32 = 0;
            while ix < width
                invariant
                    self.wf(),
                    self.width == old(self).width,
                    self.height == old(self).height,
                    0 <= x,
                    0 <= y,
                    0 <= width,
                    x + width <= self.width,
                    y + height <= self.height,
                    0 <= iy < height,
                    0 <= ix <= width,
                    g1 == fill_model(g0, x as int, y as int, width as int, iy as int, c),
                    self.grid() == fill_model(g1, x as int, (y + iy) as int, ix as int, 1, c),
                decreases width - ix,
            {
                self.set_pixel(x + ix, y + iy, c);
                assert(self.grid() =~~= fill_model(g1, x as int, (y + iy) as int, ix + 1, 1, c));
                ix = ix + 1;
            }
            assert(self.grid() =~~= fill_model(g0, x as int, y as int, width as int, iy + 1, c));
            iy = iy + 1;
        }
    }

    /// Paints rows `y0 .. y1` of column `x` with `c`; nothing when `y1 <= y0`.
    pub fn draw_vertical_line(&mut self, x: i32, y0: i32, y1: i32, c: Rgb)
        requires
            old(self).wf(),
            y0 < y1 ==> 0 <= x < old(self).width && 0 <= y0 && y1 <= old(self).height,
        ensures
            final(self).wf(),
            final(self).width == old(self).width,
            final(self).height == old(self).height,
            final(self).grid() == fill_model(old(self).grid(), x as int, y0 as int, 1, y1 - y0, c),
    {
        let ghost g0 = self.grid();
        if y1 <= y0 {
            assert(fill_model(g0, x as int, y0 as int, 1, y1 - y0, c) =~~= g0);
            return;
        }
        assert(g0 =~~= fill_model(g0, x as int, y0 as int, 1, 0, c));
        let mut y: i32 = y0;
        while y < y1
            invariant
                self.wf(),
                self.width == old(self).width,
                self.height == old(self).height,
                g0 == old(self).grid(),
                0 <= x < self.width,
                y0 < y1,
                0 <= y0 && y1 <= self.height,
                y0 <= y <= y1,
                self.grid() == fill_model(g0, x as int, y0 as int, 1, y - y0, c),
            decreases y1 - y,
        {
            self.set_pixel(x, y, c);
            assert(self.grid() =~~= fill_model(g0, x as int, y0 as int, 1, y + 1 - y0, c));
            y = y + 1;
        }
    }

    /// Copies the `width` by `height` rectangle of `img` at `(sx, sy)` into this
    /// image at `(dx, dy)`; pixels outside the destination rectangle are kept.
    pub fn draw(&mut self, img: &Image, sx: i32, sy: i32, width: i32, height: i32, dx: i32, dy: i32)
        requires
            old(self).wf(),
            img.wf(),
            width > 0 && height > 0 ==> 0 <= sx && 0 <= sy && sx + width <= img.width && sy + height
                <= img.height,
            width > 0 && height > 0 ==> 0 <= dx && 0 <= dy && dx + width <= old(self).width && dy + height
                <= old(self).height,
        ensures
            final(self).wf(),
            final(self).width == old(self).width,
            final(self).height == old(self).height,
            final(self).grid() == blit_model(
                old(self).grid(),
                img.grid(),
                sx as int,
                sy as int,
                width as int,
                height as int,
                dx as int,
                dy as int,
            ),
    {
        let ghost g0 = self.grid();
        let ghost s = img.grid();
        if width <= 0 || height <= 0 {
            assert(g0 =~~= blit_model(g0, s, sx as int, sy as int, width as int, height as int, dx as int, dy as int));
            return;
        }
        assert(g0 =~~= blit_model(g0, s, sx as int, sy as int, width as int, 0, dx as int, dy as int));
        let mut y: i32 = 0;
        while y < height
            invariant
                self.wf(),
                img.wf(),
                s == img.grid(),
                self.width == old(self).width,
                self.height == old(self).height,
                g0 == old(self).grid(),
                0 <= width,
                0 <= sx,
                0 <= sy,
                sx + width <= img.width,
                sy + height <= img.height,
                0 <= dx,
                0 <= dy,
                dx + width <= self.width,
                dy + height <= self.height,
                0 <= y <= height,
                self.grid() == blit_model(g0, s, sx as int, sy as int, width as int, y as int, dx as int, dy as int),
            decreases height - y,
        {
            let ghost g1 = self.grid();
            assert(g1 =~~= blit_model(g1, s, sx as int, (sy + y) as int, 0, 1, dx as int, (dy + y) as int));
            let mut x: i32 = 0;
            while x < width
                invariant
                    self.wf(),
                    img.wf(),
                    s == img.grid(),
                    self.width == old(self).width,
                    self.height == old(self).height,
                    0 <= width,
                    0 <= sx,
                    0 <= sy,
                    sx + width <= img.width,
                    sy + height <= img.height,
                    0 <= dx,
                    0 <= dy,
                    dx + width <= self.width,
                    dy + height <= self.height,
                    0 <= y < height,
                    0 <= x <= width,
                    g1 == blit_model(g0, s, sx as int, sy as int, width as int, y as int, dx as int, dy as int),
                    self.grid() == blit_model(g1, s, sx as int, (sy + y) as int, x as int, 1, dx as int, (dy + y) as int),
                decreases width - x,
            {
                let c = img.get_pixel(sx + x, sy + y);
                self.set_pixel(dx + x, dy + y, c);
                assert(self.grid() =~~= blit_model(g1, s, sx as int, (sy + y) as int, x + 1, 1, dx as int, (dy + y) as int));
                x = x + 1;
            }
            assert(self.grid() =~~= blit_model(g0, s, sx as int, sy as int, width as int, y + 1, dx as int, dy as int));
            y = y + 1;
        }
    }
}

/// Whether `(a, b)` lies in the `w` by `h` rectangle with top-left corner `(x, y)`.
pub open spec fn in_rect(x: int, y: int, w: int, h: int, a: int, b: int) -> bool {
    x <= a < x + w && y <= b < y + h
}

/// The grid `g` with the rectangle at `(x, y)` of size `w` by `h` painted `c`.
pub open spec fn fill_model(g: Seq<Seq<Rgb>>, x: int, y: int, w: int, h: int, c: Rgb) -> Seq<Seq<Rgb>> {
    Seq::new(g.len(), |b: int| Seq::new(g[b].len(), |a: int| if in_rect(x, y, w, h, a, b) { c } else { g[b][a] }))
}

/// The grid `g` with its rectangle at `(dx, dy)` of size `w` by `h` replaced by the
/// same-sized rectangle of `s` at `(sx, sy)`.
pub open spec fn blit_model(
    g: Seq<Seq<Rgb>>,
    s: Seq<Seq<Rgb>>,
    sx: int,
    sy: int,
    w: int,
    h: int,
    dx: int,
    dy: int,
) -> Seq<Seq<Rgb>> {
    Seq::new(
        g.len(),
        |b: int|
            Seq::new(
                g[b].len(),
                |a: int| if in_rect(dx, dy, w, h, a, b) { s[b - dy + sy][a - dx + sx] } else { g[b][a] },
            ),
    )
}

/// Reading a pixel back after writing it gives the written colour, and every other
/// pixel keeps its colour.
pub proof fn lemma_set_then_get(img: Image, x: int, y: int, c: Rgb)
    requires
        img.wf(),
        img.in_bounds(x, y),
    ensures
        set_model(img.grid(), x, y, c)[y][x] == c,
        forall|a: int, b: int|
            img.in_bounds(a, b) && (a != x || b != y) ==> #[trigger] set_model(img.grid(), x, y, c)[b][a]
                == img.grid()[b][a],
{
}

/// After filling a rectangle, every pixel inside it holds the fill colour and every
/// pixel outside it is unchanged.
pub proof fn lemma_fill_then_get(img: Image, x: int, y: int, w: int, h: int, c: Rgb, a: int, b: int)
    requires
        img.wf(),
        img.in_bounds(a, b),
    ensures
        in_rect(x, y, w, h, a, b) ==> fill_model(img.grid(), x, y, w, h, c)[b][a] == c,
        !in_rect(x, y, w, h, a, b) ==> fill_model(img.grid(), x, y, w, h, c)[b][a] == img.grid()[b][a],
{
}

/// A vertical span with `y1 <= y0` changes nothing; otherwise it writes exactly
/// the `y1 - y0` pixels of column `x` in rows `y0 .. y1`.
pub proof fn lemma_span_extent(img: Image, x: int, y0: int, y1: int, c: Rgb)
    requires
        img.wf(),
        y0 < y1 ==> 0 <= x < img.width && 0 <= y0 && y1 <= img.height,
    ensures
        y1 <= y0 ==> fill_model(img.grid(), x, y0, 1, y1 - y0, c) == img.grid(),
        forall|a: int, b: int|
            img.in_bounds(a, b) ==> (#[trigger] fill_model(img.grid(), x, y0, 1, y1 - y0, c)[b][a] == if a == x
                && vstd::set_lib::set_int_range(y0, y1).contains(b) {
                c
            } else {
                img.grid()[b][a]
            }),
        y0 < y1 ==> vstd::set_lib::set_int_range(y0, y1).len() == y1 - y0,
{
    if y1 <= y0 {
        assert(fill_model(img.grid(), x, y0, 1, y1 - y0, c) =~~= img.grid());
    } else {
        vstd::set_lib::lemma_int_range(y0, y1);
    }
}

/// The grid `g` with the pixel at `(x, y)` replaced by `c`.
pub open spec fn set_model(g: Seq<Seq<Rgb>>, x: int, y: int, c: Rgb) -> Seq<Seq<Rgb>> {
    g.update(y, g[y].update(x, c))
}

} // verus!
