//! A single-channel elevation field: one byte per sample, `0` lowest and `255`
//! highest (the normalised elevation is the byte divided by 255).

use vstd::prelude::*;
use crate::codec::{PngError, decode_png, headers_fit, png_headers_fit, png_decoded};
use crate::image::{offset_of, lemma_offset_in_range, packed_layout, layout_fits};

verus! {

/// A `width` by `height` grid of elevation samples, row-major.
pub struct HeightMap {
    pub width: i32,
    pub height: i32,
    pub data: Vec<u8>,
}

impl HeightMap {
    /// Positive dimensions whose sample count fits in an `i32`, and exactly that
    /// many samples.
    pub open spec fn wf(&self) -> bool {
        &&& self.width > 0
        &&& self.height > 0
        &&& self.width * self.height <= i32::MAX
        &&& self.data@.len() == self.width * self.height
    }

    pub open spec fn in_bounds(&self, x: int, y: int) -> bool {
        0 <= x < self.width && 0 <= y < self.height
    }

    /// The field as rows of samples, top row first.
    pub open spec fn samples(&self) -> Seq<Seq<u8>> {
        Seq::new(
            self.height as nat,
            |y: int| Seq::new(self.width as nat, |x: int| self.data@[offset_of(self.width as int, 1, x, y)]),
        )
    }

    /// The field whose packed samples are `data`, or `None` where `data` does not
    /// hold one byte per sample.
    pub fn from_raw(width: u32, height: u32, data: Vec<u8>) -> (r: Option<HeightMap>)
        ensures
            r is Some <==> packed_layout(width as int, height as int, 1, data@.len() as int),
            r matches Some(m) ==> m.wf() && m.width == width && m.height == height && m.data@ == data@,
    {
        if layout_fits(width, height, 1, data.len()) {
            Some(HeightMap { width: width as i32, height: height as i32, data })
        } else {
            None
        }
    }

    /// Decodes a single-channel 8-bit PNG stream held in memory into a field.
    pub fn from_png(bytes: &[u8]) -> (r: Result<HeightMap, PngError>)
        ensures
            !headers_fit(bytes@) ==> r == Err::<HeightMap, PngError>(PngError::Header),
            headers_fit(bytes@) ==> match png_decoded(bytes@) {
                None => r == Err::<HeightMap, PngError>(PngError::Decode),
                Some((w, h, d)) => if packed_layout(w as int, h as int, 1, d.len() as int) {
                    r matches Ok(m) && m.wf() && m.width == w && m.height == h && m.data@ == d
                } else {
                    r == Err::<HeightMap, PngError>(PngError::Layout)
                },
            },
    {
        if !png_headers_fit(bytes) {
            return Err(PngError::Header);
        }
        match decode_png(bytes) {
            Err(_) => Err(PngError::Decode),
            Ok((w, h, d)) => match HeightMap::from_raw(w, h, d) {
                Some(m) => Ok(m),
                None => Err(PngError::Layout),
            },
        }
    }

    pub fn width(&self) -> (r: i32)
        ensures
            r == self.width,
    {
        self.width
    }

    pub fn height(&self) -> (r: i32)
        ensures
            r == self.height,
    {
        self.height
    }

    pub fn data(&self) -> (r: &[u8])
        ensures
            r@ == self.data@,
    {
        self.data.as_slice()
    }

    /// The raw elevation byte at `(x, y)`.
    pub fn get_sample(&self, x: i32, y: i32) -> (r: u8)
        requires
            self.wf(),
            self.in_bounds(x as int, y as int),
        ensures
            r == self.samples()[y as int][x as int],
    {
        proof {
            lemma_offset_in_range(self.width as int, self.height as int, 1, x as int, y as int);
        }
        self.data[(y * self.width + x) as usize]
    }

    /// The raw elevation byte at `(x, y)`, or `None` outside the field.
    pub fn sample(&self, x: i32, y: i32) -> (r: Option<u8>)
        requires
            self.wf(),
        ensures
            r == (if self.in_bounds(x as int, y as int) {
                Some(self.samples()[y as int][x as int])
            } else {
                None
            }),
    {
        if 0 <= x && x < self.width && 0 <= y && y < self.height {
            Some(self.get_sample(x, y))
        } else {
            None
        }
    }
}

} // verus!
