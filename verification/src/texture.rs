//! Bitmap texture storage and byte-exact pixel lookup.
//!
//! Decoding an image file is an external concern; the renderer consumes the
//! result as a raw `width x height x 3` byte array.  This module owns that
//! array: it rejects empty dimensions or a mis-sized buffer at construction,
//! and serves nearest-neighbour lookups with the out-of-range clamp the
//! shading code relies on.

use vstd::prelude::*;

use crate::Rgb;

verus! {

/// A decoded bitmap held as raw 8-bit RGB rows, top row first.
#[derive(Clone)]
pub struct ImageTexture {
    pub width: u32,
    pub height: u32,
    pub data: Vec<u8>,
}

impl ImageTexture {
    /// Both dimensions are positive and the byte buffer holds exactly one
    /// R, G, B triple per pixel.
    pub open spec fn wf(self) -> bool {
        &&& self.width >= 1
        &&& self.height >= 1
        &&& self.data@.len() == 3 * (self.width as int) * (self.height as int)
    }

    /// Accepts the raw bytes of a decoded image; a zero dimension or a
    /// buffer of the wrong length is a configuration error.
    pub fn new(width: u32, height: u32, data: Vec<u8>) -> (r: Option<ImageTexture>)
        ensures
            r is Some <==> (width >= 1 && height >= 1 && data@.len() == 3 * (width as int) * (
            height as int)),
            r matches Some(t) ==> t.wf() && t.width == width && t.height == height && t.data@
                == data@,
    {
        proof {
            assert((width as int) * (height as int) < 0x1_0000_0000_0000_0000 && 0 <= (width as int)
                * (height as int) && 3 * ((width as int) * (height as int)) == 3 * (width as int) * (
            height as int)) by (nonlinear_arith)
                requires
                    0 <= (width as int) < 0x1_0000_0000,
                    0 <= (height as int) < 0x1_0000_0000,
            ;
        }
        let pixels: u64 = (width as u64) * (height as u64);
        let bytes: u128 = 3 * (pixels as u128);
        if width == 0 || height == 0 || (data.len() as u128) != bytes {
            return None;
        }
        Some(ImageTexture { width, height, data })
    }

    /// The colour of texel `(i, j)`; coordinates past the last column or row
    /// are clamped to it.
    pub fn pixel(&self, i: u32, j: u32) -> (rgb: Rgb)
        requires
            self.wf(),
        ensures
            ({
                let ci = if i < self.width {
                    i as int
                } else {
                    self.width - 1
                };
                let cj = if j < self.height {
                    j as int
                } else {
                    self.height - 1
                };
                let o = 3 * (ci + cj * (self.width as int));
                rgb.r == self.data@[o] && rgb.g == self.data@[o + 1] && rgb.b == self.data@[o + 2]
            }),
    {
        let ci = if i < self.width {
            i
        } else {
            self.width - 1
        };
        let cj = if j < self.height {
            j
        } else {
            self.height - 1
        };
        let dlen: usize = self.data.len();
        proof {
            assert(self.data@.len() == dlen as int && dlen as int <= usize::MAX);
            assert((ci as int) + (cj as int) * (self.width as int) < (self.width as int) * (
            self.height as int) && 0 <= (cj as int) * (self.width as int) && 3 * ((self.width as int)
                * (self.height as int)) == 3 * (self.width as int) * (self.height as int))
                by (nonlinear_arith)
                requires
                    0 <= (ci as int) < (self.width as int),
                    0 <= (cj as int) < (self.height as int),
            ;
        }
        let o: usize = 3 * ((ci as usize) + (cj as usize) * (self.width as usize));
        Rgb { r: self.data[o], g: self.data[o + 1], b: self.data[o + 2] }
    }
}

} // verus!
