//! Support library for an offline Monte Carlo path tracer.
//!
//! The renderer's job splits into exact, discrete bookkeeping and
//! floating-point shading.  This crate owns the bookkeeping: the
//! framebuffer layout and pixel blit (`cast_rays`), the bounding-volume
//! hierarchy in both its tree and flattened forms (`bvh`), the Perlin
//! permutation tables (`perlin`), and byte-level bitmap texture lookup
//! (`texture`).  The shading kernels that feed it are plain numeric code
//! kept outside the crate.

use vstd::prelude::*;

mod rng;

pub mod bvh;
pub mod perlin;
pub mod texture;

verus! {

/// Rendering quality knobs: how many camera rays are drawn per pixel and
/// how many bounces a single ray may take before it is given up as absorbed.
pub struct Options {
    pub pixel_samples: u16,
    pub ray_bounces: u8,
}

/// One tonemapped 8-bit RGB pixel, ready for the framebuffer.
#[derive(Clone, Copy, Debug, PartialEq, Eq)]
pub struct Rgb {
    pub r: u8,
    pub g: u8,
    pub b: u8,
}

/// Inputs rejected before any pixel is written.
#[derive(Debug, PartialEq, Eq)]
pub enum RenderError {
    /// The framebuffer does not hold exactly `3 * width * height` bytes.
    FramebufferLength,
    /// The colour buffer does not hold exactly `width * height` pixels.
    ColourCount,
}

/// The bytes of pixel `(px, py)` in `fb` equal the colour at the matching
/// row-major index of `colours`.
spec fn pixel_written(fb: Seq<u8>, colours: Seq<Rgb>, width: int, px: int, py: int) -> bool {
    let p = px + py * width;
    &&& fb[3 * p] == colours[p].r
    &&& fb[3 * p + 1] == colours[p].g
    &&& fb[3 * p + 2] == colours[p].b
}

/// Writes one already-shaded colour per pixel into the framebuffer.
///
/// The framebuffer is row-major with the top row first; each pixel is three
/// consecutive bytes R, G, B.  `colours` holds one entry per pixel at the
/// same row-major index.  Buffers of the wrong length are rejected before
/// anything is written.
pub fn cast_rays(fb: &mut Vec<u8>, width: u32, height: u32, colours: &Vec<Rgb>) -> (res: Result<(), RenderError>)
    ensures
        match res {
            Ok(()) => {
                &&& old(fb)@.len() == 3 * (width as int) * (height as int)
                &&& colours@.len() == (width as int) * (height as int)
                &&& final(fb)@.len() == old(fb)@.len()
                &&& forall|i: int|
                    0 <= i < final(fb)@.len() ==> #[trigger] final(fb)@[i] == ({
                        let p = i / 3;
                        if i % 3 == 0 {
                            colours@[p].r
                        } else if i % 3 == 1 {
                            colours@[p].g
                        } else {
                            colours@[p].b
                        }
                    })
            },
            Err(RenderError::FramebufferLength) => {
                &&& old(fb)@.len() != 3 * (width as int) * (height as int)
                &&& final(fb)@ == old(fb)@
            },
            Err(RenderError::ColourCount) => {
                &&& old(fb)@.len() == 3 * (width as int) * (height as int)
                &&& colours@.len() != (width as int) * (height as int)
                &&& final(fb)@ == old(fb)@
            },
        },
{
    proof {
        assert((width as int) * (height as int) < 0x1_0000_0000_0000_0000) by (nonlinear_arith)
            requires
                (width as int) < 0x1_0000_0000,
                (height as int) < 0x1_0000_0000,
                0 <= (width as int),
                0 <= (height as int),
        ;
        assert(3 * ((width as int) * (height as int)) == 3 * (width as int) * (height as int))
            by (nonlinear_arith);
        assert(0 <= (width as int) * (height as int)) by (nonlinear_arith)
            requires
                0 <= (width as int),
                0 <= (height as int),
        ;
    }
    let pixels: u64 = (width as u64) * (height as u64);
    let bytes: u128 = 3 * (pixels as u128);
    if (fb.len() as u128) != bytes {
        return Err(RenderError::FramebufferLength);
    }
    if (colours.len() as u128) != (pixels as u128) {
        return Err(RenderError::ColourCount);
    }
    let fblen: usize = fb.len();
    proof {
        assert(fb@.len() == fblen as int);
        assert(fb@.len() == 3 * (width as int) * (height as int));
        assert(fb@.len() <= usize::MAX);
    }

    let w = width as usize;
    let mut x: u32 = 0;
    while x < width
        invariant
            x <= width,
            w == width as int,
            fb@.len() <= usize::MAX,
            fb@.len() == 3 * (width as int) * (height as int),
            colours@.len() == (width as int) * (height as int),
            forall|px: int, py: int|
                0 <= px < x && 0 <= py < height ==> #[trigger] pixel_written(
                    fb@,
                    colours@,
                    width as int,
                    px,
                    py,
                ),
        decreases width - x,
    {
        let mut y: u32 = 0;
        while y < height
            invariant
                x < width,
                y <= height,
                w == width as int,
                fb@.len() <= usize::MAX,
                fb@.len() == 3 * (width as int) * (height as int),
                colours@.len() == (width as int) * (height as int),
                forall|px: int, py: int|
                    0 <= px < x && 0 <= py < height ==> #[trigger] pixel_written(
                        fb@,
                        colours@,
                        width as int,
                        px,
                        py,
                    ),
                forall|py: int|
                    0 <= py < y ==> #[trigger] pixel_written(fb@, colours@, width as int, x as int, py),
            decreases height - y,
        {
            proof {
                assert((x as int) + (y as int) * (width as int) < (width as int) * (height as int)
                    && 0 <= (y as int) * (width as int) && 3 * ((width as int) * (height as int))
                    == 3 * (width as int) * (height as int)) by (nonlinear_arith)
                    requires
                        0 <= (x as int) < (width as int),
                        0 <= (y as int) < (height as int),
                ;
            }
            let ghost pre = fb@;
            let p: usize = (x as usize) + (y as usize) * w;
            let offset: usize = 3 * p;
            let colour = colours[p];
            fb.set(offset, colour.r);
            fb.set(offset + 1, colour.g);
            fb.set(offset + 2, colour.b);
            proof {
                let wi = width as int;
                let pc = (x as int) + (y as int) * wi;
                assert(offset as int == 3 * pc);
                assert forall|px: int, py: int|
                    0 <= px < (x as int) && 0 <= py < (height as int) implies #[trigger] pixel_written(
                    fb@,
                    colours@,
                    width as int,
                    px,
                    py,
                ) by {
                    let q = px + py * wi;
                    assert(pixel_written(pre, colours@, wi, px, py));
                    assert(0 <= 3 * q && 3 * q + 2 < fb@.len()) by (nonlinear_arith)
                        requires
                            q == px + py * wi,
                            0 <= px < wi,
                            0 <= py < (height as int),
                            fb@.len() == 3 * wi * (height as int),
                    ;
                    assert(q != pc) by (nonlinear_arith)
                        requires
                            q == px + py * wi,
                            pc == (x as int) + (y as int) * wi,
                            0 <= px < (x as int),
                            0 <= py,
                            0 <= (y as int),
                            (x as int) < wi,
                    ;
                    assert(fb@[3 * q] == pre[3 * q] && fb@[3 * q + 1] == pre[3 * q + 1] && fb@[3 * q
                        + 2] == pre[3 * q + 2]);
                }
                assert forall|py: int| 0 <= py <= (y as int) implies #[trigger] pixel_written(
                    fb@,
                    colours@,
                    width as int,
                    x as int,
                    py,
                ) by {
                    let q = (x as int) + py * wi;
                    if py < y as int {
                        assert(pixel_written(pre, colours@, wi, x as int, py));
                        assert(0 <= 3 * q && 3 * q + 2 < fb@.len()) by (nonlinear_arith)
                            requires
                                q == (x as int) + py * wi,
                                0 <= (x as int) < wi,
                                0 <= py < (height as int),
                                py < (y as int) <= (height as int),
                                fb@.len() == 3 * wi * (height as int),
                        ;
                        assert(q != pc) by (nonlinear_arith)
                            requires
                                q == (x as int) + py * wi,
                                pc == (x as int) + (y as int) * wi,
                                0 <= py < (y as int),
                                0 < wi,
                        ;
                        assert(fb@[3 * q] == pre[3 * q] && fb@[3 * q + 1] == pre[3 * q + 1] && fb@[3
                            * q + 2] == pre[3 * q + 2]);
                    } else {
                        assert(q == pc);
                        assert(fb@[3 * q] == colour.r && fb@[3 * q + 1] == colour.g && fb@[3 * q + 2]
                            == colour.b);
                    }
                }
            }
            y = y + 1;
        }
        x = x + 1;
    }

    proof {
        let wi = width as int;
        let hi = height as int;
        assert forall|i: int| 0 <= i < fb@.len() implies #[trigger] fb@[i] == ({
            let p = i / 3;
            if i % 3 == 0 {
                colours@[p].r
            } else if i % 3 == 1 {
                colours@[p].g
            } else {
                colours@[p].b
            }
        }) by {
            let p = i / 3;
            let c = i % 3;
            vstd::arithmetic::div_mod::lemma_fundamental_div_mod(i, 3);
            vstd::arithmetic::div_mod::lemma_mod_bound(i, 3);
            vstd::arithmetic::div_mod::lemma_div_pos_is_pos(i, 3);
            assert(0 <= p && p < wi * hi && 0 < wi) by (nonlinear_arith)
                requires
                    i == 3 * p + c,
                    0 <= c < 3,
                    0 <= i,
                    i < 3 * wi * hi,
                    0 <= p,
                    0 <= wi,
                    0 <= hi,
            ;
            let px = p % wi;
            let py = p / wi;
            vstd::arithmetic::div_mod::lemma_fundamental_div_mod(p, wi);
            vstd::arithmetic::div_mod::lemma_mod_bound(p, wi);
            vstd::arithmetic::div_mod::lemma_div_pos_is_pos(p, wi);
            assert(py < hi) by (nonlinear_arith)
                requires
                    p == wi * py + px,
                    0 <= px < wi,
                    0 <= py,
                    p < wi * hi,
            ;
            assert(pixel_written(fb@, colours@, wi, px, py));
            assert(p == px + py * wi);
            assert(i == 3 * p + c);
        }
    }
    Ok(())
}

} // verus!
