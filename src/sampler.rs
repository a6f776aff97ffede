//! Nearest-neighbour sampling of an RGB24 frame buffer.
//!
//! A sample position is given in half cells: `(x2, y2)` stands for the point
//! `(x2 / 2, y2 / 2)` of the character grid. With the scale factor held as the
//! exact ratio `source / target`, the source pixel is
//! `floor(x2 * source_w / (2 * target_w))`, and likewise for rows.
use vstd::prelude::*;

verus! {

/// The ratio between the source raster and the character grid, per axis:
/// `num.0 / den.0` horizontally and `num.1 / den.1` vertically.
#[derive(Clone, Copy, Debug, PartialEq, Eq)]
pub struct ScaleFactor {
    pub num: (usize, usize),
    pub den: (usize, usize),
}

impl ScaleFactor {
    /// The factor that maps a grid of `target_dims` cells onto `source_dims` pixels.
    pub fn new(source_dims: &(usize, usize), target_dims: &(usize, usize)) -> (r: ScaleFactor)
        ensures
            r.num == *source_dims,
            r.den == *target_dims,
    {
        ScaleFactor { num: *source_dims, den: *target_dims }
    }
}

/// `floor((h / 2) * num / den)`: a half-cell coordinate scaled to a source pixel.
pub open spec fn scaled(h: nat, num: nat, den: nat) -> nat {
    (h * num) / (2 * den)
}

/// Row-major pixel index of the sample at half-cell position `(x2, y2)`.
pub open spec fn pixel_index(sd: (usize, usize), sf: ScaleFactor, x2: nat, y2: nat) -> nat {
    (scaled(y2, sf.num.1 as nat, sf.den.1 as nat) * sd.0 + scaled(x2, sf.num.0 as nat, sf.den.0 as nat)) as nat
}

/// The colour at a sample position, or black where the index falls outside the raster.
pub open spec fn color_at(buf: Seq<u8>, sd: (usize, usize), sf: ScaleFactor, x2: nat, y2: nat) -> (u8, u8, u8) {
    let idx = pixel_index(sd, sf, x2, y2) as int;
    if idx < sd.0 * sd.1 {
        (buf[3 * idx], buf[3 * idx + 1], buf[3 * idx + 2])
    } else {
        (0, 0, 0)
    }
}

/// The luminance proxy: each channel divided by three before the sum.
pub open spec fn luma(c: (u8, u8, u8)) -> u8 {
    (c.0 / 3 + c.1 / 3 + c.2 / 3) as u8
}

pub open spec fn frame_len_ok(buf: Seq<u8>, sd: (usize, usize)) -> bool {
    buf.len() == 3 * sd.0 * sd.1
}

/// The colour of the source pixel under half-cell position `(x2, y2)`.
pub fn sample_buffer_color(
    buf: &[u8],
    source_dims: &(usize, usize),
    scale_factor: &ScaleFactor,
    x2: usize,
    y2: usize,
) -> (r: (u8, u8, u8))
    requires
        frame_len_ok(buf@, *source_dims),
        scale_factor.den.0 > 0,
        scale_factor.den.1 > 0,
    ensures
        r == color_at(buf@, *source_dims, *scale_factor, x2 as nat, y2 as nat),
{
    let w = source_dims.0;
    let h = source_dims.1;
    let (nx, ny) = scale_factor.num;
    let (dx, dy) = scale_factor.den;
    proof {
        assert((x2 as nat) * (nx as nat) <= 0xffff_ffff_ffff_ffffnat * 0xffff_ffff_ffff_ffffnat)
            by (nonlinear_arith);
        assert((y2 as nat) * (ny as nat) <= 0xffff_ffff_ffff_ffffnat * 0xffff_ffff_ffff_ffffnat)
            by (nonlinear_arith);
    }
    let sx: u128 = (x2 as u128 * nx as u128) / (2 * dx as u128);
    let sy: u128 = (y2 as u128 * ny as u128) / (2 * dy as u128);
    let ghost idx = pixel_index(*source_dims, *scale_factor, x2 as nat, y2 as nat);
    assert(sx == scaled(x2 as nat, nx as nat, dx as nat));
    assert(sy == scaled(y2 as nat, ny as nat, dy as nat));
    if sy >= h as u128 {
        proof {
            assert(sy * w >= h * w) by (nonlinear_arith)
                requires sy >= h;
            assert(idx >= w * h) by (nonlinear_arith)
                requires idx == sy * w + sx, sy * w >= h * w;
        }
        return (0, 0, 0);
    }
    let syu = sy as usize;
    proof {
        assert(syu * w <= (h - 1) * w) by (nonlinear_arith)
            requires syu < h;
        assert((h - 1) * w + w == h * w) by (nonlinear_arith);
        assert(3 * (w * h) == 3 * w * h) by (nonlinear_arith);
    }
    let n = buf.len();
    assert(w * h <= n);
    let row = syu * w;
    let total = w * h;
    if sx >= (total - row) as u128 {
        return (0, 0, 0);
    }
    let idx_e = row + sx as usize;
    assert(idx_e == idx);
    (buf[3 * idx_e], buf[3 * idx_e + 1], buf[3 * idx_e + 2])
}

/// The luminance proxy of the source pixel under half-cell position `(x2, y2)`.
pub fn sample_buffer(
    buf: &[u8],
    source_dims: &(usize, usize),
    scale_factor: &ScaleFactor,
    x2: usize,
    y2: usize,
) -> (r: u8)
    requires
        frame_len_ok(buf@, *source_dims),
        scale_factor.den.0 > 0,
        scale_factor.den.1 > 0,
    ensures
        r == luma(color_at(buf@, *source_dims, *scale_factor, x2 as nat, y2 as nat)),
        r as int == buf_luma_int(color_at(buf@, *source_dims, *scale_factor, x2 as nat, y2 as nat)),
{
    let (r, g, b) = sample_buffer_color(buf, source_dims, scale_factor, x2, y2);
    r / 3 + g / 3 + b / 3
}

/// The luminance proxy over unbounded integers: `r/3 + g/3 + b/3`, channel by channel.
pub open spec fn buf_luma_int(c: (u8, u8, u8)) -> int {
    (c.0 as int) / 3 + (c.1 as int) / 3 + (c.2 as int) / 3
}

} // verus!
