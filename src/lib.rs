//! Plays video as text: each frame of raw RGB24 pixels is sampled into a grid
//! of ASCII glyphs, optionally coloured with 24-bit ANSI escapes, and shown on
//! a frame clock.
use vstd::prelude::*;

verus! {

pub mod glyph;
pub mod sampler;
pub mod text;
pub mod frame;
pub mod dims;
pub mod sink;
pub mod pacer;

} // verus!
