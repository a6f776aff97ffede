//! Glyph selection: a 2x2 quadrant of luminance samples becomes one ASCII glyph.
use vstd::prelude::*;

verus! {

/// Four luminance samples of one cell: top-left, top-right, bottom-left, bottom-right.
pub type Quadrant = (u8, u8, u8, u8);

pub open spec fn dark(v: u8) -> bool {
    v <= 127
}

pub open spec fn bright(v: u8) -> bool {
    v >= 128
}

pub open spec fn in_band(v: u8, lo: u8, hi: u8) -> bool {
    lo <= v <= hi
}

/// The classification table, read top to bottom; the first matching row wins.
pub open spec fn glyph_of(q: Quadrant) -> char {
    let (a, b, c, d) = q;
    if dark(a) && dark(b) && bright(c) && bright(d) {
        '_'
    } else if bright(a) && bright(b) && dark(c) && dark(d) {
        '^'
    } else if dark(a) && bright(b) && dark(c) && bright(d) {
        '|'
    } else if bright(a) && dark(b) && bright(c) && dark(d) {
        '|'
    } else if dark(a) && b >= 192 && bright(c) && bright(d) {
        '/'
    } else if bright(a) && bright(b) && bright(c) && dark(d) {
        '/'
    } else if bright(a) && dark(b) && bright(c) && bright(d) {
        '\\'
    } else if bright(a) && bright(b) && dark(c) && bright(d) {
        '\\'
    } else if bright(a) && dark(b) && dark(c) && dark(d) {
        '\''
    } else if dark(a) && dark(b) && dark(c) && bright(d) {
        '.'
    } else if dark(a) && bright(b) && dark(c) && dark(d) {
        '\''
    } else if dark(a) && dark(b) && bright(c) && dark(d) {
        '.'
    } else if in_band(a, 0, 63) && in_band(b, 0, 63) && in_band(c, 0, 63) && in_band(d, 0, 63) {
        ' '
    } else if in_band(a, 64, 127) && in_band(b, 64, 127) && in_band(c, 64, 127) && in_band(
        d,
        64,
        127,
    ) {
        '-'
    } else if in_band(a, 128, 191) && in_band(b, 128, 191) && in_band(c, 128, 191) && in_band(
        d,
        128,
        191,
    ) {
        'c'
    } else if in_band(a, 192, 255) && in_band(b, 192, 255) && in_band(c, 192, 255) && in_band(
        d,
        192,
        255,
    ) {
        '@'
    } else {
        ' '
    }
}

/// The glyphs the selector can produce.
pub open spec fn is_glyph(c: char) -> bool {
    c == '_' || c == '^' || c == '|' || c == '/' || c == '\\' || c == '\'' || c == '.' || c
        == ' ' || c == '-' || c == 'c' || c == '@'
}

/// Picks the glyph for a quadrant of luminance samples.
pub fn select_char(vals: &Quadrant) -> (r: char)
    ensures
        r == glyph_of(*vals),
        is_glyph(r),
{
    let (a, b, c, d) = *vals;
    if a <= 127 && b <= 127 && c >= 128 && d >= 128 {
        '_'
    } else if a >= 128 && b >= 128 && c <= 127 && d <= 127 {
        '^'
    } else if a <= 127 && b >= 128 && c <= 127 && d >= 128 {
        '|'
    } else if a >= 128 && b <= 127 && c >= 128 && d <= 127 {
        '|'
    } else if a <= 127 && b >= 192 && c >= 128 && d >= 128 {
        '/'
    } else if a >= 128 && b >= 128 && c >= 128 && d <= 127 {
        '/'
    } else if a >= 128 && b <= 127 && c >= 128 && d >= 128 {
        '\\'
    } else if a >= 128 && b >= 128 && c <= 127 && d >= 128 {
        '\\'
    } else if a >= 128 && b <= 127 && c <= 127 && d <= 127 {
        '\''
    } else if a <= 127 && b <= 127 && c <= 127 && d >= 128 {
        '.'
    } else if a <= 127 && b >= 128 && c <= 127 && d <= 127 {
        '\''
    } else if a <= 127 && b <= 127 && c >= 128 && d <= 127 {
        '.'
    } else if a <= 63 && b <= 63 && c <= 63 && d <= 63 {
        ' '
    } else if 64 <= a && a <= 127 && 64 <= b && b <= 127 && 64 <= c && c <= 127 && 64 <= d && d
        <= 127 {
        '-'
    } else if 128 <= a && a <= 191 && 128 <= b && b <= 191 && 128 <= c && c <= 191 && 128 <= d
        && d <= 191 {
        'c'
    } else if a >= 192 && b >= 192 && c >= 192 && d >= 192 {
        '@'
    } else {
        ' '
    }
}

/// Every quadrant of samples maps to exactly one glyph of the fixed alphabet.
pub proof fn lemma_glyph_total(q: Quadrant)
    ensures
        is_glyph(glyph_of(q)),
{
}

} // verus!
