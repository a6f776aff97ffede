//! The frame rasterizer: one glyph per cell, optionally preceded by a 24-bit
//! foreground colour escape, cells in row-major order.
use vstd::prelude::*;
use crate::glyph::{glyph_of, is_glyph, lemma_glyph_total, select_char, Quadrant};
use crate::sampler::{color_at, frame_len_ok, luma, sample_buffer, sample_buffer_color, ScaleFactor};
use crate::text::{decimal, lemma_decimal_digits, push_decimal};

verus! {

pub const ESC: u8 = 27;

/// `ESC [38;2;` : the start of every foreground colour escape.
pub open spec fn fg_prefix() -> Seq<u8> {
    seq![ESC, 91u8, 51u8, 56u8, 59u8, 50u8, 59u8]
}

/// `ESC [38;2;R;G;B m`
pub open spec fn color_escape(c: (u8, u8, u8)) -> Seq<u8> {
    fg_prefix() + decimal(c.0 as nat) + seq![59u8] + decimal(c.1 as nat) + seq![59u8] + decimal(
        c.2 as nat,
    ) + seq![109u8]
}

pub open spec fn scale_of(sd: (usize, usize), td: (usize, usize)) -> ScaleFactor {
    ScaleFactor { num: sd, den: td }
}

/// The four luminance samples of cell `(x, y)`, at offsets `0` and `1/2` on each axis.
pub open spec fn cell_quadrant(buf: Seq<u8>, sd: (usize, usize), td: (usize, usize), x: nat, y: nat) -> Quadrant {
    let sf = scale_of(sd, td);
    (
        luma(color_at(buf, sd, sf, 2 * x, 2 * y)),
        luma(color_at(buf, sd, sf, 2 * x + 1, 2 * y)),
        luma(color_at(buf, sd, sf, 2 * x, 2 * y + 1)),
        luma(color_at(buf, sd, sf, 2 * x + 1, 2 * y + 1)),
    )
}

pub open spec fn cell_glyph(buf: Seq<u8>, sd: (usize, usize), td: (usize, usize), x: nat, y: nat) -> u8 {
    glyph_of(cell_quadrant(buf, sd, td, x, y)) as u8
}

/// The text of one cell: the colour escape of its top-left sample when colour is on, then its glyph.
pub open spec fn cell_text(buf: Seq<u8>, sd: (usize, usize), td: (usize, usize), x: nat, y: nat, color: bool) -> Seq<u8> {
    let g = cell_glyph(buf, sd, td, x, y);
    if color {
        color_escape(color_at(buf, sd, scale_of(sd, td), 2 * x, 2 * y)).push(g)
    } else {
        seq![g]
    }
}

/// The first `n` cells of row `y`.
pub open spec fn row_text(buf: Seq<u8>, sd: (usize, usize), td: (usize, usize), y: nat, color: bool, n: nat) -> Seq<u8>
    decreases n,
{
    if n == 0 {
        Seq::empty()
    } else {
        row_text(buf, sd, td, y, color, (n - 1) as nat) + cell_text(buf, sd, td, (n - 1) as nat, y, color)
    }
}

pub open spec fn row_end(newlines: bool) -> Seq<u8> {
    if newlines {
        seq![10u8]
    } else {
        Seq::empty()
    }
}

/// The first `m` rows of the frame, each followed by a newline when `newlines` holds.
pub open spec fn frame_rows(
    buf: Seq<u8>,
    sd: (usize, usize),
    td: (usize, usize),
    color: bool,
    newlines: bool,
    m: nat,
) -> Seq<u8>
    decreases m,
{
    if m == 0 {
        Seq::empty()
    } else {
        frame_rows(buf, sd, td, color, newlines, (m - 1) as nat) + row_text(buf, sd, td, (m - 1) as nat, color, td.0 as nat)
            + row_end(newlines)
    }
}

/// The whole frame: all `td.1` rows of `td.0` cells.
pub open spec fn frame_text(buf: Seq<u8>, sd: (usize, usize), td: (usize, usize), color: bool, newlines: bool) -> Seq<u8> {
    frame_rows(buf, sd, td, color, newlines, td.1 as nat)
}

/// Appends `ESC [38;2;R;G;B m`.
fn push_color_escape(out: &mut Vec<u8>, c: (u8, u8, u8))
    ensures
        final(out)@ == old(out)@ + color_escape(c),
{
    out.push(ESC);
    out.push(91u8);
    out.push(51u8);
    out.push(56u8);
    out.push(59u8);
    out.push(50u8);
    out.push(59u8);
    push_decimal(out, c.0 as u128);
    out.push(59u8);
    push_decimal(out, c.1 as u128);
    out.push(59u8);
    push_decimal(out, c.2 as u128);
    out.push(109u8);
    assert(final(out)@ =~= old(out)@ + color_escape(c));
}

/// Rasterizes one frame. With `do_color` every glyph is preceded by the colour
/// escape of its cell's top-left sample; with `row_newlines` every row ends in `\n`.
/// The grid is bounded by `isize::MAX` on each axis, as no frame larger than that
/// could be held in memory.
pub fn render_frame(
    buf: &[u8],
    source_dims: &(usize, usize),
    target_dims: &(usize, usize),
    do_color: bool,
    row_newlines: bool,
) -> (r: Vec<u8>)
    requires
        frame_len_ok(buf@, *source_dims),
        target_dims.0 <= isize::MAX,
        target_dims.1 <= isize::MAX,
    ensures
        r@ == frame_text(buf@, *source_dims, *target_dims, do_color, row_newlines),
{
    let sf = ScaleFactor::new(source_dims, target_dims);
    let (tw, th) = *target_dims;
    let ghost b = buf@;
    let ghost sd = *source_dims;
    let ghost td = *target_dims;
    let mut out: Vec<u8> = Vec::new();
    let mut y: usize = 0;
    while y < th
        invariant
            y <= th,
            (tw, th) == td,
            sf == scale_of(sd, td),
            frame_len_ok(b, sd),
            b == buf@,
            sd == *source_dims,
            tw <= isize::MAX,
            th <= isize::MAX,
            out@ == frame_rows(b, sd, td, do_color, row_newlines, y as nat),
        decreases th - y,
    {
        let mut x: usize = 0;
        while x < tw
            invariant
                x <= tw,
                y < th,
                (tw, th) == td,
                sf == scale_of(sd, td),
                frame_len_ok(b, sd),
                b == buf@,
                sd == *source_dims,
                tw <= isize::MAX,
                th <= isize::MAX,
                out@ == frame_rows(b, sd, td, do_color, row_newlines, y as nat) + row_text(
                    b,
                    sd,
                    td,
                    y as nat,
                    do_color,
                    x as nat,
                ),
            decreases tw - x,
        {
            let ghost before = out@;
            let x2 = 2 * x;
            let y2 = 2 * y;
            let q: Quadrant = (
                sample_buffer(buf, source_dims, &sf, x2, y2),
                sample_buffer(buf, source_dims, &sf, x2 + 1, y2),
                sample_buffer(buf, source_dims, &sf, x2, y2 + 1),
                sample_buffer(buf, source_dims, &sf, x2 + 1, y2 + 1),
            );
            assert(q == cell_quadrant(b, sd, td, x as nat, y as nat));
            if do_color {
                let c = sample_buffer_color(buf, source_dims, &sf, x2, y2);
                push_color_escape(&mut out, c);
            }
            let g = select_char(&q);
            out.push(g as u8);
            x = x + 1;
            assert(out@ =~= before + cell_text(b, sd, td, (x - 1) as nat, y as nat, do_color));
        }
        if row_newlines {
            out.push(10u8);
        }
        y = y + 1;
        assert(out@ =~= frame_rows(b, sd, td, do_color, row_newlines, y as nat));
    }
    out
}

/// How many times `p` occurs in `s`, overlapping occurrences included.
pub open spec fn occurrences(s: Seq<u8>, p: Seq<u8>) -> nat
    decreases s.len(),
{
    if p.len() == 0 || s.len() < p.len() {
        0
    } else {
        (if s.subrange(0, p.len() as int) == p {
            1nat
        } else {
            0nat
        }) + occurrences(s.drop_first(), p)
    }
}

/// A byte of the glyph alphabet.
pub open spec fn is_glyph_byte(b: u8) -> bool {
    b == 95 || b == 94 || b == 124 || b == 47 || b == 92 || b == 39 || b == 46 || b == 32 || b
        == 45 || b == 99 || b == 64
}

pub open spec fn no_esc(s: Seq<u8>) -> bool {
    forall|i: int| 0 <= i < s.len() ==> s[i] != ESC
}

/// Every escape byte is followed by at least six more bytes, so no occurrence
/// of the colour prefix can straddle the end of `s`.
pub open spec fn well_spaced(s: Seq<u8>) -> bool {
    forall|i: int| 0 <= i < s.len() && s[i] == ESC ==> i + 7 <= s.len()
}

proof fn lemma_glyph_byte(c: char)
    requires
        is_glyph(c),
    ensures
        is_glyph_byte(c as u8),
        c as u8 != ESC,
{
}

proof fn lemma_no_esc_count(s: Seq<u8>)
    requires
        no_esc(s),
    ensures
        occurrences(s, fg_prefix()) == 0,
    decreases s.len(),
{
    if s.len() >= 7 {
        assert(s.subrange(0, 7)[0] != fg_prefix()[0]);
        lemma_no_esc_count(s.drop_first());
    }
}

proof fn lemma_well_spaced_concat(a: Seq<u8>, b: Seq<u8>)
    requires
        well_spaced(a),
        well_spaced(b),
    ensures
        well_spaced(a + b),
{
    assert forall|i: int| 0 <= i < (a + b).len() && (a + b)[i] == ESC implies i + 7 <= (a + b).len() by {
        if i >= a.len() {
            assert(b[i - a.len()] == ESC);
        }
    }
}

proof fn lemma_count_concat(a: Seq<u8>, b: Seq<u8>)
    requires
        well_spaced(a),
    ensures
        occurrences(a + b, fg_prefix()) == occurrences(a, fg_prefix()) + occurrences(b, fg_prefix()),
    decreases a.len(),
{
    let p = fg_prefix();
    if a.len() == 0 {
        assert(a + b =~= b);
    } else {
        let a1 = a.drop_first();
        assert((a + b).drop_first() =~= a1 + b);
        assert forall|i: int| 0 <= i < a1.len() && a1[i] == ESC implies i + 7 <= a1.len() by {
            assert(a[i + 1] == ESC);
        }
        lemma_count_concat(a1, b);
        if a.len() >= 7 {
            assert((a + b).subrange(0, 7) =~= a.subrange(0, 7));
        } else {
            assert(a[0] != ESC);
            assert((a + b)[0] == a[0]);
            if (a + b).len() >= 7 {
                assert((a + b).subrange(0, 7)[0] == a[0]);
                assert((a + b).subrange(0, 7) != p);
            }
        }
    }
}

proof fn lemma_no_esc_concat(a: Seq<u8>, b: Seq<u8>)
    requires
        no_esc(a),
        no_esc(b),
    ensures
        no_esc(a + b),
{
    assert forall|i: int| 0 <= i < (a + b).len() implies (a + b)[i] != ESC by {
        if i >= a.len() {
            assert((a + b)[i] == b[i - a.len()]);
        }
    }
}

proof fn lemma_decimal_no_esc(n: nat)
    ensures
        no_esc(decimal(n)),
        decimal(n).len() >= 1,
{
    lemma_decimal_digits(n);
}

/// One cell holds exactly one colour escape when colour is on and none otherwise;
/// without colour it is a single glyph byte.
proof fn lemma_cell(buf: Seq<u8>, sd: (usize, usize), td: (usize, usize), x: nat, y: nat, color: bool)
    ensures
        well_spaced(cell_text(buf, sd, td, x, y, color)),
        occurrences(cell_text(buf, sd, td, x, y, color), fg_prefix()) == if color {
            1nat
        } else {
            0nat
        },
        !color ==> cell_text(buf, sd, td, x, y, color).len() == 1 && is_glyph_byte(
            cell_text(buf, sd, td, x, y, color)[0],
        ),
{
    let cell = cell_text(buf, sd, td, x, y, color);
    let gc = glyph_of(cell_quadrant(buf, sd, td, x, y));
    lemma_glyph_total(cell_quadrant(buf, sd, td, x, y));
    lemma_glyph_byte(gc);
    let g = gc as u8;
    if color {
        let c = color_at(buf, sd, scale_of(sd, td), 2 * x, 2 * y);
        lemma_decimal_no_esc(c.0 as nat);
        lemma_decimal_no_esc(c.1 as nat);
        lemma_decimal_no_esc(c.2 as nat);
        let head = seq![91u8, 51u8, 56u8, 59u8, 50u8, 59u8];
        let semi = seq![59u8];
        let m = seq![109u8];
        let tail = seq![g];
        assert(no_esc(head));
        assert(no_esc(semi));
        assert(no_esc(m));
        assert(no_esc(tail));
        lemma_no_esc_concat(head, decimal(c.0 as nat));
        lemma_no_esc_concat(head + decimal(c.0 as nat), semi);
        lemma_no_esc_concat(head + decimal(c.0 as nat) + semi, decimal(c.1 as nat));
        lemma_no_esc_concat(head + decimal(c.0 as nat) + semi + decimal(c.1 as nat), semi);
        lemma_no_esc_concat(
            head + decimal(c.0 as nat) + semi + decimal(c.1 as nat) + semi,
            decimal(c.2 as nat),
        );
        lemma_no_esc_concat(
            head + decimal(c.0 as nat) + semi + decimal(c.1 as nat) + semi + decimal(c.2 as nat),
            m,
        );
        let rest = head + decimal(c.0 as nat) + semi + decimal(c.1 as nat) + semi + decimal(
            c.2 as nat,
        ) + m;
        lemma_no_esc_concat(rest, tail);
        let rest = rest + tail;
        assert(cell =~= seq![ESC] + rest);
        assert(cell.subrange(0, 7) =~= fg_prefix());
        assert(cell.drop_first() =~= rest);
        lemma_no_esc_count(rest);
        assert forall|i: int| 0 <= i < cell.len() && cell[i] == ESC implies i + 7 <= cell.len() by {
            if i > 0 {
                assert(cell[i] == rest[i - 1]);
            }
        }
    } else {
        assert(cell =~= seq![g]);
        assert(no_esc(cell));
        lemma_no_esc_count(cell);
    }
}

proof fn lemma_row(buf: Seq<u8>, sd: (usize, usize), td: (usize, usize), y: nat, color: bool, n: nat)
    ensures
        well_spaced(row_text(buf, sd, td, y, color, n)),
        occurrences(row_text(buf, sd, td, y, color, n), fg_prefix()) == if color {
            n
        } else {
            0
        },
        !color ==> row_text(buf, sd, td, y, color, n).len() == n && forall|i: int|
            0 <= i < n ==> is_glyph_byte(#[trigger] row_text(buf, sd, td, y, color, n)[i]),
    decreases n,
{
    if n > 0 {
        let prev = row_text(buf, sd, td, y, color, (n - 1) as nat);
        let cell = cell_text(buf, sd, td, (n - 1) as nat, y, color);
        lemma_row(buf, sd, td, y, color, (n - 1) as nat);
        lemma_cell(buf, sd, td, (n - 1) as nat, y, color);
        lemma_well_spaced_concat(prev, cell);
        lemma_count_concat(prev, cell);
        if !color {
            assert forall|i: int| 0 <= i < n implies is_glyph_byte(
                #[trigger] row_text(buf, sd, td, y, color, n)[i],
            ) by {
                if i < n - 1 {
                    assert(row_text(buf, sd, td, y, color, n)[i] == prev[i]);
                } else {
                    assert(row_text(buf, sd, td, y, color, n)[i] == cell[0]);
                }
            }
        }
    } else {
        lemma_no_esc_count(Seq::empty());
    }
}

pub open spec fn is_file_byte(b: u8) -> bool {
    b == 10 || is_glyph_byte(b)
}

proof fn lemma_rows(buf: Seq<u8>, sd: (usize, usize), td: (usize, usize), color: bool, newlines: bool, m: nat)
    ensures
        well_spaced(frame_rows(buf, sd, td, color, newlines, m)),
        occurrences(frame_rows(buf, sd, td, color, newlines, m), fg_prefix()) == if color {
            m * td.0
        } else {
            0
        },
        !color && newlines ==> forall|i: int|
            0 <= i < frame_rows(buf, sd, td, color, newlines, m).len() ==> is_file_byte(
                #[trigger] frame_rows(buf, sd, td, color, newlines, m)[i],
            ),
    decreases m,
{
    if m > 0 {
        let prev = frame_rows(buf, sd, td, color, newlines, (m - 1) as nat);
        let row = row_text(buf, sd, td, (m - 1) as nat, color, td.0 as nat);
        let end = row_end(newlines);
        lemma_rows(buf, sd, td, color, newlines, (m - 1) as nat);
        lemma_row(buf, sd, td, (m - 1) as nat, color, td.0 as nat);
        assert(no_esc(end));
        lemma_no_esc_count(end);
        lemma_well_spaced_concat(prev, row);
        lemma_count_concat(prev, row);
        lemma_count_concat(prev + row, end);
        if color {
            assert(m * td.0 == (m - 1) * td.0 + td.0) by (nonlinear_arith)
                requires
                    m > 0,
            ;
        }
        let all = frame_rows(buf, sd, td, color, newlines, m);
        assert(all == prev + row + end);
        if !color && newlines {
            assert forall|i: int| 0 <= i < all.len() implies is_file_byte(#[trigger] all[i]) by {
                if i < prev.len() {
                    assert(all[i] == prev[i]);
                } else if i < prev.len() + row.len() {
                    assert(all[i] == row[i - prev.len()]);
                } else {
                    assert(all[i] == end[i - prev.len() - row.len()]);
                }
            }
        }
    } else {
        lemma_no_esc_count(Seq::empty());
    }
}

/// Colour toggling: a monochrome frame holds no foreground colour escape, and a
/// coloured frame holds exactly one per cell.
pub proof fn lemma_color_escapes_per_frame(buf: Seq<u8>, sd: (usize, usize), td: (usize, usize), newlines: bool)
    ensures
        occurrences(frame_text(buf, sd, td, false, newlines), fg_prefix()) == 0,
        occurrences(frame_text(buf, sd, td, true, newlines), fg_prefix()) == td.0 * td.1,
{
    lemma_rows(buf, sd, td, false, newlines, td.1 as nat);
    lemma_rows(buf, sd, td, true, newlines, td.1 as nat);
    assert(td.1 * td.0 == td.0 * td.1) by (nonlinear_arith);
}

/// A frame rendered for a file (no colour, a newline after each row) holds only
/// newlines and glyphs of the alphabet.
pub proof fn lemma_file_frame_alphabet(buf: Seq<u8>, sd: (usize, usize), td: (usize, usize))
    ensures
        forall|i: int|
            0 <= i < frame_text(buf, sd, td, false, true).len() ==> is_file_byte(
                #[trigger] frame_text(buf, sd, td, false, true)[i],
            ),
{
    lemma_rows(buf, sd, td, false, true, td.1 as nat);
}

} // verus!
