//! The text that frames the rasterized grid on a terminal: the statistics line
//! and the cursor-home escape.
use vstd::prelude::*;
use crate::text::{ascii_bytes, decimal, push_all, push_ascii, push_decimal};

verus! {

/// ` frame: F | all: A decode: D render: R sleep: S   `
pub open spec fn stats_text(frame: nat, all: nat, decode: nat, render: nat, sleep: nat) -> Seq<u8> {
    ascii_bytes(" frame: "@) + decimal(frame) + ascii_bytes(" | all: "@) + decimal(all) + ascii_bytes(
        " decode: "@,
    ) + decimal(decode) + ascii_bytes(" render: "@) + decimal(render) + ascii_bytes(" sleep: "@)
        + decimal(sleep) + ascii_bytes("   "@)
}

/// The statistics of one frame; the intervals are in microseconds.
pub fn stats_line(frame: u128, all: u128, decode: u128, render: u128, sleep: u128) -> (r: Vec<u8>)
    ensures
        r@ == stats_text(frame as nat, all as nat, decode as nat, render as nat, sleep as nat),
{
    let mut out: Vec<u8> = Vec::new();
    push_ascii(&mut out, " frame: ");
    push_decimal(&mut out, frame);
    push_ascii(&mut out, " | all: ");
    push_decimal(&mut out, all);
    push_ascii(&mut out, " decode: ");
    push_decimal(&mut out, decode);
    push_ascii(&mut out, " render: ");
    push_decimal(&mut out, render);
    push_ascii(&mut out, " sleep: ");
    push_decimal(&mut out, sleep);
    push_ascii(&mut out, "   ");
    assert(out@ =~= stats_text(frame as nat, all as nat, decode as nat, render as nat, sleep as nat));
    out
}

/// The colour reset that precedes the statistics: `ESC [38;2;255;255;255m`.
pub open spec fn stats_color() -> Seq<u8> {
    ascii_bytes("\x1b[38;2;255;255;255m"@)
}

/// Cursor home, then the line terminator: `ESC [1;1H` and `\n`.
pub open spec fn frame_trailer() -> Seq<u8> {
    ascii_bytes("\x1b[1;1H\n"@)
}

/// A frame as it goes to the terminal: the grid, the statistics if any (after
/// a colour reset), then cursor home and the line terminator.
pub open spec fn terminal_text(frame: Seq<u8>, stats: Option<Seq<u8>>) -> Seq<u8> {
    match stats {
        Some(s) => frame + stats_color() + s + frame_trailer(),
        None => frame + frame_trailer(),
    }
}

/// Completes a rasterized frame for the terminal.
pub fn finish_terminal_frame(frame: &mut Vec<u8>, stats: &Option<Vec<u8>>)
    ensures
        final(frame)@ == terminal_text(
            old(frame)@,
            match stats {
                Some(s) => Some(s@),
                None => None,
            },
        ),
{
    match stats {
        Some(s) => {
            push_ascii(frame, "\x1b[38;2;255;255;255m");
            push_all(frame, s.as_slice());
        },
        None => {},
    }
    push_ascii(frame, "\x1b[1;1H\n");
}

/// The opaque-black background escape emitted once before the first frame:
/// `ESC [48;2;1;1;1m`.
pub fn background_escape() -> (r: Vec<u8>)
    ensures
        r@ == ascii_bytes("\x1b[48;2;1;1;1m"@),
{
    let mut out: Vec<u8> = Vec::new();
    push_ascii(&mut out, "\x1b[48;2;1;1;1m");
    assert(out@ =~= ascii_bytes("\x1b[48;2;1;1;1m"@));
    out
}

} // verus!
