use asciiplayer::dims::{get_terminal_size, parse_dims, ParseDimsError};
use asciiplayer::frame::render_frame;
use asciiplayer::glyph::select_char;
use asciiplayer::pacer::{Action, Phase, Session};
use asciiplayer::sampler::{sample_buffer, sample_buffer_color, ScaleFactor};
use asciiplayer::sink::{background_escape, finish_terminal_frame, stats_line};

fn pixels(px: &[(u8, u8, u8)]) -> Vec<u8> {
    let mut v = Vec::new();
    for &(r, g, b) in px {
        v.push(r);
        v.push(g);
        v.push(b);
    }
    v
}

fn count_color_escapes(s: &[u8]) -> usize {
    let pat = b"\x1b[38;2;";
    if s.len() < pat.len() {
        return 0;
    }
    (0..=s.len() - pat.len()).filter(|&i| &s[i..i + pat.len()] == pat).count()
}

#[test]
fn uniform_white_gives_at_sign() {
    let buf = vec![0xFFu8; 12];
    assert_eq!(render_frame(&buf, &(2, 2), &(1, 1), false, false), b"@".to_vec());
}

#[test]
fn uniform_black_gives_space() {
    let buf = vec![0u8; 12];
    assert_eq!(render_frame(&buf, &(2, 2), &(1, 1), false, false), b" ".to_vec());
}

#[test]
fn horizontal_bar_top_gives_caret() {
    let buf = pixels(&[(255, 255, 255), (255, 255, 255), (0, 0, 0), (0, 0, 0)]);
    assert_eq!(render_frame(&buf, &(2, 2), &(1, 1), false, false), b"^".to_vec());
}

#[test]
fn diagonal_falls_through_table() {
    // no row of the table covers a bright-dark-dark-bright quadrant
    let buf = pixels(&[(255, 255, 255), (0, 0, 0), (0, 0, 0), (255, 255, 255)]);
    assert_eq!(render_frame(&buf, &(2, 2), &(1, 1), false, false), b" ".to_vec());
    assert_eq!(select_char(&(255, 0, 0, 255)), ' ');
    // three bright samples with a dark bottom-left give a backslash
    assert_eq!(select_char(&(255, 255, 0, 255)), '\\');
}

#[test]
fn scaling_maps_half_offsets_to_next_pixel() {
    let mut px = Vec::new();
    for i in 0..16u8 {
        px.push((i, 100 + i, 200 + i));
    }
    let buf = pixels(&px);
    let sf = ScaleFactor::new(&(4, 4), &(2, 2));
    // cell (0,0) samples pixels (0,0), (1,0), (0,1), (1,1)
    assert_eq!(sample_buffer_color(&buf, &(4, 4), &sf, 0, 0), (0, 100, 200));
    assert_eq!(sample_buffer_color(&buf, &(4, 4), &sf, 1, 0), (1, 101, 201));
    assert_eq!(sample_buffer_color(&buf, &(4, 4), &sf, 0, 1), (4, 104, 204));
    assert_eq!(sample_buffer_color(&buf, &(4, 4), &sf, 1, 1), (5, 105, 205));
    // cell (1,1) starts at pixel (2,2)
    assert_eq!(sample_buffer_color(&buf, &(4, 4), &sf, 2, 2), (10, 110, 210));
}

#[test]
fn end_of_stream_after_one_frame() {
    let mut s = Session::new(&(2, 2), 30, true);
    assert_eq!(s.frame_len, 12);
    assert_eq!(s.on_read(12), Action::Render);
    assert_eq!(s.on_rendered(0), Action::Emit { delay_nanos: 0 });
    assert_eq!(s.on_read(0), Action::Finish);
    assert_eq!(s.phase, Phase::Ended);
    assert_eq!(s.on_read(12), Action::Finish);
}

#[test]
fn short_read_ends_stream() {
    let mut s = Session::new(&(2, 2), 30, true);
    assert_eq!(s.on_read(11), Action::Finish);
    assert_eq!(s.phase, Phase::Ended);
}

#[test]
fn pacing_waits_for_due_time_and_never_drops() {
    let mut s = Session::new(&(1, 1), 30, true);
    assert_eq!(s.nanos_per_frame, 33_333_333);
    assert_eq!(s.on_read(3), Action::Render);
    assert_eq!(s.on_rendered(5_000), Action::Emit { delay_nanos: 0 });
    assert_eq!(s.on_read(3), Action::Render);
    assert_eq!(s.on_rendered(3_333_333), Action::Emit { delay_nanos: 30_000_000 });
    assert_eq!(s.on_read(3), Action::Render);
    // late: shown at once
    assert_eq!(s.on_rendered(90_000_000), Action::Emit { delay_nanos: 0 });
    assert_eq!(s.frame_index, 3);
}

#[test]
fn unpaced_session_never_waits() {
    let mut s = Session::new(&(1, 1), 30, false);
    s.on_read(3);
    s.on_read(3);
    assert_eq!(s.on_read(3), Action::Finish);
    let mut s = Session::new(&(1, 1), 30, false);
    assert_eq!(s.on_read(3), Action::Render);
    s.on_rendered(0);
    assert_eq!(s.on_read(3), Action::Render);
    assert_eq!(s.on_rendered(0), Action::Emit { delay_nanos: 0 });
}

#[test]
fn color_frame_has_one_escape_per_cell() {
    let buf = vec![0xFFu8; 12];
    assert_eq!(
        render_frame(&buf, &(2, 2), &(1, 1), true, false),
        b"\x1b[38;2;255;255;255m@".to_vec()
    );
    let px: Vec<(u8, u8, u8)> = (0..16u8).map(|i| (i * 16, 7, 255 - i)).collect();
    let buf = pixels(&px);
    let color = render_frame(&buf, &(4, 4), &(3, 2), true, false);
    assert_eq!(count_color_escapes(&color), 6);
    let mono = render_frame(&buf, &(4, 4), &(3, 2), false, false);
    assert_eq!(count_color_escapes(&mono), 0);
    assert_eq!(mono.len(), 6);
}

#[test]
fn color_escape_uses_top_left_sample() {
    let buf = pixels(&[(1, 22, 133), (255, 255, 255), (255, 255, 255), (255, 255, 255)]);
    assert_eq!(
        render_frame(&buf, &(2, 2), &(1, 1), true, false),
        b"\x1b[38;2;1;22;133m/".to_vec()
    );
}

#[test]
fn file_frame_holds_only_glyphs_and_newlines() {
    let px: Vec<(u8, u8, u8)> = (0..16u8).map(|i| (i * 16, i * 8, 255 - i * 16)).collect();
    let buf = pixels(&px);
    let out = render_frame(&buf, &(4, 4), &(2, 2), false, true);
    assert_eq!(out.len(), 6);
    assert_eq!(out[2], b'\n');
    assert_eq!(out[5], b'\n');
    for b in out {
        assert!(b"\n_^|/\\'. -c@".contains(&b));
    }
}

#[test]
fn terminal_frame_has_no_row_newlines() {
    let buf = vec![0u8; 48];
    assert_eq!(render_frame(&buf, &(4, 4), &(2, 2), false, false), b"    ".to_vec());
    assert_eq!(render_frame(&buf, &(4, 4), &(2, 2), false, true), b"  \n  \n".to_vec());
}

#[test]
fn luma_divides_each_channel() {
    let buf = pixels(&[(2, 2, 2)]);
    let sf = ScaleFactor::new(&(1, 1), &(1, 1));
    assert_eq!(sample_buffer(&buf, &(1, 1), &sf, 0, 0), 0);
    let buf = pixels(&[(255, 128, 7)]);
    assert_eq!(sample_buffer(&buf, &(1, 1), &sf, 0, 0), 85 + 42 + 2);
}

#[test]
fn sampler_out_of_range_is_black() {
    let buf = pixels(&[(9, 9, 9), (8, 8, 8)]);
    let sf = ScaleFactor::new(&(2, 1), &(1, 1));
    assert_eq!(sample_buffer_color(&buf, &(2, 1), &sf, 0, 2), (0, 0, 0));
    assert_eq!(sample_buffer_color(&buf, &(2, 1), &sf, 4, 0), (0, 0, 0));
    assert_eq!(sample_buffer_color(&buf, &(2, 1), &sf, 1, 0), (8, 8, 8));
    assert_eq!(sample_buffer(&buf, &(2, 1), &sf, usize::MAX, usize::MAX), 0);
}

#[test]
fn glyph_table_rows() {
    assert_eq!(select_char(&(0, 0, 200, 200)), '_');
    assert_eq!(select_char(&(200, 200, 0, 0)), '^');
    assert_eq!(select_char(&(0, 200, 0, 200)), '|');
    assert_eq!(select_char(&(200, 0, 200, 0)), '|');
    assert_eq!(select_char(&(0, 192, 128, 128)), '/');
    assert_eq!(select_char(&(0, 191, 128, 128)), ' ');
    assert_eq!(select_char(&(200, 200, 200, 0)), '/');
    assert_eq!(select_char(&(200, 0, 200, 200)), '\\');
    assert_eq!(select_char(&(200, 200, 0, 200)), '\\');
    assert_eq!(select_char(&(200, 0, 0, 0)), '\'');
    assert_eq!(select_char(&(0, 0, 0, 200)), '.');
    assert_eq!(select_char(&(0, 200, 0, 0)), '\'');
    assert_eq!(select_char(&(0, 0, 200, 0)), '.');
    assert_eq!(select_char(&(63, 0, 10, 63)), ' ');
    assert_eq!(select_char(&(64, 127, 100, 64)), '-');
    assert_eq!(select_char(&(63, 127, 100, 64)), ' ');
    assert_eq!(select_char(&(128, 191, 150, 128)), 'c');
    assert_eq!(select_char(&(192, 255, 200, 192)), '@');
    assert_eq!(select_char(&(191, 255, 200, 192)), ' ');
}

#[test]
fn parse_dims_accepts_probe_output() {
    assert_eq!(parse_dims(String::from("1920,1080\n")), Ok((1920, 1080)));
    assert_eq!(parse_dims(String::from(" 3 , +4 ")), Ok((3, 4)));
    assert_eq!(parse_dims(String::from("1,,2,")), Ok((1, 2)));
}

#[test]
fn parse_dims_rejects_bad_input() {
    assert_eq!(parse_dims(String::from("abc,1")), Err(ParseDimsError::NotANumber));
    assert_eq!(parse_dims(String::from("1,2,3")), Err(ParseDimsError::NotTwoComponents));
    assert_eq!(parse_dims(String::from("")), Err(ParseDimsError::NotTwoComponents));
    assert_eq!(parse_dims(String::from("640")), Err(ParseDimsError::NotTwoComponents));
    assert_eq!(
        parse_dims(String::from("18446744073709551616,1")),
        Err(ParseDimsError::NotANumber)
    );
    assert_eq!(parse_dims(String::from("1,2,\n")), Err(ParseDimsError::NotANumber));
    assert_eq!(parse_dims(String::from("-1,2")), Err(ParseDimsError::NotANumber));
    assert_eq!(parse_dims(String::from("+,2")), Err(ParseDimsError::NotANumber));
}

#[test]
fn terminal_size_choice() {
    assert_eq!(get_terminal_size(Some(String::from("100,40")), Some((80, 30))), Ok((100, 40)));
    assert_eq!(get_terminal_size(None, Some((120, 50))), Ok((120, 50)));
    assert_eq!(get_terminal_size(None, None), Ok((80, 24)));
    assert_eq!(
        get_terminal_size(Some(String::from("x")), None),
        Err(ParseDimsError::NotANumber)
    );
}

#[test]
fn stats_line_format() {
    assert_eq!(
        stats_line(7, 1234, 56, 0, 1000),
        b" frame: 7 | all: 1234 decode: 56 render: 0 sleep: 1000   ".to_vec()
    );
}

#[test]
fn terminal_frame_trailer() {
    let mut f = b"ab".to_vec();
    finish_terminal_frame(&mut f, &None);
    assert_eq!(f, b"ab\x1b[1;1H\n".to_vec());
    let mut f = b"ab".to_vec();
    finish_terminal_frame(&mut f, &Some(b"xy".to_vec()));
    assert_eq!(f, b"ab\x1b[38;2;255;255;255mxy\x1b[1;1H\n".to_vec());
    assert_eq!(background_escape(), b"\x1b[48;2;1;1;1m".to_vec());
}
