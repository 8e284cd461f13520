use kilo::editor::Editor;
use kilo::input::{ctrl_mask, decode_input, read_esc_seq_to_key, Decoded, Input, Key};
use kilo::line::{line_orig_to_render, load_lines, Config};
use kilo::nav::{Pos, Viewport};
use kilo::probe::{cursor_pos, parse_number, ProbeError};
use kilo::screen::{move_cursor, push_decimal};

fn editor(text: &[u8], width: usize, height: usize) -> Editor {
    Editor::new(Config { tab_width: 4 }, b"notes.txt".to_vec(), text, width, height)
}

fn contains(hay: &[u8], needle: &[u8]) -> bool {
    hay.windows(needle.len()).any(|w| w == needle)
}

#[test]
fn three_lines_down_twice_then_right() {
    let mut ed = editor(b"abc\n\nde", 5, 10);
    assert_eq!(ed.lines.len(), 3);
    assert_eq!(ed.lines[0].render, b"abc".to_vec());
    assert!(ed.lines[1].is_empty());
    assert_eq!(ed.lines[2].len(), 2);
    assert_eq!((ed.cursor.line, ed.cursor.byte), (0, 0));
    ed.cursor_down();
    ed.cursor_down();
    assert_eq!((ed.cursor.line, ed.cursor.byte), (2, 0));
    assert_eq!(ed.cursor.pos, Pos { col: 0, row: 2 });
    ed.cursor_right();
    assert_eq!((ed.cursor.line, ed.cursor.byte), (2, 1));
    ed.cursor_right();
    assert_eq!((ed.cursor.line, ed.cursor.byte), (2, 1));
}

#[test]
fn wrapped_line_down_along_row_ends() {
    let mut ed = editor(b"abcdefghijkl", 5, 10);
    for _ in 0..4 {
        ed.cursor_right();
    }
    assert_eq!(ed.cursor.pos, Pos { col: 4, row: 0 });
    assert!(ed.cursor.is_at_eol);
    // Right stops at the wrap boundary.
    ed.cursor_right();
    assert_eq!(ed.cursor.byte, 4);
    ed.cursor_down();
    assert_eq!(ed.cursor.pos, Pos { col: 4, row: 1 });
    assert_eq!(ed.cursor.byte, 9);
    ed.cursor_down();
    assert_eq!(ed.cursor.pos, Pos { col: 1, row: 2 });
    assert_eq!(ed.cursor.byte, 11);
    // No row below the last one.
    ed.cursor_down();
    assert_eq!(ed.cursor.pos, Pos { col: 1, row: 2 });
    assert_eq!(ed.cursor.byte, 11);
}

#[test]
fn escape_sequences_decode() {
    assert_eq!(decode_input(&[0x1b, 0x5b, 0x41]), Decoded::Complete(Input::Escape(Some(Key::ArrowUp)), 3));
    assert_eq!(decode_input(&[0x1b, 0x5b, 0x33, 0x7e]), Decoded::Complete(Input::Escape(Some(Key::Delete)), 4));
    assert_eq!(decode_input(&[0x1b, 0x58, 0x59]), Decoded::Complete(Input::Escape(None), 3));
    assert_eq!(decode_input(&[0x1b, 0x58, 0x59, 0x41]), Decoded::Complete(Input::Escape(None), 3));
    assert_eq!(decode_input(&[0x1b, 0x5b]), Decoded::Incomplete);
    assert_eq!(decode_input(&[0x1b, 0x5b, 0x35]), Decoded::Incomplete);
    assert_eq!(decode_input(&[]), Decoded::Incomplete);
    assert_eq!(decode_input(&[0x1b, 0x5b, 0x35, 0x41]), Decoded::Complete(Input::Escape(None), 4));
    assert_eq!(decode_input(b"x"), Decoded::Complete(Input::Char(b'x'), 1));
    assert_eq!(decode_input(&[3]), Decoded::Complete(Input::Quit, 1));
}

#[test]
fn escape_keys_table() {
    assert_eq!(read_esc_seq_to_key(b"[B"), Some(Key::ArrowDown));
    assert_eq!(read_esc_seq_to_key(b"[C"), Some(Key::ArrowRight));
    assert_eq!(read_esc_seq_to_key(b"[D"), Some(Key::ArrowLeft));
    assert_eq!(read_esc_seq_to_key(b"[H"), Some(Key::LineHome));
    assert_eq!(read_esc_seq_to_key(b"[1~"), Some(Key::LineHome));
    assert_eq!(read_esc_seq_to_key(b"[7~"), Some(Key::LineHome));
    assert_eq!(read_esc_seq_to_key(b"[4~"), Some(Key::LineEnd));
    assert_eq!(read_esc_seq_to_key(b"[8~"), Some(Key::LineEnd));
    assert_eq!(read_esc_seq_to_key(b"[5~"), Some(Key::PageUp));
    assert_eq!(read_esc_seq_to_key(b"[6~"), Some(Key::PageDown));
    assert_eq!(read_esc_seq_to_key(b"[9~"), None);
    assert_eq!(read_esc_seq_to_key(b"OH"), Some(Key::LineHome));
    assert_eq!(read_esc_seq_to_key(b"OF"), Some(Key::LineEnd));
    assert_eq!(read_esc_seq_to_key(b"OX"), None);
    assert_eq!(read_esc_seq_to_key(b"["), None);
    assert_eq!(ctrl_mask(b'c'), 3);
    assert_eq!(ctrl_mask(b'C'), 3);
}

#[test]
fn right_then_left_round_trip() {
    let mut ed = editor(b"abcdefghij", 8, 4);
    ed.cursor_right();
    let start = ed.cursor;
    for _ in 0..4 {
        ed.cursor_right();
    }
    assert_eq!(ed.cursor.byte, start.byte + 4);
    for _ in 0..4 {
        ed.cursor_left();
    }
    assert_eq!(ed.cursor.byte, start.byte);
    assert_eq!(ed.cursor.pos, start.pos);
}

#[test]
fn down_then_up_round_trip() {
    let mut ed = editor(b"abcdef\nghijkl\nmnopqr", 4, 10);
    ed.cursor_down();
    ed.cursor_right();
    ed.cursor_right();
    let (line, byte) = (ed.cursor.line, ed.cursor.byte);
    ed.cursor_down();
    ed.cursor_up();
    assert_eq!((ed.cursor.line, ed.cursor.byte), (line, byte));
}

#[test]
fn down_then_up_changes_column_on_shorter_line() {
    let mut ed = editor(b"abcd\nab", 10, 10);
    for _ in 0..2 {
        ed.cursor_right();
    }
    ed.cursor_down();
    assert_eq!(ed.cursor.byte, 1);
    ed.cursor_up();
    assert_eq!((ed.cursor.line, ed.cursor.byte), (0, 1));
}

#[test]
fn scroll_down_then_up_round_trip() {
    let mut ed = editor(b"abcdefghijkl\nxy\nz", 5, 2);
    ed.scroll_down();
    assert_eq!(ed.viewport, Viewport { line_offset: 0, line_offset_byte: 5 });
    ed.scroll_up();
    assert_eq!(ed.viewport, Viewport { line_offset: 0, line_offset_byte: 0 });
    ed.scroll_down();
    ed.scroll_down();
    assert_eq!(ed.viewport, Viewport { line_offset: 0, line_offset_byte: 10 });
    ed.scroll_down();
    assert_eq!(ed.viewport, Viewport { line_offset: 1, line_offset_byte: 0 });
    ed.scroll_up();
    assert_eq!(ed.viewport, Viewport { line_offset: 0, line_offset_byte: 10 });
}

#[test]
fn scroll_is_noop_on_last_row() {
    let mut ed = editor(b"ab", 5, 2);
    ed.scroll_down();
    assert_eq!(ed.viewport, Viewport { line_offset: 0, line_offset_byte: 0 });
    ed.scroll_up();
    assert_eq!(ed.viewport, Viewport { line_offset: 0, line_offset_byte: 0 });
}

#[test]
fn scroll_up_onto_line_of_exact_multiple() {
    let mut ed = editor(b"abcdefghij\nx", 5, 2);
    ed.scroll_down();
    ed.scroll_down();
    assert_eq!(ed.viewport, Viewport { line_offset: 1, line_offset_byte: 0 });
    ed.scroll_up();
    assert_eq!(ed.viewport, Viewport { line_offset: 0, line_offset_byte: 5 });
}

#[test]
fn up_lands_on_last_row_of_previous_line() {
    // 10 bytes at width 5: the last row starts at 5 and is full.
    let mut ed = editor(b"abcdefghij\nxyz", 5, 10);
    ed.cursor_down();
    ed.cursor_down();
    assert_eq!((ed.cursor.line, ed.cursor.byte), (1, 0));
    ed.cursor_right();
    assert!(!ed.cursor.is_at_eol);
    ed.cursor_up();
    assert_eq!((ed.cursor.line, ed.cursor.byte), (0, 6));
    assert_eq!(ed.cursor.pos, Pos { col: 1, row: 1 });
    ed.cursor_up();
    assert_eq!((ed.cursor.line, ed.cursor.byte), (0, 1));
    assert_eq!(ed.cursor.pos, Pos { col: 1, row: 0 });
    // At the end of its row, the cursor keeps to row ends going up.
    ed.cursor_down();
    ed.cursor_down();
    ed.cursor_right();
    assert!(ed.cursor.is_at_eol);
    ed.cursor_up();
    assert_eq!((ed.cursor.line, ed.cursor.byte), (0, 9));
    assert_eq!(ed.cursor.pos, Pos { col: 4, row: 1 });
}

#[test]
fn down_at_bottom_scrolls() {
    let mut ed = editor(b"a\nb\nc\nd", 5, 2);
    ed.cursor_down();
    assert_eq!(ed.cursor.pos.row, 1);
    ed.cursor_down();
    assert_eq!(ed.cursor.pos.row, 1);
    assert_eq!(ed.cursor.line, 2);
    assert_eq!(ed.viewport, Viewport { line_offset: 1, line_offset_byte: 0 });
    ed.cursor_up();
    ed.cursor_up();
    assert_eq!(ed.cursor.line, 0);
    assert_eq!(ed.cursor.pos.row, 0);
    assert_eq!(ed.viewport, Viewport { line_offset: 0, line_offset_byte: 0 });
}

#[test]
fn page_down_and_up() {
    let mut ed = editor(b"a\nb\nc\nd\ne\nf\ng", 5, 4);
    ed.page_down();
    assert_eq!(ed.cursor.line, 3);
    ed.page_down();
    assert_eq!(ed.cursor.line, 6);
    ed.page_up();
    assert_eq!(ed.cursor.line, 3);
    ed.page_up();
    ed.page_up();
    assert_eq!(ed.cursor.line, 0);
}

#[test]
fn line_home_and_end() {
    let mut ed = editor(b"abcdefgh", 20, 4);
    ed.line_end();
    assert_eq!(ed.cursor.byte, 7);
    assert!(ed.cursor.is_at_eol);
    ed.line_home();
    assert_eq!(ed.cursor.byte, 0);
    assert!(!ed.cursor.is_at_eol);
    let mut ed = editor(b"abcdefgh", 5, 4);
    ed.line_end();
    assert_eq!(ed.cursor.byte, 4);
    assert!(ed.handle_key(Input::Escape(Some(Key::LineHome))));
    assert_eq!(ed.cursor.byte, 0);
    assert!(!ed.handle_key(Input::Quit));
}

#[test]
fn keys_dispatch() {
    let mut ed = editor(b"ab\ncd", 5, 4);
    assert!(ed.handle_key(Input::Escape(Some(Key::ArrowDown))));
    assert!(ed.handle_key(Input::Escape(Some(Key::ArrowRight))));
    assert_eq!((ed.cursor.line, ed.cursor.byte), (1, 1));
    assert!(ed.handle_key(Input::Char(b'x')));
    assert!(ed.handle_key(Input::Escape(Some(Key::Delete))));
    assert!(ed.handle_key(Input::Escape(None)));
    assert_eq!((ed.cursor.line, ed.cursor.byte), (1, 1));
    assert_eq!(ed.lines[1].render, b"cd".to_vec());
    assert!(ed.handle_key(Input::Escape(Some(Key::ArrowLeft))));
    assert!(ed.handle_key(Input::Escape(Some(Key::ArrowUp))));
    assert_eq!((ed.cursor.line, ed.cursor.byte), (0, 0));
}

#[test]
fn tabs_expand_to_stops() {
    assert_eq!(line_orig_to_render(b"\tx", 4), b"    x".to_vec());
    assert_eq!(line_orig_to_render(b"ab\tc", 4), b"ab  c".to_vec());
    assert_eq!(line_orig_to_render(b"a\t\tb", 4), b"a       b".to_vec());
    assert_eq!(line_orig_to_render(b"abcd\t", 4), b"abcd    ".to_vec());
    assert_eq!(line_orig_to_render(b"", 4), Vec::<u8>::new());
}

#[test]
fn load_splits_on_newlines() {
    let lines = load_lines(b"", &Config { tab_width: 4 });
    assert_eq!(lines.len(), 1);
    assert!(lines[0].is_empty());
    let lines = load_lines(b"a\n", &Config { tab_width: 4 });
    assert_eq!(lines.len(), 2);
    assert_eq!(lines[0].orig, b"a".to_vec());
    assert!(lines[1].is_empty());
    let lines = load_lines(b"x\ty\r\nz", &Config { tab_width: 2 });
    assert_eq!(lines[0].orig, b"x\ty\r".to_vec());
    assert_eq!(lines[0].render, b"x y\r".to_vec());
    assert_eq!(lines[1].render, b"z".to_vec());
}

#[test]
fn cursor_report_parses() {
    assert_eq!(cursor_pos(b"\x1b[24;80"), Ok(Pos { row: 23, col: 79 }));
    assert_eq!(cursor_pos(b"[6~\x1b[3;4"), Ok(Pos { row: 2, col: 3 }));
    assert_eq!(cursor_pos(b"24;80"), Err(ProbeError::Malformed));
    assert_eq!(cursor_pos(b"\x1b[0;5"), Err(ProbeError::Malformed));
    assert_eq!(cursor_pos(b"\x1b[;5"), Err(ProbeError::Malformed));
    assert_eq!(cursor_pos(b"\x1b[5;"), Err(ProbeError::Malformed));
    assert_eq!(cursor_pos(b"\x1b[5;7x"), Err(ProbeError::Malformed));
    assert_eq!(cursor_pos(b"\x1b[99999999999999999999999;7"), Err(ProbeError::Malformed));
    assert_eq!(parse_number(b"0042"), Some(42));
    assert_eq!(parse_number(b"18446744073709551615"), Some(usize::MAX));
    assert_eq!(parse_number(b"18446744073709551616"), None);
    assert_eq!(parse_number(b""), None);
}

#[test]
fn window_size_from_corner() {
    let mut ed = editor(b"abc", 5, 3);
    assert_eq!(ed.update_window_size(Pos { row: 1, col: 79 }), Err(ProbeError::TooSmall));
    assert_eq!((ed.window_width, ed.window_height), (5, 3));
    assert_eq!(ed.update_window_size(Pos { row: 25, col: 79 }), Ok(()));
    assert_eq!((ed.window_width, ed.window_height), (80, 24));
}

#[test]
fn resize_restarts_viewport_on_width_change() {
    let mut ed = editor(b"abcdefghijkl", 5, 10);
    ed.cursor_down();
    ed.cursor_right();
    assert_eq!(ed.cursor.byte, 6);
    ed.resize(4, 10);
    assert_eq!(ed.cursor.pos, Pos { col: 2, row: 0 });
    assert_eq!(ed.viewport, Viewport { line_offset: 0, line_offset_byte: 4 });
    ed.resize(4, 20);
    assert_eq!(ed.cursor.pos, Pos { col: 2, row: 0 });
}

#[test]
fn rows_wrap_and_fill() {
    let ed = editor(b"abcdefghijkl\n", 5, 5);
    let mut buf = Vec::new();
    ed.build_rows(&mut buf);
    let expected = b"\x1b[Kabcde\r\n\x1b[Kfghij\r\n\x1b[Kkl\r\n\x1b[K\r\n\x1b[K~\r\n".to_vec();
    assert_eq!(buf, expected);
}

#[test]
fn rows_start_mid_line() {
    let mut ed = editor(b"abcdefghijkl\nxy", 5, 2);
    ed.scroll_down();
    let mut buf = Vec::new();
    ed.build_rows(&mut buf);
    assert_eq!(buf, b"\x1b[Kfghij\r\n\x1b[Kkl\r\n".to_vec());
}

#[test]
fn status_bar_layout() {
    let ed = editor(b"ab\ncd", 30, 3);
    let mut buf = Vec::new();
    ed.build_status_bar(&mut buf);
    let mut expected = b"\x1b[7mnotes.txt".to_vec();
    let right = b"0:0 | 2 lines";
    expected.extend(std::iter::repeat(b' ').take(30 - 9 - right.len()));
    expected.extend(right);
    expected.extend(b"\x1b[m");
    assert_eq!(buf, expected);
    let ed = editor(b"one", 16, 3);
    let mut buf = Vec::new();
    ed.build_status_bar(&mut buf);
    assert_eq!(buf, b"\x1b[7mnote0:0 | 1 line\x1b[m".to_vec());
    let ed = editor(b"one", 4, 3);
    let mut buf = Vec::new();
    ed.build_status_bar(&mut buf);
    assert_eq!(buf, b"\x1b[7m0:0 \x1b[m".to_vec());
}

#[test]
fn status_message_expires() {
    let mut ed = editor(b"ab", 10, 2);
    ed.new_status_msg(b"HELP: Ctrl-C to quit", 5000, 1000);
    let frame = ed.refresh_screen(5999);
    assert!(contains(&frame, b"\x1b[KHELP: Ctrl"));
    assert!(!contains(&frame, b"HELP: Ctrl-"));
    let frame = ed.refresh_screen(6000);
    assert!(contains(&frame, b"HELP: Ctrl"));
    let frame = ed.refresh_screen(6001);
    assert!(!contains(&frame, b"HELP"));
    assert!(ed.status_msg.data.is_empty());
    let frame = ed.refresh_screen(1000);
    assert!(!contains(&frame, b"HELP"));
}

#[test]
fn frame_layout() {
    let mut ed = editor(b"hi", 12, 2);
    ed.cursor_right();
    let frame = ed.refresh_screen(0);
    let expected = b"\x1b[?25l\x1b[1;1H\x1b[Khi\r\n\x1b[K~\r\n\x1b[7m0:1 | 1 line\x1b[m\r\n\x1b[K\x1b[1;2H\x1b[?25h";
    assert_eq!(frame, expected.to_vec());
}

#[test]
fn escape_sequences_out() {
    let mut buf = Vec::new();
    move_cursor(&mut buf, Pos { row: 9, col: 11 });
    assert_eq!(buf, b"\x1b[10;12H".to_vec());
    let mut buf = Vec::new();
    push_decimal(&mut buf, 0);
    push_decimal(&mut buf, 1907);
    assert_eq!(buf, b"01907".to_vec());
    let mut buf = Vec::new();
    kilo::screen::clear_screen(&mut buf);
    kilo::screen::hide_cursor(&mut buf);
    kilo::screen::show_cursor(&mut buf);
    kilo::screen::clear_row(&mut buf);
    assert_eq!(buf, b"\x1b[2J\x1b[?25l\x1b[?25h\x1b[K".to_vec());
}

#[test]
fn page_up_moves_within_first_line() {
    let mut ed = editor(b"abcdefghijkl", 5, 10);
    ed.cursor_down();
    assert_eq!(ed.cursor.byte, 5);
    ed.page_up();
    assert_eq!(ed.cursor.byte, 0);
    assert_eq!(ed.cursor.pos, Pos { col: 0, row: 0 });
    let mut ed = editor(b"abcdefghijkl\nxy", 5, 3);
    ed.page_down();
    assert_eq!((ed.cursor.line, ed.cursor.byte), (0, 10));
    ed.page_up();
    assert_eq!((ed.cursor.line, ed.cursor.byte), (0, 0));
    assert_eq!(ed.viewport, Viewport { line_offset: 0, line_offset_byte: 0 });
}

#[test]
fn window_size_change_moves_viewport_to_cursor_row() {
    let mut ed = editor(b"abcdefghijkl", 5, 10);
    ed.cursor_down();
    ed.cursor_right();
    assert_eq!(ed.update_window_size(Pos { row: 11, col: 3 }), Ok(()));
    assert_eq!((ed.window_width, ed.window_height), (4, 10));
    assert_eq!(ed.cursor.pos, Pos { col: 2, row: 0 });
    assert_eq!(ed.cursor.byte, 6);
    assert_eq!(ed.viewport, Viewport { line_offset: 0, line_offset_byte: 4 });
}
