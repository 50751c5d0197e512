use superhq::terminal::{cursor_shape, mouse_mode, normalize_paste_redisplay, CursorShape, EmulatorCursorShape, TermDimensions};

#[test]
fn dimensions() {
    let d = TermDimensions::new(80, 24);
    assert_eq!(d.columns(), 80);
    assert_eq!(d.screen_lines(), 24);
    assert_eq!(d.total_lines(), 24);
    assert_eq!(d.last_column(), 79);
    assert_eq!(TermDimensions::new(0, 1).last_column(), 0);
}

#[test]
fn cursor_shapes() {
    assert_eq!(cursor_shape(EmulatorCursorShape::Beam), CursorShape::Bar);
    assert_eq!(cursor_shape(EmulatorCursorShape::HollowBlock), CursorShape::Hollow);
    assert_eq!(cursor_shape(EmulatorCursorShape::Hidden), CursorShape::Block);
    assert_eq!(cursor_shape(EmulatorCursorShape::Underline), CursorShape::Underline);
    assert_eq!(cursor_shape(EmulatorCursorShape::Block), CursorShape::Block);
}

#[test]
fn shift_keeps_mouse_local() {
    assert!(mouse_mode(true, false));
    assert!(!mouse_mode(true, true));
    assert!(!mouse_mode(false, false));
}

#[test]
fn paste_redisplay_gets_line_feed() {
    let input = b"one\x1b[27m\r\x1b[7mtwo\x1b[27m\r\x1b[7m";
    let out = normalize_paste_redisplay(input);
    assert_eq!(out, b"one\x1b[27m\r\n\x1b[7mtwo\x1b[27m\r\n\x1b[7m".to_vec());
}

#[test]
fn output_without_pattern_is_unchanged() {
    let input = b"plain \x1b[27m\r text\r\n";
    assert_eq!(normalize_paste_redisplay(input), input.to_vec());
    assert!(normalize_paste_redisplay(b"").is_empty());
}
