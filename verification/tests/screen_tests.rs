use glowgrid::screen::Screen;

#[test]
fn fresh_screen_flushes_blanks() {
    let s = Screen::new(2, 2);
    assert_eq!(s.flush(), "\x1b[0;0H\r  \x1b[1B\r  \x1b[1B");
}

#[test]
fn flush_matches_expected_bytes() {
    let mut s = Screen::new(2, 2);
    s.write_char('*', "33".to_string(), 0, 1);
    let expected = "\x1b[0;0H\r \x1b[38;5;33m*\x1b[0m\x1b[1B\r  \x1b[1B";
    assert_eq!(s.flush(), expected);
}

#[test]
fn out_of_bounds_writes_leave_buffer_unchanged() {
    let mut s = Screen::new(3, 2);
    s.write_char('x', "1".to_string(), 0, 0);
    let before = s.flush();
    s.write_char('y', "2".to_string(), -1, 0);
    s.write_char('y', "2".to_string(), 0, -1);
    s.write_char('y', "2".to_string(), 2, 0);
    s.write_char('y', "2".to_string(), 0, 3);
    s.write_char('y', "2".to_string(), i32::MAX, i32::MAX);
    s.write_char('y', "2".to_string(), i32::MIN, i32::MIN);
    assert_eq!(s.flush(), before);
}

#[test]
fn last_write_to_a_cell_wins() {
    let mut s = Screen::new(1, 1);
    s.write_char('a', "1".to_string(), 0, 0);
    s.write_char('b', "2".to_string(), 0, 0);
    assert_eq!(s.flush(), "\x1b[0;0H\r\x1b[38;5;2mb\x1b[0m\x1b[1B");
}

#[test]
fn clear_resets_every_cell() {
    let mut s = Screen::new(2, 1);
    s.write_char('a', "1".to_string(), 0, 0);
    s.write_char('b', "2".to_string(), 0, 1);
    s.clear();
    assert_eq!(s.flush(), "\x1b[0;0H\r  \x1b[1B");
}

#[test]
fn writes_land_row_major() {
    let mut s = Screen::new(2, 2);
    s.write_char('a', "7".to_string(), 1, 0);
    let expected = "\x1b[0;0H\r  \x1b[1B\r\x1b[38;5;7ma\x1b[0m \x1b[1B";
    assert_eq!(s.flush(), expected);
}
