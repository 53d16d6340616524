use vsub::render::{ui, CellStyle, OVERFLOW_MARK, SP, TILDE};
use vsub::session::{Key, Session};

fn type_str(sess: &mut Session, text: &str) {
    for c in text.chars() {
        sess.key(Key::Char(c));
    }
}

fn row_text(row: &[vsub::render::Cell]) -> String {
    row.iter().map(|cell| cell.ch as char).collect()
}

#[test]
fn grid_has_requested_dimensions() {
    let sess = Session::new(String::from("one\ntwo"));
    let g = ui(&sess, 12, 6);
    assert_eq!(g.width(), 12);
    assert_eq!(g.height(), 6);
    let rows = g.get_rows();
    assert_eq!(rows.len(), 6);
    for row in rows {
        assert_eq!(row.len(), 12);
    }
}

#[test]
fn file_area_shows_gutter_and_text() {
    let sess = Session::new(String::from("one\ntwo"));
    let g = ui(&sess, 10, 5);
    let rows = g.get_rows();
    // Gutter width is two (one digit plus one), then one spacer column.
    assert_eq!(row_text(&rows[0]), "1  one\n   ");
    assert_eq!(row_text(&rows[1]), "2  two    ");
    assert_eq!(rows[0][0].style, CellStyle::Gutter);
    assert_eq!(rows[0][3].style, CellStyle::Plain);
    // Beyond the last line only the tilde gutter glyph is drawn.
    assert_eq!(rows[2][0].ch, TILDE);
    assert_eq!(row_text(&rows[2]), "~         ");
}

#[test]
fn scrolled_past_end_shows_only_tilde_rows() {
    let mut sess = Session::new(String::from("one\ntwo"));
    for _ in 0..10 {
        sess.key(Key::Down);
    }
    let g = ui(&sess, 8, 5);
    let rows = g.get_rows();
    for h in 0..3 {
        assert_eq!(rows[h][0].ch, TILDE);
        assert_eq!(rows[h][0].style, CellStyle::Gutter);
        for c in 1..8 {
            assert_eq!(rows[h][c].ch, SP);
            assert!(rows[h][c].style != CellStyle::Match);
        }
    }
}

#[test]
fn horizontal_scroll_shifts_line_text() {
    let mut sess = Session::new(String::from("abcdef\nxy"));
    sess.key(Key::Right);
    sess.key(Key::Right);
    let g = ui(&sess, 10, 4);
    let rows = g.get_rows();
    assert_eq!(row_text(&rows[0]), "1  cdef\n  ");
    // The second line is shorter than the scroll offset: nothing drawn.
    assert_eq!(row_text(&rows[1]), "2         ");
}

#[test]
fn long_line_gets_overflow_marker() {
    let sess = Session::new(String::from("abcdefghij"));
    let g = ui(&sess, 7, 3);
    let rows = g.get_rows();
    // Three columns of margin leave four for content: abc plus marker.
    assert_eq!(rows[0][3].ch, b'a');
    assert_eq!(rows[0][6].ch, OVERFLOW_MARK);
    assert_eq!(rows[0][6].style, CellStyle::Overflow);
}

#[test]
fn highlighted_ranges_get_match_style() {
    let mut sess = Session::new(String::from("xaax"));
    type_str(&mut sess, "p/a+/");
    sess.key(Key::Enter);
    let g = ui(&sess, 10, 3);
    let rows = g.get_rows();
    assert_eq!(rows[0][3].ch, b'x');
    assert_eq!(rows[0][3].style, CellStyle::Plain);
    assert_eq!(rows[0][4].ch, b'a');
    assert_eq!(rows[0][4].style, CellStyle::Match);
    assert_eq!(rows[0][5].style, CellStyle::Match);
    assert_eq!(rows[0][6].style, CellStyle::Plain);
}

#[test]
fn status_and_prompt_rows_show_their_text() {
    let mut sess = Session::new(String::from("ab"));
    type_str(&mut sess, "p/a/");
    let g = ui(&sess, 30, 4);
    let rows = g.get_rows();
    assert_eq!(row_text(&rows[2]), "loaded 2 characters, 1 lines  ");
    assert_eq!(rows[2][0].style, CellStyle::Status);
    assert_eq!(row_text(&rows[3]), "p/a/                          ");
    assert_eq!(rows[3][0].style, CellStyle::Prompt);
}

#[test]
fn long_status_is_truncated_with_marker() {
    let sess = Session::new(String::from("abcdef"));
    // Status is "loaded 6 characters, 1 lines" (28 bytes), width is 10.
    let g = ui(&sess, 10, 2);
    let rows = g.get_rows();
    assert_eq!(row_text(&rows[0]), "loaded 6 >");
    assert_eq!(rows[0][9].style, CellStyle::Overflow);
    assert_eq!(rows[0][0].style, CellStyle::Status);
}

#[test]
fn gutter_width_follows_line_count() {
    let mut text = String::new();
    for _ in 0..12 {
        text.push_str("x\n");
    }
    let sess = Session::new(text);
    // Thirteen lines: two digits plus one, then the spacer column.
    let g = ui(&sess, 8, 4);
    let rows = g.get_rows();
    assert_eq!(row_text(&rows[0]), "1   x\n  ");
    assert_eq!(row_text(&rows[1]), "2   x\n  ");
}
