use vsub::line_table::LineTable;

#[test]
fn empty_buffer_has_one_line() {
    let t = LineTable::new("");
    assert_eq!(t.len(), 1);
    assert_eq!(t.get_bounds(0), (0, 0));
}

#[test]
fn bounds_partition_buffer() {
    let buf = "aaa\nbbb\naaa\n";
    let t = LineTable::new(buf);
    assert_eq!(t.len(), 4);
    assert_eq!(t.get_bounds(0), (0, 4));
    assert_eq!(t.get_bounds(1), (4, 8));
    assert_eq!(t.get_bounds(2), (8, 12));
    assert_eq!(t.get_bounds(3), (12, 12));
    let mut rebuilt = String::new();
    let mut i = 0;
    while i < t.len() {
        let (s, e) = t.get_bounds(i);
        rebuilt.push_str(&buf[s..e]);
        i += 1;
    }
    assert_eq!(rebuilt.as_str(), buf);
}

#[test]
fn bounds_adjacent_without_trailing_newline() {
    let t = LineTable::new("ab\ncd");
    assert_eq!(t.len(), 2);
    assert_eq!(t.get_bounds(0), (0, 3));
    assert_eq!(t.get_bounds(1), (3, 5));
}

#[test]
fn leading_newline_starts_second_line() {
    let t = LineTable::new("\nabc");
    assert_eq!(t.len(), 2);
    assert_eq!(t.get_bounds(0), (0, 1));
    assert_eq!(t.get_bounds(1), (1, 4));
}

#[test]
fn get_line_at_round_trip() {
    let t = LineTable::new("aaa\nbbb\naaa\n");
    let mut i = 0;
    while i < t.len() {
        let (start, _) = t.get_bounds(i);
        assert_eq!(t.get_line_at(start), i);
        i += 1;
    }
}

#[test]
fn get_line_at_inside_and_past_end() {
    let t = LineTable::new("aaa\nbbb");
    assert_eq!(t.get_line_at(0), 0);
    assert_eq!(t.get_line_at(2), 0);
    assert_eq!(t.get_line_at(4), 1);
    assert_eq!(t.get_line_at(7), 1);
    assert_eq!(t.get_line_at(100), 1);
}

#[test]
fn iter_yields_tail_of_table() {
    let t = LineTable::new("a\nb\nc");
    let all = t.iter(0);
    assert_eq!(all.len(), 3);
    assert_eq!(all[0], (0, (0, 2)));
    assert_eq!(all[1], (1, (2, 4)));
    assert_eq!(all[2], (2, (4, 5)));
    let tail = t.iter(1);
    assert_eq!(tail.len(), 2);
    assert_eq!(tail[0], (1, (2, 4)));
    let none = t.iter(9);
    assert_eq!(none.len(), 0);
}
