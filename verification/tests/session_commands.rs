use vsub::command::{get_command, Command};
use vsub::session::{write_store, Action, Key, Session};

fn type_str(sess: &mut Session, text: &str) {
    for c in text.chars() {
        sess.key(Key::Char(c));
    }
}

#[test]
fn new_session_reports_load() {
    let sess = Session::new(String::from("ab\nc"));
    assert_eq!(sess.get_status().as_str(), "loaded 4 characters, 2 lines");
    assert_eq!(sess.get_prompt().as_str(), "");
    assert_eq!(sess.get_scroll(), (0, 0));
}

#[test]
fn prompt_grows_and_shrinks() {
    let mut sess = Session::new(String::from(""));
    type_str(&mut sess, "abc");
    assert_eq!(sess.get_prompt().as_str(), "abc");
    sess.key(Key::Backspace);
    assert_eq!(sess.get_prompt().as_str(), "ab");
    sess.key(Key::Backspace);
    sess.key(Key::Backspace);
    sess.key(Key::Backspace);
    assert_eq!(sess.get_prompt().as_str(), "");
}

#[test]
fn arrows_move_scroll_floored_at_zero() {
    let mut sess = Session::new(String::from("x"));
    sess.key(Key::Up);
    sess.key(Key::Left);
    assert_eq!(sess.get_scroll(), (0, 0));
    sess.key(Key::Down);
    sess.key(Key::Down);
    sess.key(Key::Right);
    assert_eq!(sess.get_scroll(), (2, 1));
    sess.key(Key::Up);
    assert_eq!(sess.get_scroll(), (1, 1));
}

#[test]
fn parse_recognizes_the_grammar() {
    assert!(matches!(get_command("w"), Command::Write));
    match get_command("s/ab/cd/") {
        Command::Substitute(pat, rep) => {
            assert_eq!(pat.as_str(), "ab");
            assert_eq!(rep.as_str(), "cd");
        },
        _ => panic!("expected a substitute command"),
    }
    match get_command("s/ab/") {
        Command::Remove(pat) => assert_eq!(pat.as_str(), "ab"),
        _ => panic!("expected a remove command"),
    }
    match get_command("p/ab/") {
        Command::Highlight(pat) => assert_eq!(pat.as_str(), "ab"),
        _ => panic!("expected a highlight command"),
    }
    assert!(matches!(get_command(""), Command::Noop));
    assert!(matches!(get_command("xyz"), Command::Noop));
    assert!(matches!(get_command("s/ab"), Command::Noop));
    assert!(matches!(get_command("w/"), Command::Noop));
}

#[test]
fn remove_matching_whole_buffer_leaves_empty_line() {
    let mut sess = Session::new(String::from("aaa"));
    type_str(&mut sess, "s/a+/");
    let act = sess.key(Key::Enter);
    assert_eq!(act, Action::Nothing);
    assert_eq!(sess.get_buffer().as_str(), "");
    assert_eq!(sess.get_line_table().len(), 1);
    assert_eq!(sess.get_line_table().get_bounds(0), (0, 0));
    assert_eq!(sess.get_status().as_str(), "difference: -3 characters");
    assert_eq!(sess.get_prompt().as_str(), "");
}

#[test]
fn substitute_replaces_all_matches() {
    let mut sess = Session::new(String::from("aaa"));
    type_str(&mut sess, "s/a/b/");
    sess.key(Key::Enter);
    assert_eq!(sess.get_buffer().as_str(), "bbb");
    assert_eq!(sess.get_status().as_str(), "difference: 0 characters");
    assert_eq!(sess.get_prompt().as_str(), "");
}

#[test]
fn substitute_expands_group_references() {
    let mut sess = Session::new(String::from("abc"));
    type_str(&mut sess, "s/(a)/[$1]/");
    sess.key(Key::Enter);
    assert_eq!(sess.get_buffer().as_str(), "[a]bc");
    assert_eq!(sess.get_status().as_str(), "difference: 2 characters");
}

#[test]
fn substitute_idempotent_when_replacement_cannot_match() {
    let mut sess = Session::new(String::from("aaa"));
    type_str(&mut sess, "s/a/b/");
    sess.key(Key::Enter);
    let once = sess.get_buffer().clone();
    type_str(&mut sess, "s/a/b/");
    sess.key(Key::Enter);
    assert_eq!(sess.get_buffer(), &once);
    assert_eq!(sess.get_status().as_str(), "difference: 0 characters");
}

#[test]
fn highlight_never_mutates_buffer() {
    let mut sess = Session::new(String::from("aaa\nbbb\naaa\n"));
    let before = sess.get_buffer().clone();
    let prompt_before = "p/a/";
    type_str(&mut sess, prompt_before);
    sess.key(Key::Enter);
    assert_eq!(sess.get_buffer(), &before);
    assert_eq!(sess.get_line_table().len(), 4);
    // The highlight command keeps the prompt for iterative refinement.
    assert_eq!(sess.get_prompt().as_str(), prompt_before);
}

#[test]
fn highlight_counts_and_ranges_per_line() {
    let mut sess = Session::new(String::from("aaa\nbbb\naaa\n"));
    type_str(&mut sess, "p/a/");
    sess.key(Key::Enter);
    // Six single-byte matches, none of which crosses a newline.
    assert_eq!(sess.get_status().as_str(), "6 matches, 0 lines");
    let hl = sess.get_highlight();
    assert_eq!(hl.len(), 4);
    assert_eq!(hl.line(0), &vec![(0, 1), (1, 2), (2, 3)]);
    assert_eq!(hl.line(1), &Vec::<(usize, usize)>::new());
    assert_eq!(hl.line(2), &vec![(8, 9), (9, 10), (10, 11)]);
    assert_eq!(hl.line(3), &Vec::<(usize, usize)>::new());
}

#[test]
fn highlight_match_across_line_boundary_fans_out() {
    let mut sess = Session::new(String::from("ab\ncd"));
    type_str(&mut sess, "p/b\\nc/");
    sess.key(Key::Enter);
    assert_eq!(sess.get_status().as_str(), "1 matches, 1 lines");
    let hl = sess.get_highlight();
    // Line 0 ends at offset 3, past the newline, so the clip reaches it.
    assert_eq!(hl.line(0), &vec![(1, 3)]);
    assert_eq!(hl.line(1), &vec![(3, 4)]);
}

#[test]
fn buffer_edit_clears_highlights() {
    let mut sess = Session::new(String::from("aaa"));
    type_str(&mut sess, "p/a/");
    sess.key(Key::Enter);
    assert_eq!(sess.get_highlight().line(0).len(), 3);
    // The highlight command kept the prompt: clear it by hand first.
    for _ in 0..4 {
        sess.key(Key::Backspace);
    }
    type_str(&mut sess, "s/a/x/");
    sess.key(Key::Enter);
    assert_eq!(sess.get_highlight().line(0).len(), 0);
}

#[test]
fn invalid_pattern_reports_error_and_changes_nothing_else() {
    let mut sess = Session::new(String::from("aaa"));
    type_str(&mut sess, "s/[/");
    sess.key(Key::Enter);
    assert!(sess.get_status().as_str().starts_with("Error: "));
    assert_eq!(sess.get_buffer().as_str(), "aaa");
    // The prompt is kept so the pattern can be corrected in place.
    assert_eq!(sess.get_prompt().as_str(), "s/[/");
}

#[test]
fn unrecognized_prompt_is_a_silent_noop() {
    let mut sess = Session::new(String::from("aaa"));
    let status_before = sess.get_status().clone();
    type_str(&mut sess, "xyz");
    let act = sess.key(Key::Enter);
    assert_eq!(act, Action::Nothing);
    assert_eq!(sess.get_buffer().as_str(), "aaa");
    assert_eq!(sess.get_line_table().len(), 1);
    assert_eq!(sess.get_highlight().line(0).len(), 0);
    assert_eq!(sess.get_prompt().as_str(), "xyz");
    assert_eq!(sess.get_status(), &status_before);
}

#[test]
fn write_requests_save_and_reports_bytes() {
    let mut sess = Session::new(String::from("hello"));
    let mut store: Vec<u8> = b"old longer content".to_vec();
    type_str(&mut sess, "w");
    let act = sess.key(Key::Enter);
    assert_eq!(act, Action::Save);
    let data: Vec<u8> = sess.get_buffer().as_bytes().to_vec();
    let n = write_store(&mut store, &data);
    assert_eq!(store, b"hello".to_vec());
    assert_eq!(n, 5);
    sess.save_done(Ok(n));
    assert_eq!(sess.get_status().as_str(), "5 bytes written");
    assert_eq!(sess.get_prompt().as_str(), "");
}

#[test]
fn write_empty_buffer_truncates_store_to_zero() {
    let mut sess = Session::new(String::from(""));
    let mut store: Vec<u8> = b"not empty".to_vec();
    type_str(&mut sess, "w");
    let act = sess.key(Key::Enter);
    assert_eq!(act, Action::Save);
    let data: Vec<u8> = sess.get_buffer().as_bytes().to_vec();
    let n = write_store(&mut store, &data);
    assert_eq!(store.len(), 0);
    sess.save_done(Ok(n));
    assert_eq!(sess.get_status().as_str(), "0 bytes written");
}

#[test]
fn failed_save_reports_error_and_keeps_prompt() {
    let mut sess = Session::new(String::from("x"));
    type_str(&mut sess, "w");
    sess.key(Key::Enter);
    sess.save_done(Err(String::from("store unavailable")));
    assert_eq!(sess.get_status().as_str(), "Error: store unavailable");
    assert_eq!(sess.get_prompt().as_str(), "w");
}
