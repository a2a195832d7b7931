//! Tests of the viewer state machine and the rendered line block.

use woman::entry::Entry;
use woman::viewer::App;
use woman::viewer::Event;
use woman::viewer::KeyCode;
use woman::viewer::render_lines;
use woman::viewer::split_lines;

fn sample_entry() -> Entry {
    Entry {
        name: b"app".to_vec(),
        tldr: b"foo".to_vec(),
        info: b"bar".to_vec(),
        common_uses: b"baz".to_vec(),
        resources: b"qux".to_vec(),
        extra: b"Extra\nzap".to_vec(),
    }
}

#[test]
fn starts_at_offset_zero_and_running() {
    let e = sample_entry();
    let app = App::new(&e);
    assert_eq!(app.scroll_state, 0);
    assert!(!app.exit);
}

#[test]
fn up_from_zero_stays_then_three_downs_one_up_is_two() {
    let e = sample_entry();
    let mut app = App::new(&e);
    app.handle_key_event(KeyCode::Up);
    assert_eq!(app.scroll_state, 0);
    app.handle_key_event(KeyCode::Down);
    app.handle_key_event(KeyCode::Down);
    app.handle_key_event(KeyCode::Down);
    app.handle_key_event(KeyCode::Up);
    assert_eq!(app.scroll_state, 2);
    assert!(!app.exit);
}

#[test]
fn j_and_k_scroll_like_down_and_up() {
    let e = sample_entry();
    let mut app = App::new(&e);
    app.handle_key_event(KeyCode::Char('j'));
    app.handle_key_event(KeyCode::Char('j'));
    assert_eq!(app.scroll_state, 2);
    app.handle_key_event(KeyCode::Char('k'));
    assert_eq!(app.scroll_state, 1);
}

#[test]
fn down_saturates_at_the_top_of_u16() {
    let e = sample_entry();
    let mut app = App::new(&e);
    app.scroll_state = u16::MAX;
    app.handle_key_event(KeyCode::Down);
    assert_eq!(app.scroll_state, u16::MAX);
}

#[test]
fn quit_exits_and_keeps_offset() {
    let e = sample_entry();
    let mut app = App::new(&e);
    for _ in 0..7 {
        app.handle_key_event(KeyCode::Down);
    }
    app.handle_key_event(KeyCode::Char('q'));
    assert!(app.exit);
    assert_eq!(app.scroll_state, 7);

    let mut app2 = App::new(&e);
    app2.handle_key_event(KeyCode::Char('Q'));
    assert!(app2.exit);
    assert_eq!(app2.scroll_state, 0);
}

#[test]
fn other_keys_change_nothing() {
    let e = sample_entry();
    let mut app = App::new(&e);
    app.handle_key_event(KeyCode::Char('x'));
    app.handle_key_event(KeyCode::Other);
    assert_eq!(app.scroll_state, 0);
    assert!(!app.exit);
}

#[test]
fn mouse_resize_and_releases_are_no_ops() {
    let e = sample_entry();
    let mut app = App::new(&e);
    app.handle_event(Event::Mouse);
    app.handle_event(Event::Resize);
    app.handle_event(Event::Key { code: KeyCode::Down, press: false });
    assert_eq!(app.scroll_state, 0);
    assert!(!app.exit);
    app.handle_event(Event::Key { code: KeyCode::Down, press: true });
    assert_eq!(app.scroll_state, 1);
}

#[test]
fn split_lines_matches_line_semantics() {
    let lines = split_lines(&b"a\r\nb\nc".to_vec());
    assert_eq!(lines, vec![b"a".to_vec(), b"b".to_vec(), b"c".to_vec()]);
    let lines = split_lines(&b"a\nb\n".to_vec());
    assert_eq!(lines, vec![b"a".to_vec(), b"b".to_vec()]);
    let lines = split_lines(&b"".to_vec());
    assert_eq!(lines, Vec::<Vec<u8>>::new());
    let lines = split_lines(&b"a\n\nb".to_vec());
    assert_eq!(lines, vec![b"a".to_vec(), Vec::new(), b"b".to_vec()]);
}

#[test]
fn render_block_lines_in_order() {
    let e = sample_entry();
    let lines = render_lines(&e);
    let got: Vec<(bool, Vec<u8>)> =
        lines.into_iter().map(|l| (l.heading, l.text)).collect();
    let expected: Vec<(bool, Vec<u8>)> = vec![
        (true, b"TLDR".to_vec()),
        (false, b"foo".to_vec()),
        (false, Vec::new()),
        (true, b"Info".to_vec()),
        (false, b"bar".to_vec()),
        (false, Vec::new()),
        (true, b"Common Uses".to_vec()),
        (false, b"baz".to_vec()),
        (false, Vec::new()),
        (true, b"Resources".to_vec()),
        (false, b"qux".to_vec()),
        (false, Vec::new()),
        (true, b"Extra".to_vec()),
        (false, b"zap".to_vec()),
    ];
    assert_eq!(got, expected);
}

#[test]
fn render_empty_extra_gives_empty_heading() {
    let mut e = sample_entry();
    e.extra = Vec::new();
    let lines = render_lines(&e);
    let last = lines.last().unwrap();
    assert!(last.heading);
    assert_eq!(last.text, Vec::<u8>::new());
}

#[test]
fn render_multiline_bodies() {
    let mut e = sample_entry();
    e.info = b"one\ntwo".to_vec();
    let lines = render_lines(&e);
    let got: Vec<(bool, Vec<u8>)> =
        lines.into_iter().map(|l| (l.heading, l.text)).collect();
    assert_eq!(got[3], (true, b"Info".to_vec()));
    assert_eq!(got[4], (false, b"one".to_vec()));
    assert_eq!(got[5], (false, b"two".to_vec()));
    assert_eq!(got[6], (false, Vec::new()));
}
