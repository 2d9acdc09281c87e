use portal::bounds::Bounds;
use portal::line::{Index, RawIndex};
use portal::message::{Input, Key, KeyCombo, Message};
use portal::frame::StatusLine;
use portal::picture::gutter;
use portal::portal::{OpenError, Portal};

fn bounds(height: u16) -> Bounds {
    Bounds { x0: 0, y0: 0, x1: 40, y1: height }
}

fn key(key: Key) -> Message {
    Message::Input(Input::KeyCombo(KeyCombo { key, shift: false, ctrl: false }))
}

fn ctrl(key: Key) -> Message {
    Message::Input(Input::KeyCombo(KeyCombo { key, shift: false, ctrl: true }))
}

fn ctrl_shift(key: Key) -> Message {
    Message::Input(Input::KeyCombo(KeyCombo { key, shift: true, ctrl: true }))
}

fn ten_lines() -> String {
    let mut text = String::new();
    for n in 1..=10 {
        text.push_str(&format!("line {}\n", n));
    }
    text
}

fn open(text: &str, height: u16) -> Portal {
    Portal::from_text(text, bounds(height)).unwrap()
}

fn press(portal: &mut Portal, message: Message) {
    assert!(portal.update(&message).is_none());
}

fn document(portal: &Portal) -> Vec<String> {
    let mut lines: Vec<String> = Vec::new();
    let above = portal.above();
    if !above.is_empty() {
        for line in above[1..].split('\n') {
            lines.push(line.to_string());
        }
    }
    lines.extend(portal.visible());
    let below = portal.below();
    if !below.is_empty() {
        let mut rest: Vec<String> = below[1..].split('\n').map(|l| l.to_string()).collect();
        rest.reverse();
        lines.extend(rest);
    }
    lines
}

fn numbered(from: usize, to: usize) -> Vec<String> {
    (from..=to).map(|n| format!("line {}", n)).collect()
}

#[test]
fn opening_ten_lines_in_a_window_of_five() {
    let portal = open(&ten_lines(), 5);
    assert_eq!(portal.visible(), numbered(1, 5));
    assert_eq!(portal.below(), "\nline 10\nline 9\nline 8\nline 7\nline 6");
    assert_eq!(portal.above(), "");
    assert_eq!(portal.active(), 0);
    assert_eq!(portal.offset(), 0);
    assert_eq!(portal.gutter_width(), 3);
    assert_eq!(portal.cursor(), RawIndex::Valid(Index { display: 0, byte: 0 }));
}

#[test]
fn fourth_down_scrolls_once() {
    let mut portal = open(&ten_lines(), 5);
    for _ in 0..3 {
        press(&mut portal, key(Key::Down));
    }
    assert_eq!(portal.active(), 3);
    assert_eq!(portal.offset(), 0);
    assert_eq!(portal.visible(), numbered(1, 5));
    press(&mut portal, key(Key::Down));
    assert_eq!(portal.active(), 3);
    assert_eq!(portal.offset(), 1);
    assert_eq!(portal.visible(), numbered(2, 6));
    assert_eq!(portal.above(), "\nline 1");
    assert_eq!(portal.below(), "\nline 10\nline 9\nline 8\nline 7");
}

#[test]
fn down_on_the_last_line_changes_no_line() {
    let mut portal = open(&ten_lines(), 5);
    for _ in 0..9 {
        press(&mut portal, key(Key::Down));
    }
    assert_eq!(portal.offset(), 5);
    assert_eq!(portal.active(), 4);
    assert_eq!(portal.visible(), numbered(6, 10));
    assert_eq!(portal.below(), "");
    press(&mut portal, key(Key::Down));
    assert_eq!(portal.offset(), 5);
    assert_eq!(portal.active(), 4);
    assert_eq!(portal.visible(), numbered(6, 10));
    assert_eq!(portal.cursor(), RawIndex::Valid(Index { display: 7, byte: 7 }));
}

#[test]
fn enter_at_the_start_of_a_line_puts_an_empty_line_above() {
    let mut portal = open("first\nsecond\n", 5);
    press(&mut portal, key(Key::Enter));
    assert_eq!(portal.visible(), vec!["", "first", "second"]);
    assert_eq!(portal.active(), 1);
    assert!(portal.cursor().at_front());
    assert_eq!(portal.cursor().display(), 0);
}

#[test]
fn enter_in_the_middle_of_a_line_splits_it() {
    let mut portal = open("first\nsecond\n", 5);
    press(&mut portal, key(Key::Right));
    press(&mut portal, key(Key::Right));
    press(&mut portal, key(Key::Enter));
    assert_eq!(portal.visible(), vec!["fi", "rst", "second"]);
    assert_eq!(portal.active(), 1);
    assert_eq!(portal.cursor().display(), 0);
}

#[test]
fn scrolling_keeps_every_line_of_the_file() {
    let text = ten_lines();
    let mut portal = open(&text, 4);
    let all = numbered(1, 10);
    let steps = [
        Message::Input(Input::ScrollDown),
        key(Key::PageDown),
        Message::Input(Input::ScrollUp),
        key(Key::PageUp),
        key(Key::PageDown),
        key(Key::PageDown),
        key(Key::PageDown),
        key(Key::PageDown),
        Message::Input(Input::ScrollDown),
        key(Key::PageUp),
        Message::Input(Input::ScrollUp),
        Message::Input(Input::ScrollUp),
        Message::Input(Input::ScrollUp),
    ];
    for step in steps {
        press(&mut portal, step);
        assert_eq!(document(&portal), all);
        assert_eq!(portal.visible().len(), 4);
    }
    assert_eq!(portal.offset(), 0);
}

#[test]
fn typing_and_backspace() {
    let mut portal = open("ab\ncd\n", 5);
    press(&mut portal, key(Key::Char('x')));
    assert_eq!(portal.visible(), vec!["xab", "cd"]);
    assert_eq!(portal.cursor(), RawIndex::Valid(Index { display: 1, byte: 1 }));
    press(&mut portal, key(Key::Tab));
    assert_eq!(portal.visible(), vec!["x\tab", "cd"]);
    assert_eq!(portal.cursor(), RawIndex::Valid(Index { display: 5, byte: 2 }));
    press(&mut portal, key(Key::Backspace));
    assert_eq!(portal.visible(), vec!["xab", "cd"]);
    assert_eq!(portal.cursor(), RawIndex::Valid(Index { display: 1, byte: 1 }));
    press(&mut portal, key(Key::Char('\n')));
    assert_eq!(portal.visible(), vec!["xab", "cd"]);
}

#[test]
fn backspace_in_the_first_column_joins_lines() {
    let mut portal = open("ab\ncd\nef\n", 5);
    press(&mut portal, key(Key::Down));
    press(&mut portal, key(Key::Home));
    press(&mut portal, key(Key::Backspace));
    assert_eq!(portal.visible(), vec!["abcd", "ef"]);
    assert_eq!(portal.active(), 0);
    assert_eq!(portal.cursor(), RawIndex::Valid(Index { display: 2, byte: 2 }));
    press(&mut portal, key(Key::Home));
    press(&mut portal, key(Key::Backspace));
    assert_eq!(portal.visible(), vec!["abcd", "ef"]);
}

#[test]
fn delete_at_the_end_of_a_line_joins_lines() {
    let mut portal = open("ab\ncd\nef\n", 5);
    press(&mut portal, key(Key::End));
    press(&mut portal, key(Key::Delete));
    assert_eq!(portal.visible(), vec!["abcd", "ef"]);
    assert_eq!(portal.cursor(), RawIndex::Valid(Index { display: 2, byte: 2 }));
    press(&mut portal, key(Key::Delete));
    assert_eq!(portal.visible(), vec!["abd", "ef"]);
    press(&mut portal, ctrl(Key::Delete));
    assert_eq!(portal.visible(), vec!["ab", "ef"]);
    press(&mut portal, ctrl(Key::Backspace));
    assert_eq!(portal.visible(), vec!["", "ef"]);
}

#[test]
fn blank_lines_above_and_below() {
    let mut portal = open("ab\ncd\n", 5);
    press(&mut portal, ctrl_shift(Key::Enter));
    assert_eq!(portal.visible(), vec!["", "ab", "cd"]);
    assert_eq!(portal.active(), 0);
    press(&mut portal, key(Key::Down));
    press(&mut portal, ctrl(Key::Enter));
    assert_eq!(portal.visible(), vec!["", "ab", "", "cd"]);
    assert_eq!(portal.active(), 2);
}

#[test]
fn jumps_to_both_ends() {
    let mut portal = open(&ten_lines(), 5);
    press(&mut portal, ctrl(Key::End));
    assert_eq!(portal.offset(), 5);
    assert_eq!(portal.active(), 4);
    assert_eq!(portal.cursor(), RawIndex::Valid(Index { display: 7, byte: 7 }));
    press(&mut portal, ctrl(Key::Home));
    assert_eq!(portal.offset(), 0);
    assert_eq!(portal.active(), 0);
    assert_eq!(portal.visible(), numbered(1, 5));
    assert_eq!(portal.cursor(), RawIndex::Valid(Index { display: 0, byte: 0 }));
}

#[test]
fn carriage_returns_and_missing_last_newline() {
    let portal = open("a\r\nb\rc\r\n\r\nlast\r", 10);
    assert_eq!(portal.visible(), vec!["a", "b\rc", "", "last\r"]);
    let empty = open("", 10);
    assert_eq!(empty.visible().len(), 0);
    let one = open("\n", 10);
    assert_eq!(one.visible(), vec![""]);
}

#[test]
fn left_and_right_cross_lines() {
    let mut portal = open("ab\ncd\n", 5);
    press(&mut portal, key(Key::Left));
    assert_eq!(portal.active(), 0);
    assert_eq!(portal.cursor(), RawIndex::Valid(Index { display: 0, byte: 0 }));
    press(&mut portal, key(Key::End));
    press(&mut portal, key(Key::Right));
    assert_eq!(portal.active(), 1);
    assert_eq!(portal.cursor(), RawIndex::Valid(Index { display: 0, byte: 0 }));
    press(&mut portal, key(Key::Left));
    assert_eq!(portal.active(), 0);
    assert_eq!(portal.cursor(), RawIndex::Valid(Index { display: 2, byte: 2 }));
}

#[test]
fn gutter_is_wide_enough_for_the_last_line() {
    let mut text = String::new();
    for _ in 0..1234 {
        text.push('\n');
    }
    let portal = open(&text, 5);
    assert_eq!(portal.gutter_width(), 4);
}

#[test]
fn bytes_that_are_no_text_are_refused() {
    let made = Portal::from_bytes(&[b'a', 0xff, b'\n'], bounds(5));
    assert_eq!(made.err(), Some(OpenError::NotText));
    let made = Portal::from_bytes(&[0xed, 0xa0, 0x80], bounds(5));
    assert_eq!(made.err(), Some(OpenError::NotText));
    let made = Portal::from_bytes("caf\u{e9}\nbar".as_bytes(), bounds(5)).unwrap();
    assert_eq!(made.visible(), vec!["caf\u{e9}", "bar"]);
}

#[test]
fn grace_boundary_in_windows_of_other_heights() {
    let mut text = String::new();
    for n in 1..=30 {
        text.push_str(&format!("line {}\n", n));
    }
    for height in 3..=9u16 {
        let mut portal = open(&text, height);
        let boundary = usize::from(height) - 2;
        for step in 0..boundary {
            assert_eq!(portal.active(), step);
            press(&mut portal, key(Key::Down));
            assert_eq!(portal.offset(), 0);
        }
        assert_eq!(portal.active(), boundary);
        press(&mut portal, key(Key::Down));
        assert_eq!(portal.active(), boundary);
        assert_eq!(portal.offset(), 1);
        assert_eq!(portal.visible(), numbered(2, usize::from(height) + 1));
        assert_eq!(portal.cursor(), RawIndex::Invalid { display: 0 });
    }
}

#[test]
fn up_scrolls_near_the_first_row() {
    let mut portal = open(&ten_lines(), 5);
    press(&mut portal, ctrl(Key::End));
    assert_eq!((portal.offset(), portal.active()), (5, 4));
    press(&mut portal, key(Key::Up));
    press(&mut portal, key(Key::Up));
    press(&mut portal, key(Key::Up));
    assert_eq!((portal.offset(), portal.active()), (5, 1));
    press(&mut portal, key(Key::Up));
    assert_eq!((portal.offset(), portal.active()), (4, 1));
    for _ in 0..4 {
        press(&mut portal, key(Key::Up));
    }
    assert_eq!((portal.offset(), portal.active()), (0, 1));
    press(&mut portal, key(Key::Up));
    assert_eq!((portal.offset(), portal.active()), (0, 0));
    assert_eq!(portal.cursor(), RawIndex::Invalid { display: 7 });
    press(&mut portal, key(Key::Up));
    assert_eq!(portal.cursor(), RawIndex::Valid(Index { display: 0, byte: 0 }));
}

#[test]
fn enter_on_the_last_row_of_a_full_window() {
    let mut portal = open("a\nb\nc\nd\n", 3);
    press(&mut portal, key(Key::Down));
    press(&mut portal, key(Key::Down));
    press(&mut portal, key(Key::Down));
    assert_eq!((portal.offset(), portal.active()), (1, 2));
    press(&mut portal, key(Key::End));
    press(&mut portal, key(Key::Enter));
    assert_eq!(document(&portal), vec!["a", "b", "c", "d", ""]);
    assert_eq!((portal.offset(), portal.active()), (2, 2));
    assert_eq!(portal.visible(), vec!["c", "d", ""]);
    press(&mut portal, key(Key::Char('e')));
    assert_eq!(document(&portal), vec!["a", "b", "c", "d", "e"]);
}

#[test]
fn empty_window_takes_no_key() {
    let mut portal = open("", 5);
    for message in [key(Key::Char('a')), key(Key::Enter), key(Key::Down), ctrl(Key::Enter), Message::Input(Input::ScrollDown)] {
        press(&mut portal, message);
        assert_eq!(portal.visible().len(), 0);
        assert_eq!(portal.len(), 0);
    }
    let mut flat = open("a\nb\n", 0);
    press(&mut flat, Message::Input(Input::ScrollDown));
    assert_eq!(flat.offset(), 0);
    assert_eq!(flat.below(), "\nb\na");
}

#[test]
fn other_messages_change_nothing() {
    let mut portal = open("ab\ncd\n", 5);
    press(&mut portal, key(Key::Right));
    for message in [
        Message::Quit,
        Message::Open(std::path::PathBuf::from("somewhere")),
        Message::Input(Input::FocusGained),
        Message::Input(Input::FocusLost),
        key(Key::Insert),
        key(Key::Esc),
        key(Key::CapsLock),
    ] {
        press(&mut portal, message);
        assert_eq!(portal.visible(), vec!["ab", "cd"]);
        assert_eq!(portal.cursor(), RawIndex::Valid(Index { display: 1, byte: 1 }));
        assert_eq!((portal.offset(), portal.active()), (0, 0));
    }
}

#[test]
fn word_keys() {
    let mut portal = open("one two  three\nnext\n", 5);
    press(&mut portal, ctrl(Key::Right));
    assert_eq!(portal.cursor(), RawIndex::Valid(Index { display: 3, byte: 3 }));
    press(&mut portal, ctrl(Key::Right));
    assert_eq!(portal.cursor(), RawIndex::Valid(Index { display: 4, byte: 4 }));
    press(&mut portal, ctrl(Key::Delete));
    assert_eq!(portal.visible(), vec!["one   three", "next"]);
    press(&mut portal, ctrl(Key::Backspace));
    assert_eq!(portal.visible(), vec!["one  three", "next"]);
    assert_eq!(portal.cursor(), RawIndex::Valid(Index { display: 3, byte: 3 }));
    press(&mut portal, ctrl(Key::Left));
    assert_eq!(portal.cursor(), RawIndex::Valid(Index { display: 0, byte: 0 }));
    press(&mut portal, ctrl(Key::Left));
    assert_eq!(portal.cursor(), RawIndex::Valid(Index { display: 0, byte: 0 }));
    press(&mut portal, key(Key::End));
    press(&mut portal, ctrl(Key::Right));
    assert_eq!(portal.active(), 1);
    assert_eq!(portal.cursor(), RawIndex::Valid(Index { display: 0, byte: 0 }));
}

#[test]
fn gutter_grows_at_a_thousand_lines_scrolled() {
    let mut text = String::new();
    for _ in 0..1010 {
        text.push('\n');
    }
    let mut narrow = open("x\n", 5);
    assert_eq!(narrow.gutter_width(), 3);
    press(&mut narrow, key(Key::Down));
    assert_eq!(narrow.gutter_width(), 3);
    let mut portal = open(&text, 5);
    assert_eq!(portal.gutter_width(), 4);
    for _ in 0..250 {
        press(&mut portal, Message::Input(Input::ScrollDown));
    }
    assert_eq!(portal.offset(), 1005);
    assert_eq!(portal.gutter_width(), 4);
}

#[test]
fn picture_of_a_window() {
    let mut portal = Portal::from_text("a\tb\nsecond line\n", Bounds { x0: 2, y0: 1, x1: 14, y1: 4 }).unwrap();
    press(&mut portal, key(Key::Right));
    press(&mut portal, key(Key::Right));
    assert!(portal.fits_area());
    let picture = portal.render(true);
    assert_eq!(picture.rows.len(), 2);
    assert_eq!(picture.rows[0].number, "  0 ");
    assert_eq!(picture.rows[0].text, "a    b ");
    assert!(picture.rows[0].active);
    assert_eq!(picture.rows[1].number, "  1 ");
    assert_eq!(picture.rows[1].text, "second ");
    assert!(!picture.rows[1].active);
    assert_eq!(picture.cursor, Some((11, 1)));
    assert_eq!(picture.blank, Some(Bounds { x0: 2, y0: 3, x1: 14, y1: 4 }));
    let unfocused = portal.render(false);
    assert_eq!(unfocused.cursor, None);
    assert_eq!(gutter(0, 3), "  0 ");
    assert_eq!(gutter(1234, 3), "1234 ");
    assert_eq!(gutter(907, 5), "  907 ");
    let narrow = Portal::from_text("a\n", Bounds { x0: 0, y0: 0, x1: 4, y1: 4 }).unwrap();
    assert!(!narrow.fits_area());
    let exact = Portal::from_text("abc\n", Bounds { x0: 0, y0: 0, x1: 5, y1: 1 }).unwrap();
    assert!(exact.fits_area());
    let picture = exact.render(true);
    assert_eq!(picture.rows[0].text, "");
    assert_eq!(picture.cursor, Some((4, 0)));
    assert_eq!(picture.blank, None);
}

#[test]
fn status_of_a_viewport() {
    let portal = open("a\n", 5);
    let mut top = StatusLine::top();
    portal.status(&mut top);
    assert_eq!(top.unwrap(), ["Buffer Top Left", "Buffer Top", "Buffer Top Right"]);
    let mut bottom = StatusLine::bottom();
    portal.status(&mut bottom);
    assert_eq!(bottom.unwrap(), ["Buffer Bottom Left", "Buffer Bottom", "Buffer Bottom Right"]);
}

#[test]
fn window_primitives() {
    let mut portal = open(&ten_lines(), 4);
    assert!(portal.at_top());
    assert!(!portal.at_bottom());
    assert!(portal.scroll_down());
    assert!(portal.scroll_down());
    assert_eq!(portal.offset(), 2);
    assert_eq!(portal.current_line().text(), "line 3");
    assert_eq!(portal.line_at(3).text(), "line 6");
    assert!(portal.scroll_up());
    assert_eq!(portal.visible(), numbered(2, 5));
    portal.fix_lines();
    assert_eq!(portal.visible(), numbered(2, 5));
    assert_eq!(document(&portal), numbered(1, 10));
    portal.scroll_down_by(100);
    assert_eq!(portal.visible(), numbered(7, 10));
    assert!(!portal.scroll_down());
    portal.scroll_up_by(3);
    assert_eq!(portal.visible(), numbered(4, 7));
    assert!(portal.cursor_down());
    assert!(portal.cursor_down());
    assert_eq!((portal.offset(), portal.active()), (3, 2));
    assert!(portal.cursor_down());
    assert_eq!((portal.offset(), portal.active()), (4, 2));
    assert!(portal.cursor_up());
    assert_eq!((portal.offset(), portal.active()), (4, 1));
    assert!(portal.cursor_up());
    assert_eq!((portal.offset(), portal.active()), (3, 1));
    portal.jump_bottom();
    assert_eq!((portal.offset(), portal.active()), (6, 3));
    assert!(portal.at_bottom());
    assert!(!portal.cursor_down());
    portal.jump_top();
    assert_eq!((portal.offset(), portal.active()), (0, 0));
    assert!(!portal.cursor_up());
    assert!(!portal.scroll_up());
    portal.set_cursor(RawIndex::Invalid { display: 2 });
    portal.type_char('!');
    assert_eq!(portal.current_line().text(), "li!ne 1");
    assert_eq!(portal.bounds(), bounds(4));
}

#[test]
fn control_enter_on_the_last_line_puts_the_blank_line_below() {
    let mut portal = open("ab\ncd\nef\n", 5);
    press(&mut portal, key(Key::Down));
    press(&mut portal, key(Key::Down));
    assert_eq!(portal.active(), 2);
    press(&mut portal, ctrl(Key::Enter));
    assert_eq!(portal.visible(), vec!["ab", "cd", "ef", ""]);
    assert_eq!(portal.active(), 3);
    assert_eq!(portal.current_line().text(), "");
    let mut full = open(&ten_lines(), 5);
    press(&mut full, ctrl(Key::End));
    assert_eq!((full.offset(), full.active()), (5, 4));
    press(&mut full, ctrl(Key::Enter));
    let mut expected = numbered(1, 10);
    expected.push(String::new());
    assert_eq!(document(&full), expected);
    assert_eq!((full.offset(), full.active()), (6, 4));
    assert_eq!(full.current_line().text(), "");
    let mut middle = open("ab\ncd\nef\n", 5);
    press(&mut middle, ctrl(Key::Enter));
    assert_eq!(middle.visible(), vec!["ab", "", "cd", "ef"]);
    assert_eq!(middle.active(), 1);
}

#[test]
fn backspace_on_the_first_row_joins_to_the_line_above_the_window() {
    let mut portal = open(&ten_lines(), 4);
    press(&mut portal, key(Key::PageDown));
    assert_eq!((portal.offset(), portal.active()), (2, 0));
    assert_eq!(portal.current_line().text(), "line 3");
    press(&mut portal, key(Key::Backspace));
    let mut expected = numbered(1, 10);
    expected.remove(2);
    expected[1] = String::from("line 2line 3");
    assert_eq!(document(&portal), expected);
    assert_eq!((portal.offset(), portal.active()), (1, 0));
    assert_eq!(portal.current_line().text(), "line 2line 3");
    assert_eq!(portal.cursor(), RawIndex::Valid(Index { display: 6, byte: 6 }));
    assert_eq!(portal.visible().len(), 4);
    let mut low = open("a\nb\nc\n", 1);
    press(&mut low, Message::Input(Input::ScrollDown));
    assert_eq!((low.offset(), low.active()), (2, 0));
    press(&mut low, ctrl(Key::Backspace));
    assert_eq!(document(&low), vec!["a", "bc"]);
    assert_eq!((low.offset(), low.active()), (1, 0));
    assert_eq!(low.cursor(), RawIndex::Valid(Index { display: 1, byte: 1 }));
}

#[test]
fn delete_on_the_last_row_joins_the_line_below_the_window() {
    let mut portal = open(&ten_lines(), 4);
    press(&mut portal, ctrl(Key::End));
    press(&mut portal, key(Key::PageUp));
    assert_eq!((portal.offset(), portal.active()), (4, 3));
    assert_eq!(portal.current_line().text(), "line 8");
    press(&mut portal, key(Key::End));
    press(&mut portal, key(Key::Delete));
    let mut expected = numbered(1, 10);
    expected.remove(8);
    expected[7] = String::from("line 8line 9");
    assert_eq!(document(&portal), expected);
    assert_eq!((portal.offset(), portal.active()), (4, 3));
    assert_eq!(portal.visible().len(), 4);
    assert_eq!(portal.cursor(), RawIndex::Valid(Index { display: 6, byte: 6 }));
    press(&mut portal, key(Key::End));
    press(&mut portal, ctrl(Key::Delete));
    expected.remove(8);
    expected[7] = String::from("line 8line 9line 10");
    assert_eq!(document(&portal), expected);
    press(&mut portal, key(Key::End));
    press(&mut portal, key(Key::Delete));
    assert_eq!(document(&portal), expected);
}

#[test]
fn backspace_goes_by_where_the_cursor_resolves() {
    let mut portal = open("abc\n\nxyz\n", 5);
    press(&mut portal, key(Key::End));
    press(&mut portal, key(Key::Down));
    assert_eq!(portal.cursor(), RawIndex::Invalid { display: 3 });
    press(&mut portal, key(Key::Backspace));
    assert_eq!(portal.visible(), vec!["abc", "xyz"]);
    assert_eq!(portal.active(), 0);
    assert_eq!(portal.cursor(), RawIndex::Valid(Index { display: 3, byte: 3 }));
    let mut tabbed = open("ab\n\tcd\n", 5);
    press(&mut tabbed, key(Key::Right));
    press(&mut tabbed, key(Key::Down));
    assert_eq!(tabbed.cursor(), RawIndex::Invalid { display: 1 });
    press(&mut tabbed, key(Key::Backspace));
    assert_eq!(tabbed.visible(), vec!["ab\tcd"]);
    assert_eq!(tabbed.cursor(), RawIndex::Valid(Index { display: 2, byte: 2 }));
    let mut first = open("\tcd\n", 5);
    press(&mut first, key(Key::Backspace));
    assert_eq!(first.visible(), vec!["\tcd"]);
    assert_eq!(first.cursor(), RawIndex::Valid(Index { display: 0, byte: 0 }));
}

#[test]
fn lengths_of_the_neighbouring_lines() {
    let mut portal = open("a\nbcd\nef\n", 1);
    assert_eq!(portal.prev_line_len(), None);
    assert_eq!(portal.next_line_len(), Some(3));
    press(&mut portal, key(Key::Down));
    assert_eq!(portal.prev_line_len(), Some(1));
    assert_eq!(portal.next_line_len(), Some(2));
    press(&mut portal, key(Key::Down));
    assert_eq!(portal.prev_line_len(), Some(3));
    assert_eq!(portal.next_line_len(), None);
    let mut wide = open("a\nbcd\nef\n", 5);
    press(&mut wide, key(Key::Down));
    assert_eq!(wide.prev_line_len(), Some(1));
    assert_eq!(wide.next_line_len(), Some(2));
}
