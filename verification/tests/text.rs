use portal::border::{hbar, junctions, vbar};
use portal::bounds::Bounds;
use portal::document::{count_digits, read_lines, read_text};
use portal::frame::StatusLine;
use portal::message::{Input, Key, KeyCombo, Message, Stroke};
use portal::picker::{pick, Choice, EntryKind};
use portal::reservoir::Reservoir;
use portal::line::Line;
use portal::text::{len_of, to_chars, to_text, width_of, MAX_LINE_LEN, TAB_SIZE};

#[test]
fn a_tab_is_four_columns_wide() {
    assert_eq!(TAB_SIZE, 4);
    assert_eq!(width_of('\t'), 4);
    assert_eq!(width_of('a'), 1);
    assert_eq!(width_of(' '), 1);
    assert_eq!(width_of('\u{4e2d}'), 1);
}

#[test]
fn characters_are_as_long_as_their_encoding() {
    for c in ['a', '\t', '\u{7f}', '\u{80}', '\u{7ff}', '\u{800}', '\u{ffff}', '\u{10000}', '\u{10ffff}'] {
        assert_eq!(len_of(c), c.len_utf8());
    }
}

#[test]
fn text_and_characters_convert_both_ways() {
    let text = "a\u{e9}\t\u{1f600}";
    let chars = to_chars(text);
    assert_eq!(chars, vec!['a', '\u{e9}', '\t', '\u{1f600}']);
    assert_eq!(to_text(&chars), text);
    assert_eq!(to_chars(""), Vec::<char>::new());
}

#[test]
fn longest_line_is_a_quarter_of_the_address_space() {
    assert_eq!(MAX_LINE_LEN, usize::MAX / 4);
}

#[test]
fn reservoir_gives_lines_back_last_first() {
    let mut reservoir = Reservoir::new();
    assert!(reservoir.is_empty());
    reservoir.push(&Line::from_text("one").unwrap());
    reservoir.push(&Line::from_text("").unwrap());
    reservoir.push(&Line::from_text("three").unwrap());
    assert_eq!(reservoir.text(), "\none\n\nthree");
    let mut line = Line::from_text("stale").unwrap();
    reservoir.pop(&mut line);
    assert_eq!(line.text(), "three");
    reservoir.pop(&mut line);
    assert_eq!(line.text(), "");
    assert!(!reservoir.is_empty());
    reservoir.pop(&mut line);
    assert_eq!(line.text(), "one");
    assert!(reservoir.is_empty());
    assert_eq!(reservoir.text(), "");
}

#[test]
fn bounds_measure_and_split() {
    let bounds = Bounds { x0: 2, y0: 3, x1: 13, y1: 10 };
    assert_eq!(bounds.width(), 11);
    assert_eq!(bounds.height(), 7);
    assert_eq!(
        bounds.hsplit(5),
        [Bounds { x0: 2, y0: 3, x1: 13, y1: 5 }, Bounds { x0: 2, y0: 5, x1: 13, y1: 10 }]
    );
    assert_eq!(
        bounds.vsplit(4),
        [Bounds { x0: 2, y0: 3, x1: 4, y1: 10 }, Bounds { x0: 4, y0: 3, x1: 13, y1: 10 }]
    );
    assert_eq!(
        bounds.hsplit2(),
        [Bounds { x0: 2, y0: 3, x1: 13, y1: 6 }, Bounds { x0: 2, y0: 6, x1: 13, y1: 10 }]
    );
    assert_eq!(
        bounds.vsplit2(),
        [Bounds { x0: 2, y0: 3, x1: 7, y1: 10 }, Bounds { x0: 7, y0: 3, x1: 13, y1: 10 }]
    );
    assert_eq!(
        bounds.hsplit3(),
        [
            Bounds { x0: 2, y0: 3, x1: 13, y1: 5 },
            Bounds { x0: 2, y0: 5, x1: 13, y1: 8 },
            Bounds { x0: 2, y0: 8, x1: 13, y1: 10 },
        ]
    );
    assert_eq!(
        bounds.vsplit3(),
        [
            Bounds { x0: 2, y0: 3, x1: 5, y1: 10 },
            Bounds { x0: 5, y0: 3, x1: 10, y1: 10 },
            Bounds { x0: 10, y0: 3, x1: 13, y1: 10 },
        ]
    );
    assert_eq!(Bounds::default(), Bounds { x0: 0, y0: 0, x1: 0, y1: 0 });
}

#[test]
fn status_line_collects_and_clears() {
    let mut top = StatusLine::top();
    assert_eq!(top.unwrap(), ["", "", ""]);
    top.write("a", "b", "c");
    top.write("1", "2", "3");
    assert_eq!(top.unwrap(), ["a1", "b2", "c3"]);
    assert!(matches!(top, StatusLine::Top(..)));
    top.clear();
    assert_eq!(top.unwrap(), ["", "", ""]);
    assert!(matches!(top, StatusLine::Top(..)));
    let mut bottom = StatusLine::bottom();
    bottom.write("x", "", "z");
    assert_eq!(bottom.unwrap(), ["x", "", "z"]);
    bottom.clear();
    assert!(matches!(bottom, StatusLine::Bottom(..)));
}

#[test]
fn bars_have_junctions_at_pane_ends() {
    assert_eq!(junctions(10, 1), vec![false; 10]);
    assert_eq!(
        junctions(10, 2),
        vec![false, false, false, false, true, false, false, false, false, false]
    );
    assert_eq!(
        junctions(10, 3),
        vec![false, false, true, false, false, true, false, false, false, false]
    );
    assert_eq!(junctions(3, 3), vec![true, true, false]);
    assert_eq!(junctions(0, 1), Vec::<bool>::new());
    assert_eq!(vbar(4, 1, 1), "││││");
    assert_eq!(vbar(6, 2, 3), "│├┤├││");
    assert_eq!(vbar(4, 2, 2), "│┼││");
    assert_eq!(hbar(6, 3, 2), "─┴┬┴──");
    assert_eq!(hbar(4, 2, 2), "─┼──");
    assert_eq!(hbar(0, 1, 1), "");
}

#[test]
fn picking_an_entry() {
    let kinds = vec![EntryKind::Dir, EntryKind::File, EntryKind::Other];
    assert_eq!(pick(0, &kinds, 1, Key::Up), (2, Choice::Stay));
    assert_eq!(pick(2, &kinds, 1, Key::Up), (1, Choice::Stay));
    assert_eq!(pick(2, &kinds, 1, Key::Down), (0, Choice::Stay));
    assert_eq!(pick(0, &kinds, 1, Key::Down), (1, Choice::Stay));
    assert_eq!(pick(0, &kinds, 1, Key::Enter), (0, Choice::Enter(0)));
    assert_eq!(pick(1, &kinds, 1, Key::Enter), (1, Choice::Open(1)));
    assert_eq!(pick(2, &kinds, 1, Key::Enter), (2, Choice::Stay));
    assert_eq!(pick(1, &kinds, 1, Key::Esc), (1, Choice::Stay));
    assert_eq!(pick(1, &kinds, 2, Key::Esc), (0, Choice::Leave));
    assert_eq!(pick(1, &kinds, 2, Key::Char('x')), (1, Choice::Stay));
    let none: Vec<EntryKind> = Vec::new();
    assert_eq!(pick(0, &none, 1, Key::Up), (0, Choice::Stay));
    assert_eq!(pick(0, &none, 1, Key::Down), (0, Choice::Stay));
    assert_eq!(pick(0, &none, 1, Key::Enter), (0, Choice::Stay));
}

#[test]
fn strokes_and_quitting() {
    assert_eq!(
        Input::from_stroke(Key::Char('a'), Stroke::Press, true, false),
        Some(Input::KeyCombo(KeyCombo { key: Key::Char('a'), shift: true, ctrl: false }))
    );
    assert_eq!(
        Input::from_stroke(Key::Left, Stroke::Repeat, false, true),
        Some(Input::KeyCombo(KeyCombo { key: Key::Left, shift: false, ctrl: true }))
    );
    assert_eq!(Input::from_stroke(Key::Left, Stroke::Release, false, true), None);
    let combo = |key, ctrl| Message::Input(Input::KeyCombo(KeyCombo { key, shift: false, ctrl }));
    assert!(combo(Key::Char('c'), true).quits());
    assert!(combo(Key::Char('x'), true).quits());
    assert!(!combo(Key::Char('c'), false).quits());
    assert!(!combo(Key::Char('q'), true).quits());
    assert!(!combo(Key::Esc, true).quits());
    assert!(!Message::Quit.quits());
    assert!(!Message::Input(Input::ScrollUp).quits());
}

#[test]
fn reading_the_lines_of_a_file() {
    let texts = |lines: Vec<Line>| lines.iter().map(|l| l.text()).collect::<Vec<String>>();
    assert_eq!(texts(read_lines("a\nb\n").unwrap()), vec!["a", "b"]);
    assert_eq!(texts(read_lines("a\nb").unwrap()), vec!["a", "b"]);
    assert_eq!(texts(read_lines("a\r\n\r\r\nb\r").unwrap()), vec!["a", "\r", "b\r"]);
    assert_eq!(texts(read_lines("\n\n").unwrap()), vec!["", ""]);
    assert_eq!(texts(read_lines("").unwrap()), Vec::<String>::new());
    assert_eq!(read_text(b"plain"), Some("plain"));
    assert_eq!(read_text("\u{1f600}".as_bytes()), Some("\u{1f600}"));
    assert_eq!(read_text(&[0xc0, 0x80]), None);
    assert_eq!(read_text(&[0xf4, 0x90, 0x80, 0x80]), None);
    assert_eq!(read_text(&[0xe2, 0x82]), None);
}

#[test]
fn counting_digits() {
    assert_eq!(count_digits(0), 1);
    assert_eq!(count_digits(9), 1);
    assert_eq!(count_digits(10), 2);
    assert_eq!(count_digits(999), 3);
    assert_eq!(count_digits(1000), 4);
    assert_eq!(count_digits(usize::MAX), usize::MAX.to_string().len() as u16);
}

#[test]
fn reservoir_tells_the_length_of_its_last_line() {
    let mut reservoir = Reservoir::new();
    reservoir.push(&Line::from_text("one").unwrap());
    assert_eq!(reservoir.last_len(), 3);
    reservoir.push(&Line::from_text("").unwrap());
    assert_eq!(reservoir.last_len(), 0);
    reservoir.push(&Line::from_text("\u{e9}t\u{e9}").unwrap());
    assert_eq!(reservoir.last_len(), 3);
}
