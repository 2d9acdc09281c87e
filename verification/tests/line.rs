use portal::line::{stop_after, stop_before, Index, Line, RawIndex};

fn line(text: &str) -> Line {
    Line::from_text(text).unwrap()
}

#[test]
fn tab_then_letters_resolves_column_five() {
    let l = line("\tab");
    let index = l.correct_index(RawIndex::Invalid { display: 5 });
    assert_eq!(index, Index { display: 5, byte: 2 });
}

#[test]
fn column_inside_tab_resolves_before_the_tab() {
    let l = line("\tab");
    for display in 0..4 {
        let index = l.correct_index(RawIndex::Invalid { display });
        assert_eq!(index, Index { display: 0, byte: 0 });
    }
    let index = l.correct_index(RawIndex::Invalid { display: 4 });
    assert_eq!(index, Index { display: 4, byte: 1 });
}

#[test]
fn column_past_the_end_resolves_to_the_end() {
    let l = line("\tab");
    let index = l.correct_index(RawIndex::Invalid { display: 100 });
    assert_eq!(index, Index { display: 6, byte: 3 });
    let empty = line("");
    let index = empty.correct_index(RawIndex::Invalid { display: 7 });
    assert_eq!(index, Index { display: 0, byte: 0 });
}

#[test]
fn steps_count_bytes_of_wide_characters() {
    let l = line("a\u{e9}\u{4e2d}\u{1f600}z");
    let mut index = Index { display: 0, byte: 0 };
    let mut seen = vec![index];
    while let Some(next) = l.index_forward(index) {
        seen.push(next);
        index = next;
    }
    assert_eq!(
        seen,
        vec![
            Index { display: 0, byte: 0 },
            Index { display: 1, byte: 1 },
            Index { display: 2, byte: 3 },
            Index { display: 3, byte: 6 },
            Index { display: 4, byte: 10 },
            Index { display: 5, byte: 11 },
        ]
    );
    assert_eq!(index.byte, "a\u{e9}\u{4e2d}\u{1f600}z".len());
    let mut back = vec![index];
    while let Some(prev) = l.index_backward(index) {
        back.push(prev);
        index = prev;
    }
    back.reverse();
    assert_eq!(back, seen);
}

#[test]
fn split_then_append_gives_the_line_back() {
    let whole = "one\ttwo three";
    for byte in 0..=whole.len() + 2 {
        let mut a = line(whole);
        let b = a.split_at(Index { display: 0, byte });
        a.append(&b);
        assert_eq!(a.text(), whole);
    }
}

#[test]
fn word_steps_stop_at_run_boundaries() {
    let l = line("ab  cd");
    let start = Index { display: 0, byte: 0 };
    let first = l.index_forward_word(start).unwrap();
    assert_eq!(first, Index { display: 2, byte: 2 });
    let second = l.index_forward_word(first).unwrap();
    assert_eq!(second, Index { display: 4, byte: 4 });
    let third = l.index_forward_word(second).unwrap();
    assert_eq!(third, Index { display: 6, byte: 6 });
    assert_eq!(l.index_forward_word(third), None);
    let back = l.index_backward_word(third).unwrap();
    assert_eq!(back, second);
    assert_eq!(l.index_backward_word(second).unwrap(), first);
    assert_eq!(l.index_backward_word(first).unwrap(), start);
    assert_eq!(l.index_backward_word(start), None);
}

#[test]
fn correcting_a_corrected_index_changes_nothing() {
    let l = line("a\tbc\t\td");
    for display in 0..20 {
        let once = l.correct_index(RawIndex::Invalid { display });
        let twice = l.correct_index(RawIndex::Valid(once));
        assert_eq!(once, twice);
        let again = l.correct_index(RawIndex::Invalid { display: once.display });
        assert_eq!(once, again);
        assert!(once.display <= display);
    }
}

#[test]
fn steps_keep_column_and_offset_in_step() {
    let text = "\tx\u{e9}  \u{4e2d}\t\u{1f600}y z";
    let l = line(text);
    let chars: Vec<char> = text.chars().collect();
    let expected = |k: usize| Index {
        display: chars[..k].iter().map(|c| if *c == '\t' { 4 } else { 1 }).sum(),
        byte: chars[..k].iter().map(|c| c.len_utf8()).sum(),
    };
    let positions: Vec<Index> = (0..=chars.len()).map(expected).collect();
    for (k, at) in positions.iter().enumerate() {
        let forward = l.index_forward(*at);
        let backward = l.index_backward(*at);
        assert_eq!(forward, positions.get(k + 1).copied());
        assert_eq!(backward, if k > 0 { Some(positions[k - 1]) } else { None });
        for found in [l.index_forward_word(*at), l.index_backward_word(*at)] {
            if let Some(index) = found {
                assert!(positions.contains(&index));
            }
        }
    }
}

#[test]
fn an_index_beyond_the_end_counts_as_the_end() {
    let l = line("ab");
    let beyond = Index { display: 9, byte: 9 };
    assert!(l.at_back(beyond));
    assert_eq!(l.index_forward(beyond), None);
    assert_eq!(l.index_forward_word(beyond), None);
    assert_eq!(l.index_backward(beyond), Some(Index { display: 1, byte: 1 }));
    assert_eq!(l.index_backward_word(beyond), Some(Index { display: 0, byte: 0 }));
    assert_eq!(l.index_back(RawIndex::Valid(beyond)), Index { display: 2, byte: 2 });
    let mut grown = line("ab");
    grown.insert(beyond, 'c');
    assert_eq!(grown.text(), "abc");
    let mut same = line("ab");
    same.remove(beyond);
    assert_eq!(same.text(), "ab");
    let rest = same.split_at(beyond);
    assert_eq!(same.text(), "ab");
    assert_eq!(rest.text(), "");
}

#[test]
fn an_index_inside_a_character_counts_as_its_start() {
    let l = line("\u{4e2d}x");
    let inside = Index { display: 0, byte: 2 };
    assert!(!l.at_back(inside));
    assert_eq!(l.index_forward(inside), Some(Index { display: 1, byte: 3 }));
    assert_eq!(l.index_backward(inside), None);
}

#[test]
fn editing_a_line() {
    let mut l = line("hello");
    assert_eq!(l.len(), 5);
    assert_eq!(l.char_at(1), 'e');
    l.insert(Index { display: 0, byte: 0 }, '\u{e9}');
    assert_eq!(l.text(), "\u{e9}hello");
    l.insert(Index { display: 1, byte: 2 }, '\t');
    assert_eq!(l.text(), "\u{e9}\thello");
    l.remove(Index { display: 0, byte: 0 });
    assert_eq!(l.text(), "\thello");
    l.remove_range(Index { display: 4, byte: 1 }, Index { display: 7, byte: 4 });
    assert_eq!(l.text(), "\tlo");
    l.remove_range(Index { display: 5, byte: 2 }, Index { display: 4, byte: 1 });
    assert_eq!(l.text(), "\tlo");
    l.prepend(&line("ab"));
    assert_eq!(l.text(), "ab\tlo");
    l.append(&line("!"));
    assert_eq!(l.text(), "ab\tlo!");
    l.push('?');
    assert_eq!(l.text(), "ab\tlo!?");
    assert!(l.at_back(Index { display: 10, byte: 7 }));
    assert!(!l.at_back(Index { display: 9, byte: 6 }));
    assert_eq!(l.index_back(RawIndex::index_front()), Index { display: 10, byte: 7 });
    l.clear();
    assert_eq!(l.text(), "");
    assert_eq!(Line::new().text(), "");
    assert_eq!(Line::from_chars(vec!['x', 'y']).unwrap().text(), "xy");
}

#[test]
fn raw_index_keeps_its_column() {
    let front = RawIndex::index_front();
    assert_eq!(front, RawIndex::Valid(Index { display: 0, byte: 0 }));
    assert!(front.at_front());
    let mut raw = RawIndex::Valid(Index { display: 7, byte: 3 });
    assert!(!raw.at_front());
    assert_eq!(raw.display(), 7);
    raw.invalidate();
    assert_eq!(raw, RawIndex::Invalid { display: 7 });
    raw.invalidate();
    assert_eq!(raw, RawIndex::Invalid { display: 7 });
    assert_eq!(RawIndex::from(Index { display: 1, byte: 1 }), RawIndex::Valid(Index { display: 1, byte: 1 }));
    assert_eq!(Index::default(), Index { display: 0, byte: 0 });
    assert!(RawIndex::Invalid { display: 0 }.at_front());
}

#[test]
fn word_stops_over_classes() {
    let classes = vec![true, true, false, false, true];
    assert_eq!(stop_after(&classes, 0), 2);
    assert_eq!(stop_after(&classes, 1), 2);
    assert_eq!(stop_after(&classes, 2), 4);
    assert_eq!(stop_after(&classes, 4), 5);
    assert_eq!(stop_after(&classes, 9), 5);
    assert_eq!(stop_before(&classes, 5), 4);
    assert_eq!(stop_before(&classes, 4), 2);
    assert_eq!(stop_before(&classes, 2), 0);
    assert_eq!(stop_before(&classes, 0), 0);
    assert_eq!(line("a1 _\u{e9}").classify(), vec![true, true, false, false, true]);
}

#[test]
fn drawing_a_line() {
    let l = line("a\tb");
    let (text, cursor) = l.render(5, 16, None);
    assert_eq!(text, "a    b    ");
    assert_eq!(cursor, None);
    let (text, cursor) = l.render(5, 9, Some(Index { display: 5, byte: 2 }));
    assert_eq!(text, "a  ");
    assert_eq!(cursor, Some(8));
    let (_, cursor) = l.render(5, 16, Some(Index { display: 5, byte: 2 }));
    assert_eq!(cursor, Some(10));
    assert_eq!(l.render_text(0), "");
    assert_eq!(l.render_text(6), "a    b");
    assert_eq!(line("").render_text(3), "   ");
}

#[test]
fn a_line_holds_no_newline() {
    assert!(Line::from_text("a\nb").is_none());
    assert!(Line::from_text("\n").is_none());
    assert!(Line::from_chars(vec!['a', '\n']).is_none());
    assert!(Line::from_text("a\rb").is_some());
}

#[test]
fn the_start_of_a_line() {
    let l = line("\u{4e2d}x");
    assert!(l.at_front(Index { display: 0, byte: 0 }));
    assert!(l.at_front(Index { display: 5, byte: 2 }));
    assert!(!l.at_front(Index { display: 1, byte: 3 }));
    assert!(line("").at_front(Index { display: 9, byte: 9 }));
}
