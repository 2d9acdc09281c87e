//! What holds of lines and of the viewport, whatever they hold.

use crate::line::{
    classes, corrected, index_at, is_index_of, lemma_index_at_is_index, lemma_next_stop_in_line,
    lemma_prev_stop_in_line, lemma_shorter_is_line, next_stop, prev_stop, removed,
    removed_range, stepped_backward, stepped_backward_word, stepped_forward,
    stepped_forward_word, Index, RawIndex,
};
use crate::message::{Input, Key, KeyCombo};
use crate::portal::{gutter_for, wider, PortalView, SCROLL_GRACE};
use crate::text::{
    byte_len, char_len, char_pos, column_pos, display_width, is_line, lemma_byte_len_concat,
    lemma_char_pos_fits, lemma_column_pos, lemma_column_pos_fits, lemma_measures_increase,
    lemma_newline_free_concat, lemma_newline_free_insert, lemma_newline_free_parts,
    newline_free, MAX_LINE_LEN,
};
use vstd::prelude::*;
use vstd::utf8::{char_is_scalar, encode_scalar, encode_utf8};

verus! {

/// One step of the window over the file.
pub enum Scroll {
    Up,
    Down,
}

/// The viewport after its window went through `moves`, one after the other.
pub open spec fn scrolled(view: PortalView, moves: Seq<Scroll>) -> PortalView
    decreases moves.len(),
{
    if moves.len() == 0 {
        view
    } else {
        let before = scrolled(view, moves.drop_last());
        match moves.last() {
            Scroll::Up => before.scroll_up(),
            Scroll::Down => before.scroll_down(),
        }
    }
}

/// The lines above the window, the lines in it and the lines below it are,
/// taken together, the lines of the file.
pub proof fn law_window_parts_make_file(view: PortalView)
    requires
        view.inv(),
    ensures
        view.above() + view.visible() + view.below() == view.document,
{
    assert(view.above() + view.visible() + view.below() =~= view.document);
}

/// However the window scrolls up and down, and wherever it started, the
/// lines above it, in it and below it remain the lines of the file: none is
/// lost, none is added, none changes its place.
pub proof fn law_scrolling_keeps_file(view: PortalView, moves: Seq<Scroll>)
    requires
        view.inv(),
    ensures
        scrolled(view, moves).inv(),
        scrolled(view, moves).document == view.document,
        scrolled(view, moves).above() + scrolled(view, moves).visible() + scrolled(
            view,
            moves,
        ).below() == view.above() + view.visible() + view.below(),
    decreases moves.len(),
{
    if moves.len() > 0 {
        law_scrolling_keeps_file(view, moves.drop_last());
    }
    law_window_parts_make_file(view);
    law_window_parts_make_file(scrolled(view, moves));
}

/// Scrolling keeps a viewport in order: the window stays full, and the
/// cursor stays on one of its rows.
pub proof fn law_scrolling_keeps_order(view: PortalView, moves: Seq<Scroll>)
    requires
        view.wf(),
    ensures
        scrolled(view, moves).wf(),
        scrolled(view, moves).active == view.active,
        scrolled(view, moves).cursor == view.cursor,
    decreases moves.len(),
{
    if moves.len() > 0 {
        law_scrolling_keeps_order(view, moves.drop_last());
    }
}

/// Resolving an index that was resolved already changes nothing.
pub proof fn law_correct_is_idempotent(s: Seq<char>, raw: RawIndex)
    ensures
        corrected(s, RawIndex::Valid(corrected(s, raw))) == corrected(s, raw),
{
}

/// An index that was resolved from a column is a position of the line, is
/// drawn at or before that column, and resolves to itself when it is reduced
/// to its own column and resolved once more.
pub proof fn law_correct_gives_position(s: Seq<char>, display: usize)
    requires
        s.len() <= MAX_LINE_LEN,
    ensures
        is_index_of(s, corrected(s, RawIndex::Invalid { display })),
        corrected(s, RawIndex::Invalid { display }).display <= display,
        corrected(
            s,
            RawIndex::Invalid { display: corrected(s, RawIndex::Invalid { display }).display },
        ) == corrected(s, RawIndex::Invalid { display }),
{
    let k = column_pos(s, display as nat) as int;
    lemma_column_pos_fits(s, display as nat);
    lemma_index_at_is_index(s, k);
    if k < s.len() {
        lemma_measures_increase(s, k, k + 1);
    }
    lemma_column_pos(s, display_width(s.take(k)), k);
}

/// Whether the column of `index` is the width of what stands before its byte
/// offset in `s`, and the byte offset is the length of that.
pub open spec fn column_matches_offset(s: Seq<char>, index: Index) -> bool {
    let k = char_pos(s, index.byte as nat) as int;
    index.display == display_width(s.take(k)) && index.byte == byte_len(s.take(k))
}

/// Every index that a step gives, by a character or by a word, forward or
/// backward, has as its column the width of what stands before its byte
/// offset.
pub proof fn law_steps_give_positions(s: Seq<char>, index: Index)
    requires
        s.len() <= MAX_LINE_LEN,
    ensures
        stepped_forward(s, index) is Some ==> column_matches_offset(
            s,
            stepped_forward(s, index)->0,
        ),
        stepped_backward(s, index) is Some ==> column_matches_offset(
            s,
            stepped_backward(s, index)->0,
        ),
        stepped_forward_word(s, index) is Some ==> column_matches_offset(
            s,
            stepped_forward_word(s, index)->0,
        ),
        stepped_backward_word(s, index) is Some ==> column_matches_offset(
            s,
            stepped_backward_word(s, index)->0,
        ),
{
    let k = char_pos(s, index.byte as nat) as int;
    lemma_char_pos_fits(s, index.byte as nat);
    if k < s.len() {
        lemma_index_at_is_index(s, k + 1);
        lemma_next_stop_in_line(classes(s), k);
        lemma_index_at_is_index(s, next_stop(classes(s), k));
    }
    if k > 0 {
        lemma_index_at_is_index(s, k - 1);
        lemma_prev_stop_in_line(classes(s), k);
        lemma_index_at_is_index(s, prev_stop(classes(s), k));
    }
}

/// A character is as long as its UTF-8 encoding.
pub proof fn law_char_len_is_utf8_len(c: char)
    ensures
        char_len(c) == encode_scalar(c as u32).len(),
{
    char_is_scalar(c);
}

/// A run of text is as long as its UTF-8 encoding.
pub proof fn law_byte_len_is_utf8_len(s: Seq<char>)
    ensures
        byte_len(s) == encode_utf8(s).len(),
    decreases s.len(),
{
    if s.len() > 0 {
        let rest = s.drop_first();
        law_byte_len_is_utf8_len(rest);
        law_char_len_is_utf8_len(s[0]);
        assert(s =~= seq![s[0]] + rest);
        lemma_byte_len_concat(seq![s[0]], rest);
        assert(seq![s[0]].drop_last() =~= Seq::<char>::empty());
        assert(byte_len(Seq::<char>::empty()) == 0);
        assert(byte_len(seq![s[0]]) == char_len(s[0]));
    }
}

/// A line that is cut at an index and then given back what was cut off is the
/// line that it was.
pub proof fn law_split_then_append(s: Seq<char>, index: Index)
    ensures
        s.take(char_pos(s, index.byte as nat) as int) + s.skip(
            char_pos(s, index.byte as nat) as int,
        ) == s,
{
    lemma_char_pos_fits(s, index.byte as nat);
    let k = char_pos(s, index.byte as nat) as int;
    assert(s.take(k) + s.skip(k) =~= s);
}

/// Where the window is full and a line is left below it, a cursor that has
/// `SCROLL_GRACE` rows between it and the last row does not go down a row:
/// the window scrolls down by exactly one line, and the cursor stays on its
/// row.
pub proof fn law_grace_scrolls_once(view: PortalView)
    requires
        view.wf(),
        view.count == view.height,
        view.active + SCROLL_GRACE + 1 == view.count,
        view.end() < view.document.len(),
    ensures
        view.cursor_down().offset == view.offset + 1,
        view.cursor_down().active == view.active,
        view.cursor_down().count == view.count,
        view.cursor_down().document == view.document,
        view.cursor_down().cursor == (RawIndex::Invalid { display: view.cursor.column() }),
        view.cursor_down().wf(),
{
}

/// Further from the last row than `SCROLL_GRACE`, the cursor goes down a row
/// and the window stays where it is.
pub proof fn law_outside_grace_moves(view: PortalView)
    requires
        view.wf(),
        view.active + SCROLL_GRACE + 1 < view.count,
    ensures
        view.cursor_down().offset == view.offset,
        view.cursor_down().active == view.active + 1,
        view.cursor_down().count == view.count,
        view.cursor_down().document == view.document,
        view.cursor_down().wf(),
{
}

/// On the last line of the file, going down changes nothing: the window does
/// not scroll and the cursor stays where it is.
pub proof fn law_last_line_stays(view: PortalView)
    requires
        view.wf(),
        view.count > 0,
        view.row() + 1 == view.document.len(),
    ensures
        !view.can_cursor_down(),
        view.cursor_down() == view,
{
}

/// Down takes the cursor to the next line of the file, wherever in the
/// window it is, and keeps its column; Up takes it to the line before. No
/// line changes.
pub proof fn law_up_and_down_move_one_line(view: PortalView)
    requires
        view.wf(),
        view.count > 0,
    ensures
        view.row() + 1 < view.document.len() ==> view.key_down().row() == view.row() + 1
            && view.key_down().cursor == (RawIndex::Invalid { display: view.cursor.column() }),
        view.row() > 0 ==> view.key_up().row() == view.row() - 1 && view.key_up().cursor
            == (RawIndex::Invalid { display: view.cursor.column() }),
        view.key_down().document == view.document,
        view.key_up().document == view.document,
{
}

/// Left at the start of a line takes the cursor to the end of the line
/// before, and Right at the end of a line takes it to the start of the line
/// after, wherever in the window the cursor is.
pub proof fn law_left_and_right_cross_lines(view: PortalView, word: bool)
    requires
        view.wf(),
        view.count > 0,
    ensures
        char_pos(view.line(), view.resolved().byte as nat) == 0 && view.row() > 0 ==> view.key_left(
            word,
        ).row() == view.row() - 1 && view.key_left(word).cursor == RawIndex::Valid(
            index_at(
                view.document[view.row() - 1],
                view.document[view.row() - 1].len() as int,
            ),
        ),
        char_pos(view.line(), view.resolved().byte as nat) == view.line().len() && view.row() + 1
            < view.document.len() ==> view.key_right(word).row() == view.row() + 1
            && view.key_right(word).cursor == RawIndex::Valid(Index { display: 0, byte: 0 }),
        view.key_left(word).document == view.document,
        view.key_right(word).document == view.document,
{
    let k = char_pos(view.line(), view.resolved().byte as nat) as int;
    lemma_char_pos_fits(view.line(), view.resolved().byte as nat);
    if k < view.line().len() {
        lemma_next_stop_in_line(classes(view.line()), k);
    }
    if k > 0 {
        lemma_prev_stop_in_line(classes(view.line()), k);
    }
}

/// The file after the line on row `row` was cut in two at position `k`.
pub open spec fn split_at_row(document: Seq<Seq<char>>, row: int, k: int) -> Seq<Seq<char>> {
    document.update(row, document[row].take(k)).insert(row + 1, document[row].skip(k))
}

/// A file whose lines are lines still holds only lines after one of them was
/// cut in two.
pub proof fn lemma_split_lines_are_lines(document: Seq<Seq<char>>, row: int, k: int)
    requires
        0 <= row < document.len(),
        0 <= k <= document[row].len(),
        forall|i: int| 0 <= i < document.len() ==> is_line(#[trigger] document[i]),
    ensures
        split_at_row(document, row, k).len() == document.len() + 1,
        forall|i: int|
            0 <= i < document.len() + 1 ==> is_line(#[trigger] split_at_row(document, row, k)[i]),
{
    let target = split_at_row(document, row, k);
    lemma_newline_free_parts(document[row], k, k);
    assert forall|i: int| 0 <= i < document.len() + 1 implies is_line(#[trigger] target[i]) by {
        if i < row {
            assert(target[i] == document[i]);
        } else if i == row {
            assert(target[i] == document[row].take(k));
        } else if i == row + 1 {
            assert(target[i] == document[row].skip(k));
        } else {
            assert(target[i] == document[i - 1]);
        }
    }
}

/// Before the window is repaired after Enter, the line is cut in two, and the
/// cursor is still on the first of the two.
pub proof fn lemma_enter_places_line(view: PortalView)
    requires
        view.wf(),
        view.count > 0,
    ensures
        ({
            let k = char_pos(view.line(), view.resolved().byte as nat) as int;
            let cut = view.with_line(view.line().take(k)).with_cursor(
                RawIndex::Valid(Index { display: 0, byte: 0 }),
            );
            let placed = if cut.can_cursor_down() {
                let down = cut.cursor_down();
                down.insert_line(down.active, view.line().skip(k)).cursor_up()
            } else {
                cut.insert_line(cut.count, view.line().skip(k))
            };
            &&& placed.document == split_at_row(view.document, view.row(), k)
            &&& placed.row() == view.row()
            &&& placed.active < placed.count
            &&& placed.offset + placed.count <= placed.document.len()
            &&& placed.cursor.column() == 0
            &&& placed.height == view.height
            &&& placed.gutter_width >= view.gutter_width
        }),
{
    let k = char_pos(view.line(), view.resolved().byte as nat) as int;
    lemma_char_pos_fits(view.line(), view.resolved().byte as nat);
    let head = view.line().take(k);
    let tail = view.line().skip(k);
    let cut = view.with_line(head).with_cursor(RawIndex::Valid(Index { display: 0, byte: 0 }));
    let target = split_at_row(view.document, view.row(), k);
    if cut.can_cursor_down() {
        let down = cut.cursor_down();
        assert(down.document == cut.document);
        assert(down.row() == view.row() + 1);
        let inserted = down.insert_line(down.active, tail);
        assert(inserted.document =~= target);
        assert(inserted.offset == down.offset && inserted.active == down.active);
    } else {
        let placed = cut.insert_line(cut.count, tail);
        assert(placed.document =~= target);
    }
}

/// Enter cuts the line of the cursor in two: what stood before the cursor
/// stays on its line, what stood after it is a line of its own right below,
/// and the cursor is at the start of that line. All other lines stay as they
/// are.
pub proof fn law_enter_splits_line(view: PortalView)
    requires
        view.wf(),
        view.count > 0,
    ensures
        ({
            let k = char_pos(view.line(), view.resolved().byte as nat) as int;
            let after = view.enter_split();
            &&& after.document == view.document.update(view.row(), view.line().take(k)).insert(
                view.row() + 1,
                view.line().skip(k),
            )
            &&& after.row() == view.row() + 1
            &&& after.cursor == (RawIndex::Invalid { display: 0 })
            &&& after.wf()
        }),
{
    let k = char_pos(view.line(), view.resolved().byte as nat) as int;
    lemma_char_pos_fits(view.line(), view.resolved().byte as nat);
    lemma_enter_places_line(view);
    lemma_split_lines_are_lines(view.document, view.row(), k);
    let cut = view.with_line(view.line().take(k)).with_cursor(
        RawIndex::Valid(Index { display: 0, byte: 0 }),
    );
    let placed = if cut.can_cursor_down() {
        let down = cut.cursor_down();
        down.insert_line(down.active, view.line().skip(k)).cursor_up()
    } else {
        cut.insert_line(cut.count, view.line().skip(k))
    };
    let fixed = placed.fix_lines();
    assert(fixed.document == placed.document);
    assert(fixed.row() == view.row());
    assert(fixed.row() + 1 < fixed.document.len());
    assert(view.enter_split() == fixed.cursor_down());
}

/// The keys that move the cursor or scroll the window change no line of the
/// file.
pub proof fn law_moving_keeps_file(view: PortalView, input: Input)
    requires
        view.wf(),
        match input {
            Input::KeyCombo(combo) => match combo.key {
                Key::Up | Key::Down | Key::Left | Key::Right | Key::Home | Key::End
                | Key::PageUp | Key::PageDown => true,
                _ => false,
            },
            Input::ScrollDown | Input::ScrollUp => true,
            _ => false,
        },
    ensures
        view.step(input).document == view.document,
{
}

/// The gutter that has grown is no narrower than it was.
pub proof fn lemma_gutter_grows(gutter: nat, from: nat, to: nat)
    ensures
        PortalView::gutter_grown(gutter, from, to) >= gutter,
    decreases to - from,
{
    if from < to {
        lemma_gutter_grows(wider(gutter, gutter_for(from + 1)), from + 1, to);
    }
}

/// A viewport in which `text` takes the place of the line of the cursor is
/// in order as before, if `text` can be a line.
pub proof fn lemma_with_line_keeps_order(view: PortalView, text: Seq<char>)
    requires
        view.wf(),
        view.count > 0,
        is_line(text),
    ensures
        view.with_line(text).wf(),
{
    let after = view.with_line(text);
    assert forall|i: int| 0 <= i < after.document.len() implies newline_free(
        #[trigger] after.document[i],
    ) && after.document[i].len() <= MAX_LINE_LEN by {
        if i != view.row() {
            assert(after.document[i] == view.document[i]);
        }
    }
}

/// A viewport with one line more, or one line less, in its window still
/// holds only lines, and its window still lies inside the file.
pub proof fn lemma_line_count_keeps_inv(view: PortalView, i: nat, text: Seq<char>)
    requires
        view.inv(),
        i <= view.count,
        is_line(text),
    ensures
        view.insert_line(i, text).inv(),
        i < view.count ==> view.remove_line(i).inv(),
{
    let more = view.insert_line(i, text);
    assert forall|j: int| 0 <= j < more.document.len() implies newline_free(
        #[trigger] more.document[j],
    ) && more.document[j].len() <= MAX_LINE_LEN by {
        if j < view.offset + i {
            assert(more.document[j] == view.document[j]);
        } else if j > view.offset + i {
            assert(more.document[j] == view.document[j - 1]);
        }
    }
    if i < view.count {
        let less = view.remove_line(i);
        assert forall|j: int| 0 <= j < less.document.len() implies newline_free(
            #[trigger] less.document[j],
        ) && less.document[j].len() <= MAX_LINE_LEN by {
            if j < view.offset + i {
                assert(less.document[j] == view.document[j]);
            } else {
                assert(less.document[j] == view.document[j + 1]);
            }
        }
    }
}

/// Whatever event a viewport takes, it is in order afterwards: its window
/// lies inside the file and is full unless the file ends in it, the cursor
/// is on one of its rows, and every line is free of newlines.
pub proof fn law_step_keeps_order(view: PortalView, input: Input)
    requires
        view.wf(),
    ensures
        view.step(input).wf(),
{
    if view.count > 0 {
        match input {
            Input::KeyCombo(combo) => {
                lemma_key_keeps_order(view, combo);
            },
            _ => {},
        }
    }
}

/// Whatever key a viewport takes, it is in order afterwards.
pub proof fn lemma_key_keeps_order(view: PortalView, combo: KeyCombo)
    requires
        view.wf(),
        view.count > 0,
    ensures
        view.pressed(combo).wf(),
{
    match combo.key {
        Key::Up => {
            assert(view.key_up().wf());
        },
        Key::Down => {
            assert(view.key_down().wf());
        },
        Key::Left => {
            assert(view.key_left(combo.ctrl).wf());
        },
        Key::Right => {
            assert(view.key_right(combo.ctrl).wf());
        },
        Key::Home => {
            assert(view.key_home(combo.ctrl).wf());
        },
        Key::End => {
            assert(view.key_end(combo.ctrl).wf());
        },
        Key::Char(c) => {
            lemma_typing_keeps_order(view, c);
        },
        Key::Tab => {
            lemma_typing_keeps_order(view, '\t');
        },
        Key::Enter => {
            lemma_enter_keeps_order(view, combo.shift, combo.ctrl);
        },
        Key::Backspace => {
            lemma_backspace_keeps_order(view, combo.ctrl);
        },
        Key::Delete => {
            lemma_delete_keeps_order(view, combo.ctrl);
        },
        Key::PageDown => {
            assert(view.scrolled_down(view.count / 2).wf());
        },
        Key::PageUp => {
            assert(view.scrolled_up(view.count / 2).wf());
        },
        Key::Insert => {},
        Key::Esc => {},
        Key::CapsLock => {},
    }
}

/// A viewport is in order after Enter, with or without modifiers.
pub proof fn lemma_enter_keeps_order(view: PortalView, shift: bool, ctrl: bool)
    requires
        view.wf(),
        view.count > 0,
    ensures
        ctrl && shift ==> view.enter_above().wf(),
        ctrl && !shift ==> view.enter_below().wf(),
        !ctrl ==> view.enter_split().wf(),
{
    if ctrl && shift {
        lemma_line_count_keeps_inv(view, view.active, Seq::<char>::empty());
    } else if ctrl {
        law_control_enter_adds_line_below(view);
    } else {
        law_enter_splits_line(view);
    }
}

/// Enter with Control and Shift puts an empty line right above the line of
/// the cursor. No line is cut or changed, and the cursor stays on its row,
/// which holds the empty line afterwards.
pub proof fn law_control_shift_enter_adds_line_above(view: PortalView)
    requires
        view.wf(),
        view.count > 0,
    ensures
        view.enter_above().document == view.document.insert(view.row(), Seq::<char>::empty()),
        view.enter_above().row() == view.row(),
        view.enter_above().active == view.active,
        view.enter_above().offset == view.offset,
        view.enter_above().cursor == view.cursor,
        view.enter_above().line() == Seq::<char>::empty(),
        view.enter_above().wf(),
{
    lemma_line_count_keeps_inv(view, view.active, Seq::<char>::empty());
}

/// Enter with Control puts an empty line right below the line of the cursor,
/// on whatever line of the file the cursor is, the last one too. No line is
/// cut or changed, and the cursor is on the empty line afterwards.
pub proof fn law_control_enter_adds_line_below(view: PortalView)
    requires
        view.wf(),
        view.count > 0,
    ensures
        view.enter_below() == view.placed_below(),
        view.enter_below().document == view.document.insert(
            view.row() + 1,
            Seq::<char>::empty(),
        ),
        view.enter_below().row() == view.row() + 1,
        view.enter_below().line() == Seq::<char>::empty(),
        view.enter_below().wf(),
{
    let blank = Seq::<char>::empty();
    let target = view.document.insert(view.row() + 1, blank);
    if view.can_cursor_down() {
        let down = view.cursor_down();
        assert(down.document == view.document);
        assert(down.row() == view.row() + 1);
        lemma_line_count_keeps_inv(down, down.active, blank);
        let more = down.insert_line(down.active, blank);
        assert(more.document == target);
        assert(more.fix_lines().document == target);
    } else {
        lemma_line_count_keeps_inv(view, view.count, blank);
        let more = view.insert_line(view.count, blank);
        assert(view.row() + 1 == view.offset + view.count);
        assert(more.document == target);
        let fixed = more.fix_lines();
        assert(fixed.document == target);
        assert(fixed.row() + 1 < target.len());
    }
}

/// A viewport is in order after a character was typed.
pub proof fn lemma_typing_keeps_order(view: PortalView, c: char)
    requires
        view.wf(),
        view.count > 0,
    ensures
        view.typed(c).wf(),
{
    let line = view.line();
    if c != '\n' && line.len() < MAX_LINE_LEN {
        let at = view.resolved();
        lemma_char_pos_fits(line, at.byte as nat);
        lemma_newline_free_insert(line, char_pos(line, at.byte as nat) as int, c);
        lemma_with_line_keeps_order(view, line.insert(char_pos(line, at.byte as nat) as int, c));
    }
}

/// The file after the line on row `row` was joined to the end of the line
/// before it.
pub open spec fn joined_at_row(document: Seq<Seq<char>>, row: int) -> Seq<Seq<char>> {
    document.remove(row).update(row - 1, document[row - 1] + document[row])
}

/// A file whose lines are lines still holds only lines after two of them
/// that fit into one were joined.
pub proof fn lemma_joined_lines_are_lines(document: Seq<Seq<char>>, row: int)
    requires
        0 < row < document.len(),
        document[row - 1].len() + document[row].len() <= MAX_LINE_LEN,
        forall|i: int| 0 <= i < document.len() ==> is_line(#[trigger] document[i]),
    ensures
        joined_at_row(document, row).len() == document.len() - 1,
        forall|i: int|
            0 <= i < document.len() - 1 ==> is_line(#[trigger] joined_at_row(document, row)[i]),
{
    let target = joined_at_row(document, row);
    assert(is_line(document[row - 1]));
    assert(is_line(document[row]));
    lemma_newline_free_concat(document[row - 1], document[row]);
    assert forall|i: int| 0 <= i < document.len() - 1 implies is_line(#[trigger] target[i]) by {
        if i < row - 1 {
            assert(target[i] == document[i]);
        } else if i == row - 1 {
            assert(target[i] == document[row - 1] + document[row]);
        } else {
            assert(target[i] == document[i + 1]);
        }
    }
}

/// What joining the line of the cursor to the line before it does, and that
/// the viewport is in order afterwards.
pub proof fn lemma_joined_above(view: PortalView)
    requires
        view.wf(),
        view.count > 0,
        view.joins_above(),
    ensures
        view.joined_above().document == joined_at_row(view.document, view.row()),
        view.joined_above().row() == view.row() - 1,
        view.joined_above().cursor == RawIndex::Valid(
            index_at(
                view.document[view.row() - 1],
                view.document[view.row() - 1].len() as int,
            ),
        ),
        view.joined_above().gutter_width == view.gutter_width,
        view.joined_above().wf(),
{
    lemma_joined_lines_are_lines(view.document, view.row());
    let placed = view.placed_above();
    assert(placed.row() == view.row() - 1);
    assert(placed.document.len() == view.document.len() - 1);
    assert(placed.active < placed.count);
}

/// What joining the line after the cursor to the line of the cursor does,
/// and that the viewport is in order afterwards.
pub proof fn lemma_joined_below(view: PortalView)
    requires
        view.wf(),
        view.count > 0,
        view.joins_below(),
    ensures
        view.joined_below().document == joined_at_row(view.document, view.row() + 1),
        view.joined_below().document == view.remove_line(view.active).fix_lines().with_line(
            view.line() + view.document[view.row() + 1],
        ).document,
        view.joined_below().row() == view.row(),
        view.joined_below().cursor == view.cursor,
        view.joined_below().gutter_width == view.gutter_width,
        view.joined_below().wf(),
{
    lemma_joined_lines_are_lines(view.document, view.row() + 1);
    let row = view.row();
    let text = view.line() + view.document[row + 1];
    assert(view.document.remove(row + 1).update(row, text) =~= view.document.remove(row).update(
        row,
        text,
    ));
    let placed = view.remove_line(view.active).fix_lines();
    assert(placed.document.len() == view.document.len() - 1);
    assert(placed.active < placed.count);
}

/// Backspace at the start of a line joins that line to the end of the line
/// before it, wherever in the window the cursor is, on its first row too:
/// the file has one line less, the cursor is a line further up, where the
/// two lines meet, and the other lines stay as they are.
pub proof fn law_backspace_joins_lines(view: PortalView, word: bool)
    requires
        view.wf(),
        view.count > 0,
        char_pos(view.line(), view.resolved().byte as nat) == 0,
        view.row() > 0,
        view.document[view.row() - 1].len() + view.line().len() <= MAX_LINE_LEN,
    ensures
        view.backspace(word).document == view.document.remove(view.row()).update(
            view.row() - 1,
            view.document[view.row() - 1] + view.line(),
        ),
        view.backspace(word).row() == view.row() - 1,
        view.backspace(word).cursor == RawIndex::Valid(
            index_at(
                view.document[view.row() - 1],
                view.document[view.row() - 1].len() as int,
            ),
        ),
        view.backspace(word).wf(),
{
    lemma_joined_above(view);
}

/// Backspace at the very start of the file changes nothing.
pub proof fn law_backspace_at_file_start(view: PortalView, word: bool)
    requires
        view.wf(),
        view.count > 0,
        char_pos(view.line(), view.resolved().byte as nat) == 0,
        view.row() == 0,
    ensures
        view.backspace(word) == view,
{
}

/// Delete at the end of a line joins the line after it to that line,
/// wherever in the window the cursor is, on its last row too: the file has
/// one line less, the cursor stays on its line, and the other lines stay as
/// they are.
pub proof fn law_delete_joins_lines(view: PortalView, word: bool)
    requires
        view.wf(),
        view.count > 0,
        char_pos(view.line(), view.resolved().byte as nat) == view.line().len(),
        view.row() + 1 < view.document.len(),
        view.line().len() + view.document[view.row() + 1].len() <= MAX_LINE_LEN,
    ensures
        view.delete(word).document == view.document.remove(view.row() + 1).update(
            view.row(),
            view.line() + view.document[view.row() + 1],
        ),
        view.delete(word).row() == view.row(),
        view.delete(word).cursor == RawIndex::Valid(view.resolved()),
        view.delete(word).wf(),
{
    lemma_joined_below(view);
}

/// Delete at the very end of the file changes no line.
pub proof fn law_delete_at_file_end(view: PortalView, word: bool)
    requires
        view.wf(),
        view.count > 0,
        char_pos(view.line(), view.resolved().byte as nat) == view.line().len(),
        view.row() + 1 == view.document.len(),
    ensures
        view.delete(word) == view.with_cursor(RawIndex::Valid(view.resolved())),
{
}

/// A viewport is in order after Backspace.
pub proof fn lemma_backspace_keeps_order(view: PortalView, word: bool)
    requires
        view.wf(),
        view.count > 0,
    ensures
        view.backspace(word).wf(),
{
    let line = view.line();
    let at = view.resolved();
    if char_pos(line, at.byte as nat) == 0 {
        if view.joins_above() {
            lemma_joined_above(view);
        }
    } else {
        let back = if word {
            stepped_backward_word(line, at)
        } else {
            stepped_backward(line, at)
        };
        if back is Some {
            lemma_shorter_is_line(line, back->0, at);
            lemma_with_line_keeps_order(
                view,
                if word {
                    removed_range(line, back->0, at)
                } else {
                    removed(line, back->0)
                },
            );
        }
    }
}

/// A viewport is in order after Delete.
pub proof fn lemma_delete_keeps_order(view: PortalView, word: bool)
    requires
        view.wf(),
        view.count > 0,
    ensures
        view.delete(word).wf(),
{
    let line = view.line();
    let at = view.resolved();
    if char_pos(line, at.byte as nat) == line.len() {
        if view.joins_below() {
            lemma_joined_below(view);
        }
    } else {
        let to = match stepped_forward_word(line, at) {
            Some(index) => index,
            None => view.end_index(),
        };
        lemma_shorter_is_line(line, at, to);
        lemma_with_line_keeps_order(
            view,
            if word {
                removed_range(line, at, to)
            } else {
                removed(line, at)
            },
        );
    }
}

/// Whatever event a viewport takes, its gutter is no narrower afterwards.
pub proof fn law_gutter_never_shrinks(view: PortalView, input: Input)
    requires
        view.wf(),
    ensures
        view.step(input).gutter_width >= view.gutter_width,
{
    if view.count > 0 {
        match input {
            Input::KeyCombo(combo) => {
                lemma_key_keeps_gutter(view, combo);
            },
            Input::ScrollDown => {
                lemma_gutter_grows(view.gutter_width, view.offset, view.scrolled_down(5).offset);
            },
            _ => {},
        }
    }
}

/// Whatever key a viewport takes, its gutter is no narrower afterwards.
pub proof fn lemma_key_keeps_gutter(view: PortalView, combo: KeyCombo)
    requires
        view.wf(),
        view.count > 0,
    ensures
        view.pressed(combo).gutter_width >= view.gutter_width,
{
    let to = (view.document.len() - view.count) as nat;
    match combo.key {
        Key::Up => {
            assert(view.key_up().gutter_width >= view.gutter_width);
        },
        Key::Down => {
            assert(view.key_down().gutter_width >= view.gutter_width);
        },
        Key::Left => {
            assert(view.key_left(combo.ctrl).gutter_width >= view.gutter_width);
        },
        Key::Right => {
            assert(view.key_right(combo.ctrl).gutter_width >= view.gutter_width);
        },
        Key::Home => {
            assert(view.key_home(combo.ctrl).gutter_width >= view.gutter_width);
        },
        Key::End => {
            lemma_gutter_grows(view.gutter_width, view.offset, to);
            assert(view.key_end(combo.ctrl).gutter_width >= view.gutter_width);
        },
        Key::Char(c) => {
            assert(view.typed(c).gutter_width >= view.gutter_width);
        },
        Key::Tab => {
            assert(view.typed('\t').gutter_width >= view.gutter_width);
        },
        Key::Enter => {
            if combo.ctrl && combo.shift {
                assert(view.enter_above().gutter_width >= view.gutter_width);
            } else if combo.ctrl {
                assert(view.enter_below().gutter_width >= view.gutter_width);
            } else {
                lemma_enter_places_line(view);
                assert(view.enter_split().gutter_width >= view.gutter_width);
            }
        },
        Key::Backspace => {
            assert(view.backspace(combo.ctrl).gutter_width >= view.gutter_width);
        },
        Key::Delete => {
            assert(view.delete(combo.ctrl).gutter_width >= view.gutter_width);
        },
        Key::PageDown => {
            lemma_gutter_grows(
                view.gutter_width,
                view.offset,
                view.scrolled_down(view.count / 2).offset,
            );
        },
        Key::PageUp => {},
        Key::Insert => {},
        Key::Esc => {},
        Key::CapsLock => {},
    }
}

} // verus!
