//! What each key does to the viewport.
//!
//! Every key is described twice: as a function from one state of the
//! viewport to the next, over what the viewport stands for, and as the code
//! that brings the viewport into that state.

use crate::line::{
    corrected, index_at, removed, removed_range, stepped_backward, stepped_backward_word,
    stepped_forward, stepped_forward_word, Index, Line, RawIndex,
};
use crate::message::{Input, Key, KeyCombo, Message};
use crate::document::lemma_replaced;
use crate::laws::{
    law_control_enter_adds_line_below, law_enter_splits_line, lemma_enter_places_line,
    lemma_joined_above, lemma_joined_below,
};
use crate::portal::{Portal, PortalView, SCROLL_DIST};
use crate::text::{char_pos, MAX_LINE_LEN};
use vstd::prelude::*;

verus! {

impl PortalView {
    /// The index that the cursor stands for on its line.
    pub open spec fn resolved(self) -> Index {
        corrected(self.line(), self.cursor)
    }

    /// The index of the end of the line that the cursor is on.
    pub open spec fn end_index(self) -> Index {
        index_at(self.line(), self.line().len() as int)
    }

    /// Up: the cursor goes up a line. On the first line of the file it goes
    /// to the start of the line.
    pub open spec fn key_up(self) -> PortalView {
        if self.can_cursor_up() {
            self.cursor_up()
        } else {
            self.with_cursor(RawIndex::Valid(Index { display: 0, byte: 0 }))
        }
    }

    /// Down: the cursor goes down a line. On the last line of the file it
    /// goes to the end of the line.
    pub open spec fn key_down(self) -> PortalView {
        if self.can_cursor_down() {
            self.cursor_down()
        } else {
            self.with_cursor(RawIndex::Valid(self.end_index()))
        }
    }

    /// Left: the cursor goes back by a character, or by a word if `word` is
    /// set. At the start of a line it goes to the end of the line above, if
    /// there is one.
    pub open spec fn key_left(self, word: bool) -> PortalView {
        let at = self.resolved();
        let back = if word {
            stepped_backward_word(self.line(), at)
        } else {
            stepped_backward(self.line(), at)
        };
        match back {
            Some(index) => self.with_cursor(RawIndex::Valid(index)),
            None => if self.can_cursor_up() {
                let up = self.cursor_up();
                up.with_cursor(RawIndex::Valid(up.end_index()))
            } else {
                self.with_cursor(RawIndex::Valid(at))
            },
        }
    }

    /// Right: the cursor goes on by a character, or by a word if `word` is
    /// set. At the end of a line it goes to the start of the line below, if
    /// there is one.
    pub open spec fn key_right(self, word: bool) -> PortalView {
        let at = self.resolved();
        let on = if word {
            stepped_forward_word(self.line(), at)
        } else {
            stepped_forward(self.line(), at)
        };
        match on {
            Some(index) => self.with_cursor(RawIndex::Valid(index)),
            None => if self.can_cursor_down() {
                self.cursor_down().with_cursor(RawIndex::Valid(Index { display: 0, byte: 0 }))
            } else {
                self.with_cursor(RawIndex::Valid(at))
            },
        }
    }

    /// Home: the cursor goes to the start of its line; with `whole` set, to
    /// the start of the file.
    pub open spec fn key_home(self, whole: bool) -> PortalView {
        let on = if whole {
            self.jump_top()
        } else {
            self
        };
        on.with_cursor(RawIndex::Valid(Index { display: 0, byte: 0 }))
    }

    /// End: the cursor goes to the end of its line; with `whole` set, to the
    /// end of the file.
    pub open spec fn key_end(self, whole: bool) -> PortalView {
        let on = if whole {
            self.jump_bottom()
        } else {
            self
        };
        on.with_cursor(RawIndex::Valid(on.end_index()))
    }

    /// A character: it is put into the line at the cursor, and the cursor
    /// goes on by one character. A newline is no character of a line, and a
    /// line of `MAX_LINE_LEN` characters takes no more: then nothing changes.
    pub open spec fn typed(self, c: char) -> PortalView {
        if c == '\n' || self.line().len() >= MAX_LINE_LEN {
            self
        } else {
            let at = self.resolved();
            let text = self.line().insert(char_pos(self.line(), at.byte as nat) as int, c);
            let next = match stepped_forward(text, at) {
                Some(index) => index,
                None => at,
            };
            self.with_line(text).with_cursor(RawIndex::Valid(next))
        }
    }

    /// Enter with Control and Shift: an empty line is put in right above the
    /// line of the cursor, which stays as it is. The cursor does not move: it
    /// stays on its row, which now holds the empty line.
    pub open spec fn enter_above(self) -> PortalView {
        PortalView {
            document: self.document.insert(self.row(), Seq::<char>::empty()),
            ..self.insert_line(self.active, Seq::<char>::empty()).fix_lines()
        }
    }

    /// Where the window and the cursor are after Enter with Control: the
    /// cursor goes down a line and the empty line is put in before the line it
    /// is then on; on the last line of the file the empty line is put in
    /// after it, and the cursor goes down onto it.
    pub open spec fn placed_below(self) -> PortalView {
        if self.can_cursor_down() {
            let down = self.cursor_down();
            down.insert_line(down.active, Seq::<char>::empty()).fix_lines()
        } else {
            self.insert_line(self.count, Seq::<char>::empty()).fix_lines().cursor_down()
        }
    }

    /// Enter with Control: an empty line is put in right below the line of
    /// the cursor, which stays as it is, and the cursor goes down onto the
    /// empty line.
    pub open spec fn enter_below(self) -> PortalView {
        PortalView {
            document: self.document.insert(self.row() + 1, Seq::<char>::empty()),
            ..self.placed_below()
        }
    }

    /// Enter: the line is cut at the cursor. What stood after the cursor
    /// becomes a line of its own below, and the cursor goes to its start.
    pub open spec fn enter_split(self) -> PortalView {
        let k = char_pos(self.line(), self.resolved().byte as nat) as int;
        let head = self.line().take(k);
        let tail = self.line().skip(k);
        let cut = self.with_line(head).with_cursor(
            RawIndex::Valid(Index { display: 0, byte: 0 }),
        );
        let placed = if cut.can_cursor_down() {
            let down = cut.cursor_down();
            down.insert_line(down.active, tail).cursor_up()
        } else {
            cut.insert_line(cut.count, tail)
        };
        placed.fix_lines().cursor_down()
    }

    /// Whether Backspace at the start of a line joins the line of the cursor
    /// to the line before it: there is a line before it in the file, in the
    /// window or above it, and the two fit into one line.
    pub open spec fn joins_above(self) -> bool {
        self.row() > 0 && self.document[self.row() - 1].len() + self.line().len()
            <= MAX_LINE_LEN
    }

    /// Whether Delete at the end of a line joins the line after it to the
    /// line of the cursor: there is a line after it in the file, in the
    /// window or below it, and the two fit into one line.
    pub open spec fn joins_below(self) -> bool {
        self.row() + 1 < self.document.len() && self.line().len() + self.document[self.row()
            + 1].len() <= MAX_LINE_LEN
    }

    /// Where the window and the cursor are after the line of the cursor was
    /// joined to the line before it. The cursor goes up a line; from the
    /// first row of the window it stays on that row and the window scrolls
    /// up by a line.
    pub open spec fn placed_above(self) -> PortalView {
        if self.active > 0 {
            self.remove_line(self.active).fix_lines().cursor_up()
        } else {
            PortalView {
                document: self.document.remove(self.row()),
                offset: (self.offset - 1) as nat,
                ..self
            }.fix_lines()
        }
    }

    /// The viewport after the line of the cursor was joined to the end of the
    /// line before it: the file has one line less, the line before holds the
    /// text of both, and the cursor is on it, where the two meet.
    pub open spec fn joined_above(self) -> PortalView {
        let before = self.document[self.row() - 1];
        PortalView {
            document: self.document.remove(self.row()).update(
                self.row() - 1,
                before + self.line(),
            ),
            cursor: RawIndex::Valid(index_at(before, before.len() as int)),
            ..self.placed_above()
        }
    }

    /// The viewport after what stands before the cursor was taken out: one
    /// character, or, if `word` is set, all from the last word boundary on.
    pub open spec fn erased_back(self, word: bool) -> PortalView {
        let at = self.resolved();
        let back = if word {
            stepped_backward_word(self.line(), at)
        } else {
            stepped_backward(self.line(), at)
        };
        match back {
            Some(index) => self.with_line(
                if word {
                    removed_range(self.line(), index, at)
                } else {
                    removed(self.line(), index)
                },
            ).with_cursor(RawIndex::Valid(index)),
            None => self,
        }
    }

    /// Backspace: the character before the cursor is taken out, or, if
    /// `word` is set, all from the last word boundary to the cursor. At the
    /// start of a line the line is joined to the end of the line before it
    /// instead, and the cursor goes to where the two were joined. At the
    /// start of the file nothing changes.
    pub open spec fn backspace(self, word: bool) -> PortalView {
        if char_pos(self.line(), self.resolved().byte as nat) == 0 {
            if self.joins_above() {
                self.joined_above()
            } else {
                self
            }
        } else {
            self.erased_back(word)
        }
    }

    /// The viewport after the line after the cursor was joined to the end of
    /// the line of the cursor: the file has one line less, and the line of
    /// the cursor holds the text of both. The cursor stays where it is, and
    /// the window is repaired.
    pub open spec fn joined_below(self) -> PortalView {
        PortalView {
            document: self.document.remove(self.row() + 1).update(
                self.row(),
                self.line() + self.document[self.row() + 1],
            ),
            ..self.remove_line(self.active).fix_lines()
        }
    }

    /// The viewport after what stands at the cursor was taken out: one
    /// character, or, if `word` is set, all up to the next word boundary.
    pub open spec fn erased_forward(self, word: bool) -> PortalView {
        let at = self.resolved();
        let text = if word {
            let to = match stepped_forward_word(self.line(), at) {
                Some(index) => index,
                None => self.end_index(),
            };
            removed_range(self.line(), at, to)
        } else {
            removed(self.line(), at)
        };
        self.with_line(text)
    }

    /// Delete: the character at the cursor is taken out, or, if `word` is
    /// set, all from the cursor to the next word boundary. At the end of a
    /// line the line after it is joined to it instead. The cursor stays where
    /// it is.
    pub open spec fn delete(self, word: bool) -> PortalView {
        let at = self.resolved();
        let edited = if char_pos(self.line(), at.byte as nat) == self.line().len() {
            if self.joins_below() {
                self.joined_below()
            } else {
                self
            }
        } else {
            self.erased_forward(word)
        };
        edited.with_cursor(RawIndex::Valid(at))
    }

    /// What a key does, with the modifiers held.
    pub open spec fn pressed(self, combo: KeyCombo) -> PortalView {
        match combo.key {
            Key::Up => self.key_up(),
            Key::Down => self.key_down(),
            Key::Left => self.key_left(combo.ctrl),
            Key::Right => self.key_right(combo.ctrl),
            Key::Home => self.key_home(combo.ctrl),
            Key::End => self.key_end(combo.ctrl),
            Key::Char(c) => self.typed(c),
            Key::Tab => self.typed('\t'),
            Key::Enter => if combo.ctrl && combo.shift {
                self.enter_above()
            } else if combo.ctrl {
                self.enter_below()
            } else {
                self.enter_split()
            },
            Key::Backspace => self.backspace(combo.ctrl),
            Key::Delete => self.delete(combo.ctrl),
            Key::PageDown => self.scrolled_down(self.count / 2),
            Key::PageUp => self.scrolled_up(self.count / 2),
            Key::Insert => self,
            Key::Esc => self,
            Key::CapsLock => self,
        }
    }

    /// What an event from the terminal does. A viewport without lines in its
    /// window takes no event.
    pub open spec fn step(self, input: Input) -> PortalView {
        if self.count == 0 {
            self
        } else {
            match input {
                Input::KeyCombo(combo) => self.pressed(combo),
                Input::ScrollDown => self.scrolled_down(SCROLL_DIST as nat),
                Input::ScrollUp => self.scrolled_up(SCROLL_DIST as nat),
                Input::FocusGained => self,
                Input::FocusLost => self,
            }
        }
    }

    /// What a message does: an event from the terminal does what `step`
    /// says, any other message nothing.
    pub open spec fn updated(self, message: Message) -> PortalView {
        match message {
            Message::Input(input) => self.step(input),
            _ => self,
        }
    }
}

impl Portal {
    /// Up.
    fn key_up(&mut self)
        requires
            old(self).wf(),
            old(self)@.count > 0,
        ensures
            final(self).wf(),
            final(self)@ == old(self)@.key_up(),
            final(self).area() == old(self).area(),
    {
        if !self.cursor_up() {
            self.set_cursor(RawIndex::index_front());
        }
        proof {
            self.lemma_inv();
        }
    }

    /// Down.
    fn key_down(&mut self)
        requires
            old(self).wf(),
            old(self)@.count > 0,
        ensures
            final(self).wf(),
            final(self)@ == old(self)@.key_down(),
            final(self).area() == old(self).area(),
    {
        if !self.cursor_down() {
            let end = self.line_at(self.active()).index_back(self.cursor());
            self.set_cursor(RawIndex::Valid(end));
        }
        proof {
            self.lemma_inv();
        }
    }

    /// Left, by a character or by a word.
    fn key_left(&mut self, word: bool)
        requires
            old(self).wf(),
            old(self)@.count > 0,
        ensures
            final(self).wf(),
            final(self)@ == old(self)@.key_left(word),
            final(self).area() == old(self).area(),
    {
        let line = self.line_at(self.active());
        let at = line.correct_index(self.cursor());
        let back = if word {
            line.index_backward_word(at)
        } else {
            line.index_backward(at)
        };
        match back {
            Some(index) => {
                self.set_cursor(RawIndex::Valid(index));
            },
            None => {
                if self.cursor_up() {
                    proof {
                        self.lemma_inv();
                    }
                    let end = self.line_at(self.active()).index_back(RawIndex::Valid(at));
                    self.set_cursor(RawIndex::Valid(end));
                } else {
                    self.set_cursor(RawIndex::Valid(at));
                }
            },
        }
        proof {
            self.lemma_inv();
        }
    }

    /// Right, by a character or by a word.
    fn key_right(&mut self, word: bool)
        requires
            old(self).wf(),
            old(self)@.count > 0,
        ensures
            final(self).wf(),
            final(self)@ == old(self)@.key_right(word),
            final(self).area() == old(self).area(),
    {
        let line = self.line_at(self.active());
        let at = line.correct_index(self.cursor());
        let on = if word {
            line.index_forward_word(at)
        } else {
            line.index_forward(at)
        };
        match on {
            Some(index) => {
                self.set_cursor(RawIndex::Valid(index));
            },
            None => {
                if self.cursor_down() {
                    self.set_cursor(RawIndex::index_front());
                } else {
                    self.set_cursor(RawIndex::Valid(at));
                }
            },
        }
        proof {
            self.lemma_inv();
        }
    }

    /// Home, in the line or in the whole file.
    fn key_home(&mut self, whole: bool)
        requires
            old(self).wf(),
            old(self)@.count > 0,
        ensures
            final(self).wf(),
            final(self)@ == old(self)@.key_home(whole),
            final(self).area() == old(self).area(),
    {
        if whole {
            self.jump_top();
        }
        self.set_cursor(RawIndex::index_front());
        proof {
            self.lemma_inv();
        }
    }

    /// End, in the line or in the whole file.
    fn key_end(&mut self, whole: bool)
        requires
            old(self).wf(),
            old(self)@.count > 0,
        ensures
            final(self).wf(),
            final(self)@ == old(self)@.key_end(whole),
            final(self).area() == old(self).area(),
    {
        if whole {
            self.jump_bottom();
        }
        let end = self.line_at(self.active()).index_back(self.cursor());
        self.set_cursor(RawIndex::Valid(end));
        proof {
            self.lemma_inv();
        }
    }

    /// Puts `c` into the line at the cursor and moves the cursor behind it.
    pub fn type_char(&mut self, c: char)
        requires
            old(self).wf(),
            old(self)@.count > 0,
        ensures
            final(self).wf(),
            final(self)@ == old(self)@.typed(c),
            final(self).area() == old(self).area(),
    {
        if c == '\n' {
            return ;
        }
        let active = self.active();
        if self.line_at(active).len() >= MAX_LINE_LEN {
            return ;
        }
        let at = self.line_at(active).correct_index(self.cursor());
        let mut line = self.remove_line(active);
        line.insert(at, c);
        let next = match line.index_forward(at) {
            Some(index) => index,
            None => at,
        };
        let ghost text = line@;
        self.insert_line(active, line);
        self.set_cursor(RawIndex::Valid(next));
        proof {
            let doc = old(self)@.document;
            let row = old(self)@.row();
            old(self).lemma_inv();
            lemma_replaced(doc, row, text);
            self.lemma_inv();
        }
    }

    /// Enter with Control and Shift.
    fn enter_above(&mut self)
        requires
            old(self).wf(),
            old(self)@.count > 0,
        ensures
            final(self).wf(),
            final(self)@ == old(self)@.enter_above(),
            final(self).area() == old(self).area(),
    {
        let active = self.active();
        self.insert_line(active, Line::new());
        self.fix_lines();
        proof {
            self.lemma_inv();
        }
    }

    /// Enter with Control.
    fn enter_below(&mut self)
        requires
            old(self).wf(),
            old(self)@.count > 0,
        ensures
            final(self).wf(),
            final(self)@ == old(self)@.enter_below(),
            final(self).area() == old(self).area(),
            final(self)@.document == old(self)@.document.insert(
                old(self)@.row() + 1,
                Seq::<char>::empty(),
            ),
            final(self)@.row() == old(self)@.row() + 1,
    {
        if self.cursor_down() {
            let active = self.active();
            self.insert_line(active, Line::new());
            self.fix_lines();
        } else {
            let count = self.len();
            self.insert_line(count, Line::new());
            self.fix_lines();
            self.cursor_down();
        }
        proof {
            law_control_enter_adds_line_below(old(self)@);
            self.lemma_inv();
        }
    }

    /// Cuts the line of the cursor at the cursor, and puts the cursor at the
    /// start of what is left of the line. Gives what was cut off.
    fn cut_line(&mut self) -> (rest: Line)
        requires
            old(self).wf(),
            old(self)@.count > 0,
        ensures
            final(self).inv(),
            rest.wf(),
            rest@ == old(self)@.line().skip(
                char_pos(old(self)@.line(), old(self)@.resolved().byte as nat) as int,
            ),
            final(self)@ == old(self)@.with_line(
                old(self)@.line().take(
                    char_pos(old(self)@.line(), old(self)@.resolved().byte as nat) as int,
                ),
            ).with_cursor(RawIndex::Valid(Index { display: 0, byte: 0 })),
    {
        let active = self.active();
        let at = self.line_at(active).correct_index(self.cursor());
        let mut line = self.remove_line(active);
        let rest = line.split_at(at);
        let ghost head = line@;
        self.insert_line(active, line);
        proof {
            let doc = old(self)@.document;
            let row = old(self)@.row();
            old(self).lemma_inv();
            lemma_replaced(doc, row, head);
            assert(self@ == old(self)@.with_line(head));
        }
        self.set_cursor(RawIndex::index_front());
        rest
    }

    /// Enter.
    fn enter_split(&mut self)
        requires
            old(self).wf(),
            old(self)@.count > 0,
        ensures
            final(self).wf(),
            final(self)@ == old(self)@.enter_split(),
            final(self).area() == old(self).area(),
    {
        let rest = self.cut_line();
        if self.cursor_down() {
            let row = self.active();
            proof {
                lemma_enter_places_line(old(self)@);
            }
            self.insert_line(row, rest);
            self.cursor_up();
        } else {
            let count = self.len();
            self.insert_line(count, rest);
        }
        self.fix_lines();
        self.cursor_down();
        proof {
            law_enter_splits_line(old(self)@);
        }
    }

    /// Joins the line of the cursor to the end of the line before it, which
    /// is in the window.
    fn join_above_in_window(&mut self)
        requires
            old(self).wf(),
            old(self)@.active > 0,
            old(self)@.joins_above(),
        ensures
            final(self).inv(),
            final(self)@ == old(self)@.joined_above(),
            final(self).area() == old(self).area(),
    {
        let active = self.active();
        proof {
            self.lemma_inv();
        }
        let line = self.remove_line(active);
        self.fix_lines();
        self.cursor_up();
        let ghost up = self@;
        proof {
            self.lemma_inv();
            assert(up == old(self)@.placed_above());
            assert(up.row() == old(self)@.row() - 1);
            assert(up.active < up.count);
            assert(up.line() == old(self)@.document[old(self)@.row() - 1]);
        }
        let row = self.active();
        let end = self.line_at(row).index_back(self.cursor());
        self.set_cursor(RawIndex::Valid(end));
        let mut above = self.remove_line(row);
        above.append(&line);
        let ghost text = above@;
        self.insert_line(row, above);
        proof {
            lemma_replaced(up.document, up.row(), text);
        }
    }

    /// Joins the line of the cursor, which is on the first row of the window,
    /// to the end of the line before it, which is above the window.
    fn join_above_from_reservoir(&mut self)
        requires
            old(self).wf(),
            old(self)@.count > 0,
            old(self)@.active == 0,
            old(self)@.joins_above(),
        ensures
            final(self).inv(),
            final(self)@ == old(self)@.joined_above(),
            final(self).area() == old(self).area(),
    {
        proof {
            self.lemma_inv();
        }
        let ghost start = self@;
        let line = self.remove_line(0);
        match self.take_from_above() {
            Some(before) => {
                let mut joined = before;
                let end = joined.index_back(self.cursor());
                joined.append(&line);
                let ghost text = joined@;
                self.insert_line(0, joined);
                proof {
                    let cut = start.document.remove(start.row());
                    lemma_replaced(cut, start.row() - 1, text);
                    assert(self@.document == cut.update(start.row() - 1, text));
                }
                self.fix_lines();
                self.set_cursor(RawIndex::Valid(end));
            },
            None => {
                self.insert_line(0, line);
            },
        }
    }

    /// Joins the line of the cursor to the end of the line before it.
    fn join_above(&mut self)
        requires
            old(self).wf(),
            old(self)@.count > 0,
            old(self)@.joins_above(),
        ensures
            final(self).wf(),
            final(self)@ == old(self)@.joined_above(),
            final(self).area() == old(self).area(),
    {
        if self.active() > 0 {
            self.join_above_in_window();
        } else {
            self.join_above_from_reservoir();
        }
        proof {
            lemma_joined_above(old(self)@);
            self.lemma_inv();
        }
    }

    /// Takes out what stands before the cursor: a character, or a word.
    fn erase_back(&mut self, word: bool)
        requires
            old(self).wf(),
            old(self)@.count > 0,
        ensures
            final(self).wf(),
            final(self)@ == old(self)@.erased_back(word),
            final(self).area() == old(self).area(),
    {
        let active = self.active();
        proof {
            self.lemma_inv();
        }
        let at = self.line_at(active).correct_index(self.cursor());
        let back = if word {
            self.line_at(active).index_backward_word(at)
        } else {
            self.line_at(active).index_backward(at)
        };
        match back {
            Some(index) => {
                let mut line = self.remove_line(active);
                if word {
                    line.remove_range(index, at);
                } else {
                    line.remove(index);
                }
                let ghost text = line@;
                self.insert_line(active, line);
                proof {
                    let doc = old(self)@.document;
                    let row = old(self)@.row();
                    lemma_replaced(doc, row, text);
                    assert(self@ == old(self)@.with_line(text));
                }
                self.set_cursor(RawIndex::Valid(index));
            },
            None => {},
        }
        proof {
            self.lemma_inv();
        }
    }

    /// Backspace, for a character or for a word.
    fn backspace(&mut self, word: bool)
        requires
            old(self).wf(),
            old(self)@.count > 0,
        ensures
            final(self).wf(),
            final(self)@ == old(self)@.backspace(word),
            final(self).area() == old(self).area(),
    {
        let active = self.active();
        let at = self.line_at(active).correct_index(self.cursor());
        if self.line_at(active).at_front(at) {
            let len = self.line_at(active).len();
            match self.prev_line_len() {
                Some(before) => {
                    if before + len <= MAX_LINE_LEN {
                        self.join_above();
                    }
                },
                None => {},
            }
        } else {
            self.erase_back(word);
        }
    }

    /// Joins the line after the cursor to the end of the line of the cursor.
    fn join_below(&mut self)
        requires
            old(self).wf(),
            old(self)@.count > 0,
            old(self)@.joins_below(),
        ensures
            final(self).wf(),
            final(self)@ == old(self)@.joined_below(),
            final(self).area() == old(self).area(),
    {
        let active = self.active();
        proof {
            self.lemma_inv();
        }
        let line = self.remove_line(active);
        self.fix_lines();
        let ghost joined = self@;
        proof {
            self.lemma_inv();
            assert(joined == old(self)@.remove_line(active as nat).fix_lines());
            assert(joined.active < joined.count);
            assert(joined.line() == old(self)@.document[old(self)@.row() + 1]);
        }
        let mut below = self.remove_line(active);
        below.prepend(&line);
        let ghost text = below@;
        self.insert_line(active, below);
        proof {
            lemma_replaced(joined.document, joined.row(), text);
            lemma_joined_below(old(self)@);
            self.lemma_inv();
        }
    }

    /// Takes out what stands at the cursor: a character, or a word.
    fn erase_forward(&mut self, word: bool)
        requires
            old(self).wf(),
            old(self)@.count > 0,
        ensures
            final(self).wf(),
            final(self)@ == old(self)@.erased_forward(word),
            final(self).area() == old(self).area(),
    {
        let active = self.active();
        proof {
            self.lemma_inv();
        }
        let at = self.line_at(active).correct_index(self.cursor());
        let mut line = self.remove_line(active);
        if word {
            let to = match line.index_forward_word(at) {
                Some(index) => index,
                None => line.index_back(RawIndex::Valid(at)),
            };
            line.remove_range(at, to);
        } else {
            line.remove(at);
        }
        let ghost text = line@;
        self.insert_line(active, line);
        proof {
            let doc = old(self)@.document;
            let row = old(self)@.row();
            lemma_replaced(doc, row, text);
            assert(self@ == old(self)@.with_line(text));
            self.lemma_inv();
        }
    }

    /// Delete, for a character or for a word.
    fn delete(&mut self, word: bool)
        requires
            old(self).wf(),
            old(self)@.count > 0,
        ensures
            final(self).wf(),
            final(self)@ == old(self)@.delete(word),
            final(self).area() == old(self).area(),
    {
        let active = self.active();
        proof {
            self.lemma_inv();
        }
        let at = self.line_at(active).correct_index(self.cursor());
        if self.line_at(active).at_back(at) {
            let len = self.line_at(active).len();
            match self.next_line_len() {
                Some(after) => {
                    if len + after <= MAX_LINE_LEN {
                        self.join_below();
                    }
                },
                None => {},
            }
        } else {
            self.erase_forward(word);
        }
        self.set_cursor(RawIndex::Valid(at));
    }

    /// Does what a key does, with the modifiers held.
    fn press(&mut self, combo: KeyCombo)
        requires
            old(self).wf(),
            old(self)@.count > 0,
        ensures
            final(self).wf(),
            final(self)@ == old(self)@.pressed(combo),
            final(self).area() == old(self).area(),
    {
        match combo.key {
            Key::Up => self.key_up(),
            Key::Down => self.key_down(),
            Key::Left => self.key_left(combo.ctrl),
            Key::Right => self.key_right(combo.ctrl),
            Key::Home => self.key_home(combo.ctrl),
            Key::End => self.key_end(combo.ctrl),
            Key::Char(c) => self.type_char(c),
            Key::Tab => self.type_char('\t'),
            Key::Enter => {
                if combo.ctrl && combo.shift {
                    self.enter_above();
                } else if combo.ctrl {
                    self.enter_below();
                } else {
                    self.enter_split();
                }
            },
            Key::Backspace => self.backspace(combo.ctrl),
            Key::Delete => self.delete(combo.ctrl),
            Key::PageDown => {
                let half = self.len() / 2;
                self.scroll_down_by(half);
            },
            Key::PageUp => {
                let half = self.len() / 2;
                self.scroll_up_by(half);
            },
            Key::Insert => {},
            Key::Esc => {},
            Key::CapsLock => {},
        }
    }

    /// Takes one message. An event from the terminal moves the cursor, edits
    /// the text or scrolls the window, as `PortalView::step` says; any other
    /// message changes nothing. The viewport has nothing to tell in return.
    pub fn update(&mut self, message: &Message) -> (reply: Option<Message>)
        requires
            old(self).wf(),
        ensures
            final(self).wf(),
            final(self)@ == old(self)@.updated(*message),
            final(self).area() == old(self).area(),
            reply is None,
    {
        match message {
            Message::Input(input) => {
                if self.len() > 0 {
                    match input {
                        Input::KeyCombo(combo) => self.press(*combo),
                        Input::ScrollDown => {
                            self.scroll_down_by(SCROLL_DIST);
                        },
                        Input::ScrollUp => {
                            self.scroll_up_by(SCROLL_DIST);
                        },
                        Input::FocusGained => {},
                        Input::FocusLost => {},
                    }
                }
            },
            _ => {},
        }
        None
    }
}

} // verus!
