//! The viewport: a window of fixed height onto the lines of a file, with a
//! cursor on one of the lines in the window.
//!
//! The lines in the window are kept as lines. The lines above and below it
//! are kept in two reservoirs, from which the window takes a line when it
//! scrolls and into which it puts the line that scrolls out.

use crate::bounds::Bounds;
use crate::document::{
    count_digits, digits, file_lines, lemma_replaced, lines_fit, read_lines, read_text, texts,
};
use crate::line::{Index, Line, RawIndex};
use crate::reservoir::{joined, Reservoir};
use crate::text::{newline_free, MAX_LINE_LEN};
use std::collections::VecDeque;
use vstd::prelude::*;
use vstd::utf8::{decode_utf8, valid_utf8};

verus! {

/// Why a file cannot be opened in a viewport.
#[derive(Copy, Clone, Debug, PartialEq, Eq, Structural)]
pub enum OpenError {
    /// The file does not hold text: its bytes are not well-formed UTF-8.
    NotText,
    /// A line of the file is longer than `MAX_LINE_LEN`.
    LineTooLong,
}

/// How close to the first or last row of the window the cursor may come
/// before the window scrolls instead: the cursor moves on its own only while
/// more than this many rows lie between it and that row.
pub const SCROLL_GRACE: usize = 1;

/// The number of lines that one pulse of the scroll wheel scrolls.
pub const SCROLL_DIST: usize = 5;

/// The width that the gutter needs once the window has scrolled to `offset`,
/// where that is a power of ten with four to eight digits; nothing otherwise.
pub open spec fn gutter_for(offset: nat) -> nat {
    if offset == 1_000 {
        4
    } else if offset == 10_000 {
        5
    } else if offset == 100_000 {
        6
    } else if offset == 1_000_000 {
        7
    } else if offset == 10_000_000 {
        8
    } else {
        0
    }
}

/// The wider of two gutters.
pub open spec fn wider(a: nat, b: nat) -> nat {
    if a >= b {
        a
    } else {
        b
    }
}

/// The narrowest gutter.
pub const MIN_GUTTER: u16 = 3;

/// What a viewport stands for: the lines of the file, and the place of the
/// window and of the cursor in them.
pub struct PortalView {
    /// All lines of the file, from the first to the last.
    pub document: Seq<Seq<char>>,
    /// The number of lines above the window.
    pub offset: nat,
    /// The number of lines in the window.
    pub count: nat,
    /// The row of the window that the cursor is on.
    pub active: nat,
    /// The position of the cursor in its line.
    pub cursor: RawIndex,
    /// The number of columns kept for line numbers.
    pub gutter_width: nat,
    /// The number of rows that the window has room for.
    pub height: nat,
    /// The rectangle of the screen that the viewport is drawn in.
    pub area: Bounds,
}

impl PortalView {
    /// The viewport onto a file that holds `text`, as it is when the file was
    /// just opened to be drawn in `area`: the window has as many rows as the
    /// rectangle and shows the start of the file, the cursor is at the start
    /// of the first line, and the gutter is wide enough for the number of the
    /// last line, and no narrower than `MIN_GUTTER`.
    pub open spec fn opened(text: Seq<char>, area: Bounds) -> PortalView {
        let document = file_lines(text);
        let height = area.rows() as nat;
        PortalView {
            document,
            offset: 0,
            count: if document.len() < height {
                document.len()
            } else {
                height
            },
            active: 0,
            cursor: RawIndex::Valid(Index { display: 0, byte: 0 }),
            gutter_width: wider(MIN_GUTTER as nat, digits(document.len())),
            height,
            area,
        }
    }

    /// The place in the file of the first line below the window.
    pub open spec fn end(self) -> int {
        (self.offset + self.count) as int
    }

    /// The place in the file of the line that the cursor is on.
    pub open spec fn row(self) -> int {
        (self.offset + self.active) as int
    }

    /// The lines above the window.
    pub open spec fn above(self) -> Seq<Seq<char>> {
        self.document.take(self.offset as int)
    }

    /// The lines in the window.
    pub open spec fn visible(self) -> Seq<Seq<char>> {
        self.document.subrange(self.offset as int, self.end())
    }

    /// The lines below the window.
    pub open spec fn below(self) -> Seq<Seq<char>> {
        self.document.skip(self.end())
    }

    /// The line that the cursor is on.
    pub open spec fn line(self) -> Seq<char> {
        self.document[self.row()]
    }

    /// What holds of a viewport at every moment: the window has as many rows
    /// as the rectangle it is drawn in, it lies inside the file, and every
    /// line of the file is free of newlines and no longer than
    /// `MAX_LINE_LEN`.
    pub open spec fn inv(self) -> bool {
        &&& self.area.wf()
        &&& self.height == self.area.rows()
        &&& self.offset + self.count <= self.document.len()
        &&& forall|i: int|
            0 <= i < self.document.len() ==> newline_free(#[trigger] self.document[i])
                && self.document[i].len() <= MAX_LINE_LEN
    }

    /// What holds of a viewport between two key presses: besides `inv`, the
    /// window is no higher than its room, it is full unless the file ends
    /// in it, and the cursor is on one of its rows.
    pub open spec fn wf(self) -> bool {
        &&& self.inv()
        &&& self.count <= self.height
        &&& self.count < self.height ==> self.offset + self.count == self.document.len()
        &&& self.active < self.count || (self.count == 0 && self.active == 0)
    }

    /// The viewport with the cursor reduced to its column.
    pub open spec fn invalidated(self) -> PortalView {
        PortalView { cursor: RawIndex::Invalid { display: self.cursor.column() }, ..self }
    }

    /// The viewport after its window was repaired: the window has as many
    /// lines as it has room for, or all that are left of the file.
    pub open spec fn fix_lines(self) -> PortalView {
        let rest = (self.document.len() - self.offset) as nat;
        PortalView { count: if rest < self.height { rest } else { self.height }, ..self }
    }

    /// The viewport after its window moved down by one line, if a line is
    /// left below it.
    pub open spec fn scroll_down(self) -> PortalView {
        if self.offset + self.count < self.document.len() {
            PortalView {
                offset: self.offset + 1,
                gutter_width: wider(self.gutter_width, gutter_for(self.offset + 1)),
                ..self
            }
        } else {
            self
        }
    }

    /// The viewport after its window moved up by one line, if a line is left
    /// above it.
    pub open spec fn scroll_up(self) -> PortalView {
        if self.offset > 0 {
            PortalView {
                offset: (self.offset - 1) as nat,
                count: self.count + 1,
                ..self
            }.fix_lines()
        } else {
            self
        }
    }

    /// Whether the cursor can go down a line: a line is left below the
    /// window, or the cursor is not on the last row.
    pub open spec fn can_cursor_down(self) -> bool {
        self.offset + self.count < self.document.len() || self.active + 1 < self.count
    }

    /// Whether the cursor can go up a line: a line is left above the window,
    /// or the cursor is not on the first row.
    pub open spec fn can_cursor_up(self) -> bool {
        self.offset > 0 || self.active > 0
    }

    /// The viewport after the cursor went down a line. While more than
    /// `SCROLL_GRACE` rows lie between the cursor and the last row, the
    /// cursor goes down a row. Closer to the last row the window scrolls
    /// instead, and the cursor stays on its row. Once no line is left below
    /// the window, the cursor goes down a row again, until it is on the last.
    pub open spec fn cursor_down(self) -> PortalView {
        if self.active + SCROLL_GRACE + 1 < self.count {
            PortalView { active: self.active + 1, ..self }.invalidated()
        } else if self.offset + self.count < self.document.len() {
            self.scroll_down().invalidated()
        } else if self.active + 1 < self.count {
            PortalView { active: self.active + 1, ..self }.invalidated()
        } else {
            self
        }
    }

    /// The viewport after the cursor went up a line, in the way of
    /// `cursor_down`.
    pub open spec fn cursor_up(self) -> PortalView {
        if self.active > SCROLL_GRACE {
            PortalView { active: (self.active - 1) as nat, ..self }.invalidated()
        } else if self.offset > 0 {
            self.scroll_up().invalidated()
        } else if self.active > 0 {
            PortalView { active: (self.active - 1) as nat, ..self }.invalidated()
        } else {
            self
        }
    }

    /// The gutter after the window scrolled down from `from` lines above it
    /// to `to`, one line at a time.
    pub open spec fn gutter_grown(gutter: nat, from: nat, to: nat) -> nat
        decreases to - from,
    {
        if from >= to {
            gutter
        } else {
            Self::gutter_grown(wider(gutter, gutter_for(from + 1)), from + 1, to)
        }
    }

    /// The viewport after its window moved down by `n` lines, or by as many
    /// as are left below it.
    pub open spec fn scrolled_down(self, n: nat) -> PortalView {
        let left = (self.document.len() - self.end()) as nat;
        let to = self.offset + if n < left {
            n
        } else {
            left
        };
        PortalView {
            offset: to,
            gutter_width: Self::gutter_grown(self.gutter_width, self.offset, to),
            ..self
        }
    }

    /// The viewport after its window moved up by `n` lines, or by as many as
    /// are left above it.
    pub open spec fn scrolled_up(self, n: nat) -> PortalView {
        let to = if n < self.offset {
            (self.offset - n) as nat
        } else {
            0
        };
        PortalView { offset: to, ..self }.fix_lines()
    }

    /// The viewport after the cursor went up as far as it can: the window
    /// shows the start of the file and the cursor is on its first row.
    pub open spec fn jump_top(self) -> PortalView {
        if self.can_cursor_up() {
            PortalView { offset: 0, active: 0, ..self }.fix_lines().invalidated()
        } else {
            self
        }
    }

    /// The viewport after the cursor went down as far as it can: the window
    /// shows the end of the file and the cursor is on its last row.
    pub open spec fn jump_bottom(self) -> PortalView {
        if self.can_cursor_down() {
            let to = (self.document.len() - self.count) as nat;
            PortalView {
                offset: to,
                active: if self.count > 0 {
                    (self.count - 1) as nat
                } else {
                    0
                },
                gutter_width: Self::gutter_grown(self.gutter_width, self.offset, to),
                ..self
            }.invalidated()
        } else {
            self
        }
    }

    /// The viewport with the cursor at `cursor`.
    pub open spec fn with_cursor(self, cursor: RawIndex) -> PortalView {
        PortalView { cursor, ..self }
    }

    /// The viewport with `text` in place of the line that the cursor is on.
    pub open spec fn with_line(self, text: Seq<char>) -> PortalView {
        PortalView { document: self.document.update(self.row(), text), ..self }
    }

    /// The viewport with `text` as a new line on row `i` of the window, before
    /// the line that stood there.
    pub open spec fn insert_line(self, i: nat, text: Seq<char>) -> PortalView {
        PortalView {
            document: self.document.insert((self.offset + i) as int, text),
            count: self.count + 1,
            ..self
        }
    }

    /// The viewport without the line on row `i` of the window.
    pub open spec fn remove_line(self, i: nat) -> PortalView {
        PortalView {
            document: self.document.remove((self.offset + i) as int),
            count: (self.count - 1) as nat,
            ..self
        }
    }
}

/// The viewport onto one open file.
#[derive(Clone, Debug)]
pub struct Portal {
    lines: VecDeque<Line>,
    above: Reservoir,
    below: Reservoir,
    active: usize,
    index: RawIndex,
    offset: usize,
    line_num_width: u16,
    bounds: Bounds,
    recycle: Vec<Line>,
}

impl View for Portal {
    type V = PortalView;

    closed spec fn view(&self) -> PortalView {
        PortalView {
            document: self.above@ + texts(self.lines@) + self.below@.reverse(),
            offset: self.offset as nat,
            count: self.lines@.len(),
            active: self.active as nat,
            cursor: self.index,
            gutter_width: self.line_num_width as nat,
            height: self.bounds.rows() as nat,
            area: self.bounds,
        }
    }
}

impl Portal {
    /// What holds of the parts of a viewport at every moment.
    pub closed spec fn inv(&self) -> bool {
        &&& self.above.wf()
        &&& self.below.wf()
        &&& self.bounds.wf()
        &&& self.offset == self.above@.len()
        &&& forall|i: int|
            0 <= i < self.lines@.len() ==> (#[trigger] self.lines@[i]).wf()
    }

    /// What holds of a viewport between two key presses.
    pub open spec fn wf(&self) -> bool {
        self.inv() && self@.wf()
    }

    /// The rectangle of the screen that the viewport is drawn in.
    pub open spec fn area(&self) -> Bounds {
        self@.area
    }

    /// The parts of a viewport stand for lines that are free of newlines and
    /// of bounded length, and for a window that lies inside the file.
    proof fn lemma_view_inv(&self)
        requires
            self.inv(),
        ensures
            self@.inv(),
            self@.above() == self.above@,
            self@.visible() == texts(self.lines@),
            self@.below() == self.below@.reverse(),
            self@.height == self.area().rows(),
            self.area().wf(),
    {
        let doc = self@.document;
        crate::reservoir::lemma_segments(self.above.block());
        crate::reservoir::lemma_segments(self.below.block());
        assert(self@.above() =~= self.above@);
        assert(self@.visible() =~= texts(self.lines@));
        assert(self@.below() =~= self.below@.reverse());
        assert forall|i: int| 0 <= i < doc.len() implies newline_free(#[trigger] doc[i])
            && doc[i].len() <= MAX_LINE_LEN by {
            let a = self.above@.len() as int;
            let v = self.lines@.len() as int;
            if i < a {
                assert(doc[i] == self.above@[i]);
            } else if i < a + v {
                assert(doc[i] == self.lines@[i - a]@);
            } else {
                let b = self.below@.len() as int;
                assert(doc[i] == self.below@[b - 1 - (i - a - v)]);
            }
        }
    }

    /// A viewport whose parts are in order stands for lines that are free of
    /// newlines and of bounded length, and for a window inside the file.
    pub proof fn lemma_inv(&self)
        requires
            self.inv(),
        ensures
            self@.inv(),
            self@.height == self.area().rows(),
            self.area().wf(),
    {
        self.lemma_view_inv();
    }

    /// Puts the cursor at `cursor`.
    pub fn set_cursor(&mut self, cursor: RawIndex)
        requires
            old(self).inv(),
        ensures
            final(self).inv(),
            final(self)@ == old(self)@.with_cursor(cursor),
            final(self).area() == old(self).area(),
            old(self).wf() ==> final(self).wf(),
    {
        self.index = cursor;
    }

    /// The line on row `i` of the window.
    pub fn line_at(&self, i: usize) -> (line: &Line)
        requires
            self.inv(),
            i < self@.count,
        ensures
            line@ == self@.document[self@.offset + i],
            line.wf(),
    {
        proof {
            self.lemma_view_inv();
        }
        &self.lines[i]
    }

    /// Opens a viewport onto a file that holds `text`, to be drawn in
    /// `bounds`. Gives nothing if a line of the file is longer than
    /// `MAX_LINE_LEN`.
    pub fn from_text(text: &str, bounds: Bounds) -> (made: Option<Portal>)
        requires
            bounds.wf(),
        ensures
            made is Some <==> lines_fit(text@),
            made is Some ==> {
                &&& made->0.wf()
                &&& made->0@ == PortalView::opened(text@, bounds)
                &&& made->0.area() == bounds
            },
    {
        let mut rest = match read_lines(text) {
            Some(lines) => lines,
            None => {
                return None;
            },
        };
        let ghost document = file_lines(text@);
        let total = rest.len();
        let digits = count_digits(total);
        let width = if digits > MIN_GUTTER {
            digits
        } else {
            MIN_GUTTER
        };
        let height = bounds.height() as usize;
        let mut below = Reservoir::new();
        proof {
            assert(texts(rest@) + below@.reverse() =~= document);
        }
        while rest.len() > height
            invariant
                below.wf(),
                texts(rest@) + below@.reverse() == document,
                document.len() == total,
                total <= height ==> rest@.len() == total,
                total > height ==> rest@.len() >= height,
                forall|i: int|
                    0 <= i < rest@.len() ==> (#[trigger] rest@[i]).wf(),
            decreases rest@.len(),
        {
            let ghost before = rest@;
            let ghost under = below@;
            match rest.pop() {
                Some(line) => {
                    below.push(&line);
                    proof {
                        assert(texts(rest@) =~= texts(before).drop_last());
                        assert(line@ == texts(before).last());
                        assert(under.push(line@).reverse() =~= seq![line@] + under.reverse());
                        assert(texts(rest@) + below@.reverse() =~= texts(before)
                            + under.reverse());
                    }
                },
                None => {},
            }
        }
        let ghost shown = texts(rest@);
        let mut lines: VecDeque<Line> = VecDeque::new();
        proof {
            assert(texts(rest@) + texts(lines@) =~= shown);
        }
        while rest.len() > 0
            invariant
                texts(rest@) + texts(lines@) == shown,
                forall|i: int|
                    0 <= i < rest@.len() ==> (#[trigger] rest@[i]).wf(),
                forall|i: int|
                    0 <= i < lines@.len() ==> (#[trigger] lines@[i]).wf(),
            decreases rest@.len(),
        {
            let ghost before = rest@;
            let ghost window = lines@;
            match rest.pop() {
                Some(line) => {
                    lines.push_front(line);
                    proof {
                        assert(texts(rest@) =~= texts(before).drop_last());
                        assert(texts(lines@) =~= seq![line@] + texts(window));
                        assert(texts(rest@) + texts(lines@) =~= texts(before) + texts(window));
                        assert forall|i: int| 0 <= i < lines@.len() implies (#[trigger] lines@[i]).wf(
                        ) by {
                            if i > 0 {
                                assert(lines@[i] == window[i - 1]);
                            }
                        }
                    }
                },
                None => {},
            }
        }
        let made = Portal {
            lines,
            above: Reservoir::new(),
            below,
            active: 0,
            index: RawIndex::index_front(),
            offset: 0,
            line_num_width: width,
            bounds,
            recycle: Vec::new(),
        };
        proof {
            assert(texts(rest@) =~= Seq::<Seq<char>>::empty());
            assert(texts(made.lines@) =~= shown);
            assert(made.above@ + texts(made.lines@) + made.below@.reverse() =~= document);
            made.lemma_view_inv();
        }
        Some(made)
    }

    /// Opens a viewport onto a file that holds `bytes`, to be drawn in
    /// `bounds`. The bytes are read as UTF-8.
    pub fn from_bytes(bytes: &[u8], bounds: Bounds) -> (made: Result<Portal, OpenError>)
        requires
            bounds.wf(),
        ensures
            made == Err::<Portal, OpenError>(OpenError::NotText) <==> !valid_utf8(bytes@),
            made == Err::<Portal, OpenError>(OpenError::LineTooLong) <==> valid_utf8(bytes@)
                && !lines_fit(decode_utf8(bytes@)),
            made is Ok ==> {
                &&& made->Ok_0.wf()
                &&& made->Ok_0@ == PortalView::opened(decode_utf8(bytes@), bounds)
                &&& made->Ok_0.area() == bounds
            },
    {
        match read_text(bytes) {
            Some(text) => match Portal::from_text(text, bounds) {
                Some(portal) => Ok(portal),
                None => Err(OpenError::LineTooLong),
            },
            None => Err(OpenError::NotText),
        }
    }

    /// The texts of the lines in the window, from the first row to the last.
    pub fn visible(&self) -> (shown: Vec<String>)
        requires
            self.inv(),
        ensures
            shown@.len() == self@.count,
            forall|i: int| 0 <= i < shown@.len() ==> (#[trigger] shown@[i])@ == self@.visible()[i],
    {
        proof {
            self.lemma_view_inv();
        }
        let mut shown: Vec<String> = Vec::new();
        let mut i: usize = 0;
        while i < self.lines.len()
            invariant
                0 <= i <= self.lines@.len(),
                shown@.len() == i,
                forall|j: int| 0 <= j < i ==> (#[trigger] shown@[j])@ == self.lines@[j]@,
            decreases self.lines@.len() - i,
        {
            shown.push(self.lines[i].text());
            i = i + 1;
        }
        shown
    }

    /// The lines above the window as one text: each line with a newline
    /// before it, from the first line of the file on.
    pub fn above(&self) -> (text: String)
        requires
            self.inv(),
        ensures
            text@ == joined(self@.above()),
    {
        proof {
            self.lemma_view_inv();
        }
        self.above.text()
    }

    /// The lines below the window as one text: each line with a newline
    /// before it, from the last line of the file back to the line that
    /// follows the window.
    pub fn below(&self) -> (text: String)
        requires
            self.inv(),
        ensures
            text@ == joined(self@.below().reverse()),
    {
        proof {
            self.lemma_view_inv();
            assert(self.below@.reverse().reverse() =~= self.below@);
        }
        self.below.text()
    }

    /// The rectangle of the screen that the viewport is drawn in.
    pub fn bounds(&self) -> (bounds: Bounds)
        ensures
            bounds == self.area(),
    {
        self.bounds
    }

    /// The row of the window that the cursor is on.
    pub fn active(&self) -> (active: usize)
        ensures
            active == self@.active,
    {
        self.active
    }

    /// The number of lines above the window.
    pub fn offset(&self) -> (offset: usize)
        ensures
            offset == self@.offset,
    {
        self.offset
    }

    /// The position of the cursor in its line.
    pub fn cursor(&self) -> (cursor: RawIndex)
        ensures
            cursor == self@.cursor,
    {
        self.index
    }

    /// The number of columns kept for line numbers.
    pub fn gutter_width(&self) -> (width: u16)
        ensures
            width == self@.gutter_width,
    {
        self.line_num_width
    }

    /// The number of lines in the window.
    pub fn len(&self) -> (count: usize)
        ensures
            count == self@.count,
    {
        self.lines.len()
    }

    /// Whether the cursor is on the first row of the window.
    pub fn at_top(&self) -> (top: bool)
        ensures
            top == (self@.active == 0),
    {
        self.active == 0
    }

    /// Whether the cursor is on the last row of the window.
    pub fn at_bottom(&self) -> (bottom: bool)
        ensures
            bottom == (self@.active + 1 == self@.count),
    {
        self.lines.len() > 0 && self.active == self.lines.len() - 1
    }

    /// The line that the cursor is on.
    pub fn current_line(&self) -> (line: &Line)
        requires
            self.inv(),
            self@.active < self@.count,
        ensures
            line@ == self@.line(),
            line.wf(),
    {
        proof {
            self.lemma_view_inv();
        }
        &self.lines[self.active]
    }

    /// The length of the line before the line of the cursor, if there is one,
    /// in the window or above it.
    pub fn prev_line_len(&self) -> (len: Option<usize>)
        requires
            self.wf(),
            self@.count > 0,
        ensures
            len is Some <==> self@.row() > 0,
            len is Some ==> len->0 == self@.document[self@.row() - 1].len(),
    {
        proof {
            self.lemma_view_inv();
        }
        if self.active > 0 {
            Some(self.lines[self.active - 1].len())
        } else if !self.above.is_empty() {
            Some(self.above.last_len())
        } else {
            None
        }
    }

    /// The length of the line after the line of the cursor, if there is one,
    /// in the window or below it.
    pub fn next_line_len(&self) -> (len: Option<usize>)
        requires
            self.wf(),
            self@.count > 0,
        ensures
            len is Some <==> self@.row() + 1 < self@.document.len(),
            len is Some ==> len->0 == self@.document[self@.row() + 1].len(),
    {
        proof {
            self.lemma_view_inv();
        }
        if self.active + 1 < self.lines.len() {
            Some(self.lines[self.active + 1].len())
        } else if !self.below.is_empty() {
            Some(self.below.last_len())
        } else {
            None
        }
    }

    /// Puts `line` into the reservoir below the window, as the line that
    /// follows the window, and keeps the emptied line for later use.
    pub(crate) fn insert_below(&mut self, line: Line)
        requires
            old(self).inv(),
            line.wf(),
        ensures
            final(self).inv(),
            final(self)@ == (PortalView {
                document: old(self)@.document.insert(old(self)@.end(), line@),
                ..old(self)@
            }),
    {
        self.below.push(&line);
        self.recycle.push(line);
        proof {
            let a = old(self).above@;
            let v = texts(old(self).lines@);
            let b = old(self).below@;
            assert(b.push(line@).reverse() =~= seq![line@] + b.reverse());
            assert(self@.document =~= old(self)@.document.insert(
                (a.len() + v.len()) as int,
                line@,
            ));
        }
    }

    /// Puts `line` into the reservoir above the window, as the line that
    /// precedes the window, and keeps the emptied line for later use.
    pub(crate) fn insert_above(&mut self, line: Line)
        requires
            old(self).inv(),
            line.wf(),
        ensures
            final(self).inv(),
            final(self)@ == (PortalView {
                document: old(self)@.document.insert(old(self)@.offset as int, line@),
                offset: old(self)@.offset + 1,
                ..old(self)@
            }),
    {
        self.above.push(&line);
        self.recycle.push(line);
        self.offset = self.offset + 1;
        proof {
            let a = old(self).above@;
            let v = texts(old(self).lines@);
            let b = old(self).below@;
            assert(self@.document =~= old(self)@.document.insert(a.len() as int, line@));
        }
    }

    /// Takes the line that follows the window out of the reservoir below it,
    /// if there is one. The line is put into a line that was kept for later
    /// use, or into a new one.
    pub(crate) fn take_from_below(&mut self) -> (taken: Option<Line>)
        requires
            old(self).inv(),
        ensures
            final(self).inv(),
            taken is Some <==> old(self)@.offset + old(self)@.count < old(self)@.document.len(),
            taken is None ==> final(self)@ == old(self)@,
            taken is Some ==> {
                &&& taken->0@ == old(self)@.document[old(self)@.end()]
                &&& taken->0.wf()
                &&& final(self)@ == (PortalView {
                    document: old(self)@.document.remove(old(self)@.end()),
                    ..old(self)@
                })
            },
    {
        proof {
            self.lemma_view_inv();
        }
        if self.below.is_empty() {
            None
        } else {
            let mut line = match self.recycle.pop() {
                Some(line) => line,
                None => Line::new(),
            };
            self.below.pop(&mut line);
            proof {
                let a = old(self).above@;
                let v = texts(old(self).lines@);
                let b = old(self).below@;
                assert(b.reverse() =~= seq![b.last()] + b.drop_last().reverse());
                assert(self@.document =~= old(self)@.document.remove((a.len() + v.len()) as int));
            }
            Some(line)
        }
    }

    /// Takes the line that precedes the window out of the reservoir above it,
    /// if there is one. The line is put into a line that was kept for later
    /// use, or into a new one.
    pub(crate) fn take_from_above(&mut self) -> (taken: Option<Line>)
        requires
            old(self).inv(),
        ensures
            final(self).inv(),
            taken is Some <==> old(self)@.offset > 0,
            taken is None ==> final(self)@ == old(self)@,
            taken is Some ==> {
                &&& taken->0@ == old(self)@.document[old(self)@.offset - 1]
                &&& taken->0.wf()
                &&& final(self)@ == (PortalView {
                    document: old(self)@.document.remove(old(self)@.offset - 1),
                    offset: (old(self)@.offset - 1) as nat,
                    ..old(self)@
                })
            },
    {
        proof {
            self.lemma_view_inv();
        }
        if self.above.is_empty() {
            None
        } else {
            let mut new_line = match self.recycle.pop() {
                Some(line) => line,
                None => Line::new(),
            };
            self.above.pop(&mut new_line);
            self.offset = self.offset - 1;
            proof {
                let a = old(self).above@;
                assert(self@.document =~= old(self)@.document.remove(a.len() - 1));
            }
            Some(new_line)
        }
    }

    /// Takes the line that follows the window into the window, as its last
    /// line, if there is such a line. Says whether there was.
    fn pull_line(&mut self) -> (pulled: bool)
        requires
            old(self).inv(),
        ensures
            final(self).inv(),
            pulled == (old(self)@.end() < old(self)@.document.len()),
            pulled ==> final(self)@ == (PortalView { count: old(self)@.count + 1, ..old(self)@ }),
            !pulled ==> final(self)@ == old(self)@,
    {
        proof {
            self.lemma_view_inv();
        }
        match self.take_from_below() {
            Some(line_from_below) => {
                let count = self.lines.len();
                self.insert_line(count, line_from_below);
                proof {
                    let doc = old(self)@.document;
                    let end = old(self)@.end();
                    lemma_replaced(doc, end, doc[end]);
                }
                true
            },
            None => false,
        }
    }

    /// Puts the last line of the window into the reservoir below it.
    fn shed_last(&mut self)
        requires
            old(self).inv(),
            old(self)@.count > 0,
        ensures
            final(self).inv(),
            final(self)@ == (PortalView { count: (old(self)@.count - 1) as nat, ..old(self)@ }),
    {
        proof {
            self.lemma_view_inv();
        }
        let last = self.lines.len() - 1;
        let line = self.remove_line(last);
        self.insert_below(line);
        proof {
            let doc = old(self)@.document;
            let at = old(self)@.end() - 1;
            lemma_replaced(doc, at, doc[at]);
        }
    }

    /// Puts the first line of the window into the reservoir above it.
    fn shed_first(&mut self)
        requires
            old(self).inv(),
            old(self)@.count > 0,
        ensures
            final(self).inv(),
            final(self)@ == (PortalView {
                offset: old(self)@.offset + 1,
                count: (old(self)@.count - 1) as nat,
                ..old(self)@
            }),
    {
        proof {
            self.lemma_view_inv();
        }
        let line_to_above = self.remove_line(0);
        self.insert_above(line_to_above);
        proof {
            let doc = old(self)@.document;
            let top = old(self)@.offset as int;
            lemma_replaced(doc, top, doc[top]);
        }
    }

    /// Repairs the window: lines that it has no room for go to the
    /// reservoir below it, and where it has room left, lines come up from
    /// there, as far as there are any.
    pub fn fix_lines(&mut self)
        requires
            old(self).inv(),
        ensures
            final(self).inv(),
            final(self)@ == old(self)@.fix_lines(),
            final(self).area() == old(self).area(),
            old(self).wf() ==> final(self).wf(),
    {
        let height: usize = self.bounds.height() as usize;
        proof {
            self.lemma_view_inv();
        }
        while self.lines.len() > height
            invariant
                self.inv(),
                height == self@.height,
                self@ == (PortalView { count: self@.count, ..old(self)@ }),
                old(self)@.count > height ==> self@.count >= height,
                old(self)@.count <= height ==> self@.count == old(self)@.count,
            decreases self@.count,
        {
            self.shed_last();
        }
        while self.lines.len() < height
            invariant
                self.inv(),
                height == self@.height,
                self@ == (PortalView { count: self@.count, ..old(self)@ }),
                old(self)@.count >= height ==> self@.count == old(self)@.fix_lines().count,
                old(self)@.count < height ==> old(self)@.count <= self@.count <= height,
            ensures
                self@.count == old(self)@.fix_lines().count,
            decreases height - self@.count,
        {
            proof {
                self.lemma_view_inv();
            }
            if !self.pull_line() {
                break ;
            }
        }
    }

    /// Moves the window down by one line, if a line is left below it. Says
    /// whether it moved.
    pub fn scroll_down(&mut self) -> (moved: bool)
        requires
            old(self).inv(),
        ensures
            final(self).inv(),
            moved == (old(self)@.offset + old(self)@.count < old(self)@.document.len()),
            final(self)@ == old(self)@.scroll_down(),
            final(self).area() == old(self).area(),
            old(self).wf() ==> final(self).wf(),
    {
        if !self.pull_line() {
            return false;
        }
        self.shed_first();
        let new_line_num_width: u16 = if self.offset == 1_000 {
            4
        } else if self.offset == 10_000 {
            5
        } else if self.offset == 100_000 {
            6
        } else if self.offset == 1_000_000 {
            7
        } else if self.offset == 10_000_000 {
            8
        } else {
            0
        };
        if new_line_num_width > self.line_num_width {
            self.line_num_width = new_line_num_width;
        }
        proof {
            self.lemma_view_inv();
        }
        true
    }

    /// Moves the window up by one line, if a line is left above it, and
    /// repairs the window. Says whether it moved.
    pub fn scroll_up(&mut self) -> (moved: bool)
        requires
            old(self).inv(),
        ensures
            final(self).inv(),
            moved == (old(self)@.offset > 0),
            final(self)@ == old(self)@.scroll_up(),
            final(self).area() == old(self).area(),
            old(self).wf() ==> final(self).wf(),
    {
        proof {
            self.lemma_view_inv();
        }
        let ghost start = self@;
        let line_from_above = match self.take_from_above() {
            Some(line) => line,
            None => {
                return false;
            },
        };
        self.insert_line(0, line_from_above);
        proof {
            let doc = start.document;
            let at = start.offset - 1;
            lemma_replaced(doc, at, doc[at]);
        }
        self.fix_lines();
        true
    }

    /// Moves the cursor down a line, by moving the cursor or by scrolling
    /// the window. Says whether the cursor is on another line now.
    pub fn cursor_down(&mut self) -> (moved: bool)
        requires
            old(self).inv(),
        ensures
            final(self).inv(),
            moved == old(self)@.can_cursor_down(),
            final(self)@ == old(self)@.cursor_down(),
            final(self).area() == old(self).area(),
            old(self).wf() ==> final(self).wf(),
    {
        let count = self.lines.len();
        if count > SCROLL_GRACE + 1 && self.active < count - SCROLL_GRACE - 1 {
            self.active = self.active + 1;
            self.index.invalidate();
            true
        } else if self.scroll_down() {
            self.index.invalidate();
            true
        } else if count > 1 && self.active < count - 1 {
            self.active = self.active + 1;
            self.index.invalidate();
            true
        } else {
            false
        }
    }

    /// Moves the cursor up a line, by moving the cursor or by scrolling the
    /// window. Says whether the cursor is on another line now.
    pub fn cursor_up(&mut self) -> (moved: bool)
        requires
            old(self).inv(),
        ensures
            final(self).inv(),
            moved == old(self)@.can_cursor_up(),
            final(self)@ == old(self)@.cursor_up(),
            final(self).area() == old(self).area(),
            old(self).wf() ==> final(self).wf(),
    {
        if self.active > SCROLL_GRACE {
            self.active = self.active - 1;
            self.index.invalidate();
            true
        } else if self.scroll_up() {
            self.index.invalidate();
            true
        } else if self.active > 0 {
            self.active = self.active - 1;
            self.index.invalidate();
            true
        } else {
            false
        }
    }

    /// Takes the line on row `i` out of the window.
    pub(crate) fn remove_line(&mut self, i: usize) -> (line: Line)
        requires
            old(self).inv(),
            i < old(self)@.count,
        ensures
            final(self).inv(),
            final(self)@ == old(self)@.remove_line(i as nat),
            line@ == old(self)@.document[old(self)@.offset + i],
            line.wf(),
    {
        proof {
            self.lemma_view_inv();
        }
        let removed = self.lines.remove(i);
        proof {
            let a = old(self).above@;
            let v = texts(old(self).lines@);
            let b = old(self).below@;
            assert(texts(old(self).lines@.remove(i as int)) =~= v.remove(i as int));
            assert(a + v.remove(i as int) + b.reverse() =~= (a + v + b.reverse()).remove(
                a.len() + i,
            ));
        }
        match removed {
            Some(line) => line,
            None => Line::new(),
        }
    }

    /// Puts `line` into the window on row `i`, before the line that stood
    /// there.
    pub(crate) fn insert_line(&mut self, i: usize, line: Line)
        requires
            old(self).inv(),
            i <= old(self)@.count,
            line.wf(),
        ensures
            final(self).inv(),
            final(self)@ == old(self)@.insert_line(i as nat, line@),
    {
        proof {
            self.lemma_view_inv();
            let a = old(self).above@;
            let v = texts(old(self).lines@);
            let b = old(self).below@;
            assert(texts(old(self).lines@.insert(i as int, line)) =~= v.insert(i as int, line@));
            assert(a + v.insert(i as int, line@) + b.reverse() =~= (a + v + b.reverse()).insert(
                a.len() + i,
                line@,
            ));
        }
        self.lines.insert(i, line);
    }

    /// Moves the window down by `n` lines, or by as many as are left below
    /// it.
    pub fn scroll_down_by(&mut self, n: usize)
        requires
            old(self).inv(),
        ensures
            final(self).inv(),
            final(self)@ == old(self)@.scrolled_down(n as nat),
            final(self).area() == old(self).area(),
            old(self).wf() ==> final(self).wf(),
    {
        proof {
            self.lemma_view_inv();
        }
        let ghost start = self@;
        let ghost left = (start.document.len() - start.end()) as nat;
        let ghost to = start.scrolled_down(n as nat).offset;
        let mut i: usize = 0;
        while i < n
            invariant
                self.inv(),
                start.inv(),
                0 <= i <= n,
                left == start.document.len() - start.end(),
                to == start.scrolled_down(n as nat).offset,
                self@ == (PortalView {
                    offset: self@.offset,
                    gutter_width: self@.gutter_width,
                    ..start
                }),
                self@.offset == start.offset + (if i < left {
                    i as nat
                } else {
                    left
                }),
                PortalView::gutter_grown(self@.gutter_width, self@.offset, to)
                    == PortalView::gutter_grown(start.gutter_width, start.offset, to),
            decreases n - i,
        {
            self.scroll_down();
            i = i + 1;
        }
    }

    /// Moves the window up by `n` lines, or by as many as are left above it.
    pub fn scroll_up_by(&mut self, n: usize)
        requires
            old(self).wf(),
        ensures
            final(self).wf(),
            final(self)@ == old(self)@.scrolled_up(n as nat),
            final(self).area() == old(self).area(),
    {
        let ghost start = self@;
        let mut i: usize = 0;
        while i < n
            invariant
                self.wf(),
                start.wf(),
                0 <= i <= n,
                self@ == (PortalView {
                    offset: if i < start.offset {
                        (start.offset - i) as nat
                    } else {
                        0
                    },
                    ..start
                }).fix_lines(),
            decreases n - i,
        {
            self.scroll_up();
            i = i + 1;
        }
    }

    /// Moves the cursor up until it is on the first line of the file.
    pub fn jump_top(&mut self)
        requires
            old(self).wf(),
        ensures
            final(self).wf(),
            final(self)@ == old(self)@.jump_top(),
            final(self).area() == old(self).area(),
    {
        let ghost start = self@;
        let ghost mut moved = false;
        loop
            invariant
                self.wf(),
                start.wf(),
                !moved ==> self@ == start,
                moved ==> start.can_cursor_up(),
                moved ==> self@ == (PortalView {
                    offset: self@.offset,
                    active: self@.active,
                    count: self@.count,
                    ..start
                }).invalidated(),
            ensures
                !self@.can_cursor_up(),
            decreases self@.offset + self@.active,
        {
            if !self.cursor_up() {
                break ;
            }
            proof {
                moved = true;
                self.lemma_view_inv();
            }
        }
    }

    /// Moves the cursor down until it is on the last line of the file.
    pub fn jump_bottom(&mut self)
        requires
            old(self).wf(),
        ensures
            final(self).wf(),
            final(self)@ == old(self)@.jump_bottom(),
            final(self).area() == old(self).area(),
    {
        let ghost start = self@;
        let ghost to = (start.document.len() - start.count) as nat;
        let ghost mut moved = false;
        loop
            invariant
                self.wf(),
                start.wf(),
                to == start.document.len() - start.count,
                !moved ==> self@ == start,
                moved ==> start.can_cursor_down(),
                moved ==> self@ == (PortalView {
                    offset: self@.offset,
                    active: self@.active,
                    gutter_width: self@.gutter_width,
                    ..start
                }).invalidated(),
                start.offset <= self@.offset <= to,
                PortalView::gutter_grown(self@.gutter_width, self@.offset, to)
                    == PortalView::gutter_grown(start.gutter_width, start.offset, to),
            ensures
                !self@.can_cursor_down(),
            decreases (to - self@.offset) + (self@.count - self@.active),
        {
            if !self.cursor_down() {
                break ;
            }
            proof {
                moved = true;
                self.lemma_view_inv();
            }
        }
    }
}

} // verus!
