//! What the viewport shows: the rows of the window as text, and the place of
//! the cursor on the screen.
//!
//! Nothing here writes to a terminal. A picture is made of plain values, and
//! whoever owns the terminal sends them there.

use crate::bounds::Bounds;
use crate::frame::StatusLine;
use crate::line::{corrected, cursor_column, rendered};
use crate::portal::Portal;
use crate::text::string_push;
use vstd::prelude::*;

verus! {

/// The character for the digit `d`.
pub open spec fn digit_char(d: nat) -> char {
    if d == 0 {
        '0'
    } else if d == 1 {
        '1'
    } else if d == 2 {
        '2'
    } else if d == 3 {
        '3'
    } else if d == 4 {
        '4'
    } else if d == 5 {
        '5'
    } else if d == 6 {
        '6'
    } else if d == 7 {
        '7'
    } else if d == 8 {
        '8'
    } else {
        '9'
    }
}

/// The number `n`, written in base ten.
pub open spec fn decimal(n: nat) -> Seq<char>
    decreases n,
{
    if n < 10 {
        seq![digit_char(n)]
    } else {
        decimal(n / 10).push(digit_char(n % 10))
    }
}

/// The text of the gutter for line number `n`: the number, with blanks before
/// it where it has fewer than `width` digits, and one blank after it.
pub open spec fn gutter_text(n: nat, width: nat) -> Seq<char> {
    let number = decimal(n);
    let pad = if number.len() < width {
        (width - number.len()) as nat
    } else {
        0
    };
    Seq::new(pad, |i: int| ' ') + number + seq![' ']
}

/// One row of the window.
#[derive(Debug)]
pub struct Row {
    /// The gutter: the number of the line, and a blank.
    pub number: String,
    /// The text of the line, as wide as the window has room for.
    pub text: String,
    /// Whether the cursor is on this row.
    pub active: bool,
}

/// What the viewport shows.
#[derive(Debug)]
pub struct Picture {
    /// The rows of the window, from the first to the last.
    pub rows: Vec<Row>,
    /// The column and the row of the screen at which the cursor is drawn, if
    /// it is drawn.
    pub cursor: Option<(u16, u16)>,
    /// The part of the screen below the last row that is to be cleared, if
    /// the window has fewer lines than it has room for.
    pub blank: Option<Bounds>,
}

/// The character for the digit `d`.
fn digit_of(d: u8) -> (c: char)
    requires
        d < 10,
    ensures
        c == digit_char(d as nat),
{
    if d == 0 {
        '0'
    } else if d == 1 {
        '1'
    } else if d == 2 {
        '2'
    } else if d == 3 {
        '3'
    } else if d == 4 {
        '4'
    } else if d == 5 {
        '5'
    } else if d == 6 {
        '6'
    } else if d == 7 {
        '7'
    } else if d == 8 {
        '8'
    } else {
        '9'
    }
}

/// The digits of `n` in base ten, the first digit first.
fn decimal_of(n: u128) -> (digits: Vec<char>)
    ensures
        digits@ == decimal(n as nat),
{
    let mut reversed: Vec<char> = Vec::new();
    let mut rest: u128 = n;
    while rest >= 10
        invariant
            decimal(n as nat) == decimal(rest as nat) + reversed@.reverse(),
        decreases rest,
    {
        let ghost before = reversed@;
        let d = (rest % 10) as u8;
        reversed.push(digit_of(d));
        proof {
            assert(reversed@.reverse() =~= seq![digit_char(d as nat)] + before.reverse());
            assert(decimal(rest as nat) == decimal((rest / 10) as nat).push(
                digit_char(d as nat),
            ));
            assert(decimal((rest / 10) as nat).push(digit_char(d as nat)) + before.reverse()
                =~= decimal((rest / 10) as nat) + reversed@.reverse());
        }
        rest = rest / 10;
    }
    let mut digits: Vec<char> = Vec::new();
    digits.push(digit_of(rest as u8));
    let mut i: usize = reversed.len();
    while i > 0
        invariant
            0 <= i <= reversed@.len(),
            digits@ == decimal(rest as nat) + reversed@.reverse().take(reversed@.len() - i),
        decreases i,
    {
        i = i - 1;
        digits.push(reversed[i]);
        proof {
            let r = reversed@.reverse();
            let n = reversed@.len() as int;
            assert(r.take(n - i) =~= r.take(n - i - 1).push(reversed@[i as int]));
        }
    }
    proof {
        assert(reversed@.reverse().take(reversed@.len() as int) =~= reversed@.reverse());
    }
    digits
}

/// The text of the gutter for line number `n`.
pub fn gutter(n: u128, width: u16) -> (text: String)
    ensures
        text@ == gutter_text(n as nat, width as nat),
{
    let digits = decimal_of(n);
    let mut text = String::new();
    let len = digits.len();
    let pad: usize = if len < width as usize {
        width as usize - len
    } else {
        0
    };
    let mut i: usize = 0;
    while i < pad
        invariant
            0 <= i <= pad,
            text@ == Seq::new(i as nat, |j: int| ' '),
        decreases pad - i,
    {
        string_push(&mut text, ' ');
        i = i + 1;
        assert(text@ =~= Seq::new(i as nat, |j: int| ' '));
    }
    let ghost blanks = text@;
    let mut k: usize = 0;
    while k < len
        invariant
            len == digits@.len(),
            0 <= k <= len,
            text@ == blanks + digits@.take(k as int),
        decreases len - k,
    {
        string_push(&mut text, digits[k]);
        proof {
            assert(digits@.take(k + 1) =~= digits@.take(k as int).push(digits@[k as int]));
            assert(text@ =~= blanks + digits@.take(k + 1));
        }
        k = k + 1;
    }
    string_push(&mut text, ' ');
    proof {
        assert(digits@.take(len as int) =~= digits@);
        assert(text@ =~= blanks + digits@ + seq![' ']);
    }
    text
}

impl Portal {
    /// The column of the screen at which the text of the lines starts, right
    /// of the gutter.
    pub open spec fn text_start(&self) -> int {
        self.area().x0 + self@.gutter_width + 1
    }

    /// The number of cells in which the text of a line is drawn: the columns
    /// right of the gutter, but for the last.
    pub open spec fn text_width(&self) -> int {
        self.area().x1 - self.text_start() - 1
    }

    /// Whether the viewport has room for its gutter and at least the one
    /// column that stays free right of the text.
    pub open spec fn has_room(&self) -> bool {
        self.text_start() < self.area().x1
    }

    /// Whether the viewport has room for its gutter and at least the one
    /// column that stays free right of the text.
    pub fn fits_area(&self) -> (fits: bool)
        requires
            self.wf(),
        ensures
            fits == self.has_room(),
    {
        let bounds = self.bounds();
        let gutter = self.gutter_width();
        bounds.x1 > gutter && bounds.x1 - gutter > 1 && bounds.x0 < bounds.x1 - gutter - 1
    }

    /// What the viewport shows. Every row of the window has the number of its
    /// line in the file, counted from zero, and the text of the line, cut
    /// off or filled up with blanks to the width of the window. The cursor
    /// is drawn only if `focused` is set: on the row that it is on, at the
    /// column of the index that it stands for on that line.
    pub fn render(&self, focused: bool) -> (picture: Picture)
        requires
            self.wf(),
            self.has_room(),
        ensures
            picture.rows@.len() == self@.count,
            forall|i: int|
                0 <= i < self@.count ==> {
                    &&& (#[trigger] picture.rows@[i]).number@ == gutter_text(
                        self@.offset + i as nat,
                        self@.gutter_width,
                    )
                    &&& picture.rows@[i].text@ == rendered(
                        self@.visible()[i],
                        self.text_width() as nat,
                    )
                    &&& picture.rows@[i].active == (i == self@.active)
                },
            picture.cursor == (if focused && self@.count > 0 {
                Some(
                    (
                        cursor_column(
                            self.text_start() as u16,
                            self.text_width() as nat,
                            corrected(self@.line(), self@.cursor),
                        ) as u16,
                        (self.area().y0 + self@.active) as u16,
                    ),
                )
            } else {
                None
            }),
            picture.blank == (if self@.count < self@.height {
                Some(Bounds { y0: (self.area().y0 + self@.count) as u16, ..self.area() })
            } else {
                None
            }),
    {
        proof {
            self.lemma_inv();
        }
        let bounds = self.bounds();
        let width = self.gutter_width();
        let start: u16 = bounds.x0 + width + 1;
        let count = self.len();
        let active = self.active();
        let offset = self.offset();
        let mut rows: Vec<Row> = Vec::new();
        let mut cursor: Option<(u16, u16)> = None;
        let mut i: usize = 0;
        while i < count
            invariant
                self.wf(),
                self.has_room(),
                bounds == self.area(),
                width == self@.gutter_width,
                start == self.text_start(),
                count == self@.count,
                count <= self@.height,
                self@.height == bounds.rows(),
                bounds.wf(),
                active == self@.active,
                offset == self@.offset,
                0 <= i <= count,
                rows@.len() == i,
                forall|j: int|
                    0 <= j < i ==> {
                        &&& (#[trigger] rows@[j]).number@ == gutter_text(
                            self@.offset + j as nat,
                            self@.gutter_width,
                        )
                        &&& rows@[j].text@ == rendered(
                            self@.visible()[j],
                            self.text_width() as nat,
                        )
                        &&& rows@[j].active == (j == self@.active)
                    },
                cursor == (if focused && active < i {
                    Some(
                        (
                            cursor_column(
                                start,
                                self.text_width() as nat,
                                corrected(self@.line(), self@.cursor),
                            ) as u16,
                            (bounds.y0 + active) as u16,
                        ),
                    )
                } else {
                    None
                }),
            decreases count - i,
        {
            let line = self.line_at(i);
            let number = gutter(offset as u128 + i as u128, width);
            let on = i == active;
            let at = if on && focused {
                Some(line.correct_index(self.cursor()))
            } else {
                None
            };
            let (text, column) = line.render(start, bounds.x1, at);
            match column {
                Some(x) => {
                    cursor = Some((x, bounds.y0 + active as u16));
                },
                None => {},
            }
            rows.push(Row { number, text, active: on });
            i = i + 1;
        }
        let blank = if count < bounds.height() as usize {
            Some(Bounds { y0: bounds.y0 + count as u16, ..bounds })
        } else {
            None
        };
        Picture { rows, cursor, blank }
    }

    /// Adds to each text of a status bar what the viewport has to say there.
    pub fn status(&self, statuses: &mut StatusLine)
        ensures
            final(statuses).is_top() == old(statuses).is_top(),
            old(statuses).is_top() ==> final(statuses).texts() == (
                old(statuses).texts().0 + "Buffer Top Left"@,
                old(statuses).texts().1 + "Buffer Top"@,
                old(statuses).texts().2 + "Buffer Top Right"@,
            ),
            !old(statuses).is_top() ==> final(statuses).texts() == (
                old(statuses).texts().0 + "Buffer Bottom Left"@,
                old(statuses).texts().1 + "Buffer Bottom"@,
                old(statuses).texts().2 + "Buffer Bottom Right"@,
            ),
    {
        let top = match statuses {
            StatusLine::Top(_, _, _) => true,
            StatusLine::Bottom(_, _, _) => false,
        };
        if top {
            statuses.write("Buffer Top Left", "Buffer Top", "Buffer Top Right");
        } else {
            statuses.write("Buffer Bottom Left", "Buffer Bottom", "Buffer Bottom Right");
        }
    }
}

} // verus!
