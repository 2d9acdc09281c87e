//! One line of text, and positions inside it.
//!
//! A line keeps no cursor of its own. Every operation takes a position and
//! gives one back, so that a caller can carry a position from one line to
//! another and have it resolved against whatever the line holds at that
//! moment.

use crate::text::{
    alphanumeric, byte_len, char_pos, column_pos, display_width, is_alphanumeric, is_line,
    lemma_byte_len_step, lemma_char_pos, lemma_char_pos_fits, lemma_column_pos,
    lemma_display_width_step, lemma_measures_bounded, lemma_measures_increase,
    lemma_newline_free_concat, lemma_newline_free_insert, lemma_newline_free_parts, len_of,
    newline_free, string_push, to_chars, to_text, width_of, MAX_LINE_LEN,
};
use vstd::prelude::*;

verus! {

/// A position inside a line: the screen column at which it is drawn, and the
/// offset in bytes at which it lies when the line is stored as UTF-8.
///
/// An index is made for one state of one line. After that line changes, or on
/// another line, it is stale; every operation of `Line` then reads it by its
/// byte offset alone, as `char_pos` describes.
#[derive(Copy, Clone, Debug, PartialEq, Eq, Structural)]
pub struct Index {
    pub display: usize,
    pub byte: usize,
}

/// A cursor position that may be out of date: either an index that was
/// resolved against some line, or only the column that the cursor should be
/// drawn at, still to be resolved against the line it is now on.
#[derive(Copy, Clone, Debug, PartialEq, Eq, Structural)]
pub enum RawIndex {
    Valid(Index),
    Invalid { display: usize },
}

/// The index of the position before character `k` of `s`.
pub open spec fn index_at(s: Seq<char>, k: int) -> Index {
    Index { display: display_width(s.take(k)) as usize, byte: byte_len(s.take(k)) as usize }
}

/// Whether `index` is a position of `s`: its byte offset lies on a character
/// boundary and its column is the width of the text before that boundary.
pub open spec fn is_index_of(s: Seq<char>, index: Index) -> bool {
    index == index_at(s, char_pos(s, index.byte as nat) as int)
}

/// The index that a raw index stands for on a line that holds `s`.
pub open spec fn corrected(s: Seq<char>, raw: RawIndex) -> Index {
    match raw {
        RawIndex::Valid(index) => index,
        RawIndex::Invalid { display } => index_at(s, column_pos(s, display as nat) as int),
    }
}

/// The position one character after `index`, or nothing at the end of `s`.
pub open spec fn stepped_forward(s: Seq<char>, index: Index) -> Option<Index> {
    let k = char_pos(s, index.byte as nat) as int;
    if k < s.len() {
        Some(index_at(s, k + 1))
    } else {
        None
    }
}

/// The position one character before `index`, or nothing at the start of `s`.
pub open spec fn stepped_backward(s: Seq<char>, index: Index) -> Option<Index> {
    let k = char_pos(s, index.byte as nat) as int;
    if k > 0 {
        Some(index_at(s, k - 1))
    } else {
        None
    }
}

/// For each character of `s`, whether it is a letter or a digit.
pub open spec fn classes(s: Seq<char>) -> Seq<bool> {
    s.map_values(|c: char| is_alphanumeric(c))
}

/// Whether position `j` lies between two runs: the character before it and
/// the character at it are of different classes.
pub open spec fn is_word_boundary(classes: Seq<bool>, j: int) -> bool {
    0 < j < classes.len() && classes[j - 1] != classes[j]
}

/// The first word boundary after position `k`, or the end of the line if
/// there is none.
pub open spec fn next_stop(classes: Seq<bool>, k: int) -> int
    decreases classes.len() - k,
{
    if k + 1 >= classes.len() {
        classes.len() as int
    } else if is_word_boundary(classes, k + 1) {
        k + 1
    } else {
        next_stop(classes, k + 1)
    }
}

/// The last word boundary before position `k`, or the start of the line if
/// there is none.
pub open spec fn prev_stop(classes: Seq<bool>, k: int) -> int
    decreases k,
{
    if k <= 1 {
        0
    } else if is_word_boundary(classes, k - 1) {
        k - 1
    } else {
        prev_stop(classes, k - 1)
    }
}

/// The position one word after `index`, or nothing at the end of `s`.
pub open spec fn stepped_forward_word(s: Seq<char>, index: Index) -> Option<Index> {
    let k = char_pos(s, index.byte as nat) as int;
    if k < s.len() {
        Some(index_at(s, next_stop(classes(s), k)))
    } else {
        None
    }
}

/// The position one word before `index`, or nothing at the start of `s`.
pub open spec fn stepped_backward_word(s: Seq<char>, index: Index) -> Option<Index> {
    let k = char_pos(s, index.byte as nat) as int;
    if k > 0 {
        Some(index_at(s, prev_stop(classes(s), k)))
    } else {
        None
    }
}

/// The next word boundary lies after the position it is sought from, and no
/// further than the end of the line.
pub proof fn lemma_next_stop_in_line(classes: Seq<bool>, k: int)
    requires
        0 <= k < classes.len(),
    ensures
        k < next_stop(classes, k) <= classes.len(),
    decreases classes.len() - k,
{
    if k + 1 < classes.len() {
        lemma_next_stop_in_line(classes, k + 1);
    }
}

/// The last word boundary lies before the position it is sought from, and
/// no further back than the start of the line.
pub proof fn lemma_prev_stop_in_line(classes: Seq<bool>, k: int)
    requires
        0 < k,
    ensures
        0 <= prev_stop(classes, k) < k,
    decreases k,
{
    if k > 1 {
        lemma_prev_stop_in_line(classes, k - 1);
    }
}

/// The first word boundary after position `k` of a line whose characters are
/// of the given classes, or the length of the line if there is none.
pub fn stop_after(classes: &Vec<bool>, k: usize) -> (stop: usize)
    ensures
        stop == next_stop(classes@, k as int),
{
    let len = classes.len();
    if k >= len {
        return len;
    }
    let mut j: usize = k + 1;
    while j < len
        invariant
            len == classes@.len(),
            k < j <= len,
            next_stop(classes@, k as int) == next_stop(classes@, j - 1),
        ensures
            k < j <= len,
            next_stop(classes@, k as int) == j,
        decreases len - j,
    {
        if classes[j - 1] != classes[j] {
            break ;
        }
        j = j + 1;
    }
    j
}

/// The last word boundary before position `k` of a line whose characters are
/// of the given classes, or zero if there is none.
pub fn stop_before(classes: &Vec<bool>, k: usize) -> (stop: usize)
    ensures
        stop == prev_stop(classes@, k as int),
{
    let len = classes.len();
    if k == 0 {
        return 0;
    }
    let mut j: usize = k - 1;
    while j > 0
        invariant
            len == classes@.len(),
            0 <= j < k,
            prev_stop(classes@, k as int) == prev_stop(classes@, j + 1),
        ensures
            0 <= j < k,
            prev_stop(classes@, k as int) == j,
        decreases j,
    {
        if j < len && classes[j - 1] != classes[j] {
            break ;
        }
        j = j - 1;
    }
    j
}

/// The cells that `c` is drawn in: a tab is drawn as `TAB_SIZE` blanks, any
/// other character as itself.
pub open spec fn cells(c: char) -> Seq<char> {
    if c == '\t' {
        seq![' ', ' ', ' ', ' ']
    } else {
        seq![c]
    }
}

/// The cells that `s` is drawn in, with every tab expanded.
pub open spec fn expanded(s: Seq<char>) -> Seq<char>
    decreases s.len(),
{
    if s.len() == 0 {
        Seq::<char>::empty()
    } else {
        expanded(s.drop_last()) + cells(s.last())
    }
}

/// What is drawn of `s` in a field of `width` cells: its expanded text, cut
/// off at the width of the field, and blanks up to that width if the text is
/// narrower.
pub open spec fn rendered(s: Seq<char>, width: nat) -> Seq<char> {
    Seq::new(
        width,
        |i: int|
            if i < expanded(s).len() {
                expanded(s)[i]
            } else {
                ' '
            },
    )
}

/// The column at which the cursor is drawn in a field that starts at column
/// `x0` and is `width` cells wide, for a cursor at `index`: the column of the
/// index, but no further right than the end of the field.
pub open spec fn cursor_column(x0: u16, width: nat, index: Index) -> int {
    if index.display <= width {
        x0 + index.display
    } else {
        x0 + width
    }
}

impl Default for Index {
    fn default() -> (index: Index)
        ensures
            index == (Index { display: 0, byte: 0 }),
    {
        Index { display: 0, byte: 0 }
    }
}

impl RawIndex {
    /// The column that the cursor is, or should be, drawn at.
    pub open spec fn column(self) -> usize {
        match self {
            RawIndex::Valid(index) => index.display,
            RawIndex::Invalid { display } => display,
        }
    }

    /// The start of a line, which is a position of every line.
    pub fn index_front() -> (raw: RawIndex)
        ensures
            raw == RawIndex::Valid(Index { display: 0, byte: 0 }),
    {
        RawIndex::Valid(Index { display: 0, byte: 0 })
    }

    /// The column that the cursor is, or should be, drawn at.
    pub fn display(&self) -> (display: usize)
        ensures
            display == self.column(),
    {
        match self {
            RawIndex::Valid(index) => index.display,
            RawIndex::Invalid { display } => *display,
        }
    }

    /// Whether the cursor is in the first column.
    pub fn at_front(self) -> (front: bool)
        ensures
            front == (self.column() == 0),
    {
        self.display() == 0
    }

    /// Forgets the byte offset and keeps the column, for a cursor that has
    /// moved to another line.
    pub fn invalidate(&mut self)
        ensures
            *final(self) == (RawIndex::Invalid { display: old(self).column() }),
    {
        let display = self.display();
        *self = RawIndex::Invalid { display };
    }
}

impl From<Index> for RawIndex {
    fn from(valid: Index) -> (raw: RawIndex) {
        RawIndex::Valid(valid)
    }
}

impl vstd::std_specs::convert::FromSpecImpl<Index> for RawIndex {
    open spec fn obeys_from_spec() -> bool {
        true
    }

    open spec fn from_spec(valid: Index) -> RawIndex {
        RawIndex::Valid(valid)
    }
}

/// A single line of text, without a line terminator.
#[derive(Clone, Debug)]
pub struct Line {
    content: Vec<char>,
}

impl View for Line {
    type V = Seq<char>;

    closed spec fn view(&self) -> Seq<char> {
        self.content@
    }
}

impl Default for Line {
    fn default() -> (line: Line)
        ensures
            line.wf(),
            line@ == Seq::<char>::empty(),
    {
        Line::new()
    }
}

impl Line {
    /// A line is well formed when it holds no newline and is no longer than
    /// `MAX_LINE_LEN`.
    pub open spec fn wf(&self) -> bool {
        is_line(self@)
    }

    /// An empty line.
    pub fn new() -> (line: Line)
        ensures
            line.wf(),
            line@ == Seq::<char>::empty(),
    {
        Line { content: Vec::new() }
    }

    /// A line that holds `text`, or nothing if `text` cannot be a line.
    pub fn from_text(text: &str) -> (made: Option<Line>)
        ensures
            made is Some <==> is_line(text@),
            made is Some ==> made->0.wf() && made->0@ == text@,
    {
        Line::from_chars(to_chars(text))
    }

    /// A line that holds `content`, or nothing if `content` cannot be a
    /// line.
    pub fn from_chars(content: Vec<char>) -> (made: Option<Line>)
        ensures
            made is Some <==> is_line(content@),
            made is Some ==> made->0.wf() && made->0@ == content@,
    {
        if content.len() > MAX_LINE_LEN {
            return None;
        }
        let mut i: usize = 0;
        while i < content.len()
            invariant
                0 <= i <= content@.len(),
                forall|j: int| 0 <= j < i ==> content@[j] != '\n',
            decreases content@.len() - i,
        {
            if content[i] == '\n' {
                return None;
            }
            i = i + 1;
        }
        Some(Line { content })
    }

    /// The text of the line.
    pub fn text(&self) -> (text: String)
        ensures
            text@ == self@,
    {
        to_text(&self.content)
    }

    /// The number of characters in the line.
    pub fn len(&self) -> (len: usize)
        ensures
            len == self@.len(),
    {
        self.content.len()
    }

    /// The character at position `i` of the line.
    pub fn char_at(&self, i: usize) -> (c: char)
        requires
            i < self@.len(),
        ensures
            c == self@[i as int],
    {
        self.content[i]
    }

    /// Resolves a byte offset: the character position that it stands for, and
    /// the index of that position.
    fn locate(&self, byte: usize) -> (found: (usize, Index))
        requires
            self.wf(),
        ensures
            found.0 == char_pos(self@, byte as nat),
            found.0 <= self@.len(),
            found.1 == index_at(self@, found.0 as int),
            found.1.display == display_width(self@.take(found.0 as int)),
            found.1.byte == byte_len(self@.take(found.0 as int)),
    {
        let mut k: usize = 0;
        let mut display: usize = 0;
        let mut offset: usize = 0;
        proof {
            assert(self@.take(0) =~= Seq::<char>::empty());
        }
        while k < self.content.len()
            invariant
                self.wf(),
                0 <= k <= self@.len(),
                display == display_width(self@.take(k as int)),
                offset == byte_len(self@.take(k as int)),
                offset <= byte,
            ensures
                0 <= k <= self@.len(),
                display == display_width(self@.take(k as int)),
                offset == byte_len(self@.take(k as int)),
                offset <= byte,
                k < self@.len() ==> byte < byte_len(self@.take(k + 1)),
            decreases self@.len() - k,
        {
            let c = self.content[k];
            proof {
                lemma_display_width_step(self@, k as int);
                lemma_byte_len_step(self@, k as int);
                lemma_measures_bounded(self@.take(k + 1));
            }
            if offset + len_of(c) > byte {
                break ;
            }
            display = display + width_of(c);
            offset = offset + len_of(c);
            k = k + 1;
        }
        proof {
            lemma_char_pos(self@, byte as nat, k as int);
        }
        (k, Index { display, byte: offset })
    }

    /// Resolves a screen column: the character position that it stands for,
    /// and the index of that position.
    fn locate_column(&self, target: usize) -> (found: (usize, Index))
        requires
            self.wf(),
        ensures
            found.0 == column_pos(self@, target as nat),
            found.0 <= self@.len(),
            found.1 == index_at(self@, found.0 as int),
    {
        let mut k: usize = 0;
        let mut display: usize = 0;
        let mut offset: usize = 0;
        proof {
            assert(self@.take(0) =~= Seq::<char>::empty());
        }
        while k < self.content.len()
            invariant
                self.wf(),
                0 <= k <= self@.len(),
                display == display_width(self@.take(k as int)),
                offset == byte_len(self@.take(k as int)),
                display <= target,
            ensures
                0 <= k <= self@.len(),
                display == display_width(self@.take(k as int)),
                offset == byte_len(self@.take(k as int)),
                display <= target,
                k < self@.len() ==> target < display_width(self@.take(k + 1)),
            decreases self@.len() - k,
        {
            let c = self.content[k];
            proof {
                lemma_display_width_step(self@, k as int);
                lemma_byte_len_step(self@, k as int);
                lemma_measures_bounded(self@.take(k + 1));
            }
            if display + width_of(c) > target {
                break ;
            }
            display = display + width_of(c);
            offset = offset + len_of(c);
            k = k + 1;
        }
        proof {
            lemma_column_pos(self@, target as nat, k as int);
        }
        (k, Index { display, byte: offset })
    }

    /// Resolves a raw index against what the line holds now. A valid index is
    /// returned as it is. A column alone resolves to the last position that is
    /// drawn at or before that column, which is the end of the line if the
    /// line is narrower than the column.
    pub fn correct_index(&self, index: RawIndex) -> (valid: Index)
        requires
            self.wf(),
        ensures
            valid == corrected(self@, index),
            index is Invalid ==> is_index_of(self@, valid),
    {
        match index {
            RawIndex::Valid(valid) => valid,
            RawIndex::Invalid { display } => {
                let (k, valid) = self.locate_column(display);
                proof {
                    lemma_index_at_is_index(self@, k as int);
                }
                valid
            },
        }
    }

    /// The position one character after `index`, or nothing if `index` is
    /// at, or beyond, the end of the line.
    pub fn index_forward(&self, index: Index) -> (next: Option<Index>)
        requires
            self.wf(),
        ensures
            next == stepped_forward(self@, index),
            next is Some ==> is_index_of(self@, next->0),
    {
        let (k, at) = self.locate(index.byte);
        if k < self.content.len() {
            let c = self.content[k];
            proof {
                lemma_display_width_step(self@, k as int);
                lemma_byte_len_step(self@, k as int);
                lemma_measures_bounded(self@.take(k + 1));
                lemma_index_at_is_index(self@, k + 1);
            }
            Some(Index { display: at.display + width_of(c), byte: at.byte + len_of(c) })
        } else {
            None
        }
    }

    /// The position one character before `index`, or nothing if `index` is at
    /// the start of the line.
    pub fn index_backward(&self, index: Index) -> (prev: Option<Index>)
        requires
            self.wf(),
        ensures
            prev == stepped_backward(self@, index),
            prev is Some ==> is_index_of(self@, prev->0),
    {
        let (k, at) = self.locate(index.byte);
        if k > 0 {
            let c = self.content[k - 1];
            proof {
                lemma_display_width_step(self@, k - 1);
                lemma_byte_len_step(self@, k - 1);
                lemma_index_at_is_index(self@, k - 1);
            }
            Some(Index { display: at.display - width_of(c), byte: at.byte - len_of(c) })
        } else {
            None
        }
    }

    /// For each character of the line, whether it is a letter or a digit.
    pub fn classify(&self) -> (found: Vec<bool>)
        ensures
            found@ == classes(self@),
    {
        let mut found: Vec<bool> = Vec::new();
        let mut i: usize = 0;
        while i < self.content.len()
            invariant
                0 <= i <= self@.len(),
                found@ == classes(self@).take(i as int),
            decreases self@.len() - i,
        {
            found.push(alphanumeric(self.content[i]));
            assert(classes(self@).take(i + 1) =~= classes(self@).take(i as int).push(
                is_alphanumeric(self@[i as int]),
            ));
            i = i + 1;
        }
        assert(classes(self@).take(self@.len() as int) =~= classes(self@));
        found
    }

    /// The index of position `to`, reached from the index `at` of the
    /// position `from` before it.
    fn advance(&self, from: usize, at: Index, to: usize) -> (reached: Index)
        requires
            self.wf(),
            from <= to <= self@.len(),
            at.display == display_width(self@.take(from as int)),
            at.byte == byte_len(self@.take(from as int)),
        ensures
            reached == index_at(self@, to as int),
            is_index_of(self@, reached),
    {
        let mut j: usize = from;
        let mut display: usize = at.display;
        let mut offset: usize = at.byte;
        while j < to
            invariant
                self.wf(),
                from <= j <= to <= self@.len(),
                display == display_width(self@.take(j as int)),
                offset == byte_len(self@.take(j as int)),
            decreases to - j,
        {
            let c = self.content[j];
            proof {
                lemma_display_width_step(self@, j as int);
                lemma_byte_len_step(self@, j as int);
                lemma_measures_bounded(self@.take(j + 1));
            }
            display = display + width_of(c);
            offset = offset + len_of(c);
            j = j + 1;
        }
        proof {
            lemma_index_at_is_index(self@, to as int);
        }
        Index { display, byte: offset }
    }

    /// The index of position `to`, reached from the index `at` of the
    /// position `from` after it.
    fn retreat(&self, from: usize, at: Index, to: usize) -> (reached: Index)
        requires
            self.wf(),
            to <= from <= self@.len(),
            at.display == display_width(self@.take(from as int)),
            at.byte == byte_len(self@.take(from as int)),
        ensures
            reached == index_at(self@, to as int),
            is_index_of(self@, reached),
    {
        let mut j: usize = from;
        let mut display: usize = at.display;
        let mut offset: usize = at.byte;
        while j > to
            invariant
                self.wf(),
                to <= j <= from <= self@.len(),
                display == display_width(self@.take(j as int)),
                offset == byte_len(self@.take(j as int)),
            decreases j,
        {
            let c = self.content[j - 1];
            proof {
                lemma_display_width_step(self@, j - 1);
                lemma_byte_len_step(self@, j - 1);
            }
            display = display - width_of(c);
            offset = offset - len_of(c);
            j = j - 1;
        }
        proof {
            lemma_index_at_is_index(self@, to as int);
        }
        Index { display, byte: offset }
    }

    /// The position of the next word boundary after `index`, or of the end of
    /// the line if no boundary follows; nothing if `index` is at, or beyond,
    /// the end of the line.
    pub fn index_forward_word(&self, index: Index) -> (next: Option<Index>)
        requires
            self.wf(),
        ensures
            next == stepped_forward_word(self@, index),
            next is Some ==> is_index_of(self@, next->0),
    {
        let (k, at) = self.locate(index.byte);
        if k >= self.content.len() {
            return None;
        }
        let found = self.classify();
        let stop = stop_after(&found, k);
        proof {
            lemma_next_stop_in_line(classes(self@), k as int);
        }
        Some(self.advance(k, at, stop))
    }

    /// The position of the last word boundary before `index`, or of the start
    /// of the line if no boundary comes before; nothing if `index` is at the
    /// start of the line.
    pub fn index_backward_word(&self, index: Index) -> (prev: Option<Index>)
        requires
            self.wf(),
        ensures
            prev == stepped_backward_word(self@, index),
            prev is Some ==> is_index_of(self@, prev->0),
    {
        let (k, at) = self.locate(index.byte);
        if k == 0 {
            return None;
        }
        let found = self.classify();
        let stop = stop_before(&found, k);
        proof {
            lemma_prev_stop_in_line(classes(self@), k as int);
        }
        Some(self.retreat(k, at, stop))
    }

    /// The position at the end of the line, whatever `index` is.
    pub fn index_back(&self, index: RawIndex) -> (end: Index)
        requires
            self.wf(),
        ensures
            end == index_at(self@, self@.len() as int),
            is_index_of(self@, end),
    {
        let (k, end) = self.locate(usize::MAX);
        proof {
            lemma_measures_bounded(self@);
            assert(self@.take(self@.len() as int) =~= self@);
            lemma_char_pos(self@, usize::MAX as nat, self@.len() as int);
            lemma_index_at_is_index(self@, self@.len() as int);
        }
        end
    }

    /// Whether `index` is at the start of the line: no character stands
    /// before it.
    pub fn at_front(&self, index: Index) -> (front: bool)
        requires
            self.wf(),
        ensures
            front == (char_pos(self@, index.byte as nat) == 0),
    {
        let (k, at) = self.locate(index.byte);
        k == 0
    }

    /// Whether `index` is at, or beyond, the end of the line.
    pub fn at_back(&self, index: Index) -> (back: bool)
        requires
            self.wf(),
        ensures
            back == (char_pos(self@, index.byte as nat) == self@.len()),
            back == (index.byte >= byte_len(self@)),
    {
        let (k, at) = self.locate(index.byte);
        proof {
            lemma_char_pos_fits(self@, index.byte as nat);
            assert(self@.take(self@.len() as int) =~= self@);
            if k < self@.len() {
                lemma_measures_increase(self@, k as int, self@.len() as int);
                if k + 1 < self@.len() {
                    lemma_measures_increase(self@, k + 1, self@.len() as int);
                }
            }
        }
        k == self.content.len()
    }

    /// Cuts the line at `index`: the line keeps what stands before it, and
    /// what stands after it is returned as a line of its own.
    pub fn split_at(&mut self, index: Index) -> (rest: Line)
        requires
            old(self).wf(),
        ensures
            final(self).wf(),
            rest.wf(),
            final(self)@ == old(self)@.take(char_pos(old(self)@, index.byte as nat) as int),
            rest@ == old(self)@.skip(char_pos(old(self)@, index.byte as nat) as int),
    {
        let (k, at) = self.locate(index.byte);
        proof {
            lemma_newline_free_parts(self@, k as int, k as int);
        }
        let tail = self.content.split_off(k);
        Line { content: tail }
    }

    /// Empties the line.
    pub fn clear(&mut self)
        ensures
            final(self).wf(),
            final(self)@ == Seq::<char>::empty(),
    {
        self.content.clear();
    }

    /// Adds one character to the end of the line.
    pub fn push(&mut self, c: char)
        requires
            old(self).wf(),
            old(self)@.len() < MAX_LINE_LEN,
            c != '\n',
        ensures
            final(self).wf(),
            final(self)@ == old(self)@.push(c),
    {
        proof {
            lemma_newline_free_insert(self@, self@.len() as int, c);
            assert(self@.insert(self@.len() as int, c) =~= self@.push(c));
        }
        self.content.push(c);
    }

    /// Adds the text of `other` to the end of the line.
    pub fn append(&mut self, other: &Line)
        requires
            old(self).wf(),
            other.wf(),
            old(self)@.len() + other@.len() <= MAX_LINE_LEN,
        ensures
            final(self).wf(),
            final(self)@ == old(self)@ + other@,
    {
        let mut i: usize = 0;
        while i < other.content.len()
            invariant
                0 <= i <= other@.len(),
                old(self)@.len() + other@.len() <= MAX_LINE_LEN,
                self@ == old(self)@ + other@.take(i as int),
            decreases other@.len() - i,
        {
            self.content.push(other.content[i]);
            assert(other@.take(i + 1) =~= other@.take(i as int).push(other@[i as int]));
            assert(self@ =~= old(self)@ + other@.take(i + 1));
            i = i + 1;
        }
        assert(other@.take(other@.len() as int) =~= other@);
        proof {
            lemma_newline_free_concat(old(self)@, other@);
        }
    }

    /// Puts the text of `other` in front of the line.
    pub fn prepend(&mut self, other: &Line)
        requires
            old(self).wf(),
            other.wf(),
            old(self)@.len() + other@.len() <= MAX_LINE_LEN,
        ensures
            final(self).wf(),
            final(self)@ == other@ + old(self)@,
    {
        let mut joined: Vec<char> = Vec::new();
        let mut i: usize = 0;
        while i < other.content.len()
            invariant
                0 <= i <= other@.len(),
                joined@ == other@.take(i as int),
            decreases other@.len() - i,
        {
            joined.push(other.content[i]);
            assert(other@.take(i + 1) =~= other@.take(i as int).push(other@[i as int]));
            i = i + 1;
        }
        assert(other@.take(other@.len() as int) =~= other@);
        joined.append(&mut self.content);
        self.content = joined;
        proof {
            lemma_newline_free_concat(other@, old(self)@);
        }
    }

    /// Puts `c` into the line at `index`, before the character that stood
    /// there.
    pub fn insert(&mut self, index: Index, c: char)
        requires
            old(self).wf(),
            old(self)@.len() < MAX_LINE_LEN,
            c != '\n',
        ensures
            final(self).wf(),
            final(self)@ == old(self)@.insert(char_pos(old(self)@, index.byte as nat) as int, c),
    {
        let (k, at) = self.locate(index.byte);
        proof {
            lemma_newline_free_insert(self@, k as int, c);
        }
        self.content.insert(k, c);
    }

    /// Takes the character at `index` out of the line. At the end of the line
    /// there is none, and the line stays as it is.
    pub fn remove(&mut self, index: Index)
        requires
            old(self).wf(),
        ensures
            final(self).wf(),
            final(self)@ == removed(old(self)@, index),
    {
        let (k, at) = self.locate(index.byte);
        proof {
            lemma_shorter_is_line(self@, index, index);
        }
        if k < self.content.len() {
            self.content.remove(k);
        }
    }

    /// Takes the characters from `from` up to `to` out of the line. Where
    /// `to` does not lie after `from`, the line stays as it is.
    pub fn remove_range(&mut self, from: Index, to: Index)
        requires
            old(self).wf(),
        ensures
            final(self).wf(),
            final(self)@ == removed_range(old(self)@, from, to),
    {
        let (first, at_first) = self.locate(from.byte);
        let (last, at_last) = self.locate(to.byte);
        proof {
            lemma_shorter_is_line(self@, from, to);
        }
        if first < last {
            let mut tail = self.content.split_off(last);
            self.content.truncate(first);
            self.content.append(&mut tail);
            assert(self@ =~= old(self)@.take(first as int) + old(self)@.skip(last as int));
        }
    }

    /// Draws the line into a field that starts at column `x0` and ends before
    /// column `x1`, of which the last column stays free. Returns the text of
    /// the field and, if `active` is given, the column at which the cursor
    /// stands.
    pub fn render(&self, x0: u16, x1: u16, active: Option<Index>) -> (drawn: (String, Option<u16>))
        requires
            x0 < x1,
        ensures
            drawn.0@ == rendered(self@, (x1 - x0 - 1) as nat),
            match active {
                Some(index) => drawn.1 == Some(
                    cursor_column(x0, (x1 - x0 - 1) as nat, index) as u16,
                ),
                None => drawn.1 is None,
            },
            drawn.1 is Some ==> x0 <= drawn.1->0 < x1,
    {
        let width: u16 = x1 - x0 - 1;
        let text = self.render_text(width as usize);
        let cursor = match active {
            Some(index) => {
                if index.display <= width as usize {
                    Some(x0 + index.display as u16)
                } else {
                    Some(x0 + width)
                }
            },
            None => None,
        };
        (text, cursor)
    }

    /// The text of a field of `width` cells that shows the line.
    pub fn render_text(&self, width: usize) -> (text: String)
        ensures
            text@ == rendered(self@, width as nat),
    {
        let mut text = String::new();
        let mut count: usize = 0;
        let mut k: usize = 0;
        proof {
            assert(self@.take(0) =~= Seq::<char>::empty());
        }
        while k < self.content.len() && count < width
            invariant
                0 <= k <= self@.len(),
                count == text@.len(),
                count <= width,
                count < width ==> text@ == expanded(self@.take(k as int)),
                count == width ==> expanded(self@.take(k as int)).len() >= width && text@
                    == expanded(self@.take(k as int)).take(width as int),
            decreases self@.len() - k,
        {
            let c = self.content[k];
            let ghost before = expanded(self@.take(k as int));
            proof {
                assert(self@.take(k + 1).drop_last() =~= self@.take(k as int));
                assert(expanded(self@.take(k + 1)) == before + cells(c));
            }
            if c == '\t' {
                let mut n: usize = 0;
                while n < 4 && count < width
                    invariant
                        0 <= n <= 4,
                        c == '\t',
                        count == text@.len(),
                        count <= width,
                        text@ == before + cells(c).take(n as int),
                    decreases 4 - n,
                {
                    string_push(&mut text, ' ');
                    assert(cells(c).take(n + 1) =~= cells(c).take(n as int).push(' '));
                    assert(text@ =~= before + cells(c).take(n + 1));
                    count = count + 1;
                    n = n + 1;
                }
                proof {
                    if n == 4 {
                        assert(cells(c).take(4) =~= cells(c));
                    } else {
                        assert(text@ =~= (before + cells(c)).take(width as int));
                    }
                }
            } else {
                string_push(&mut text, c);
                assert(text@ =~= before + cells(c));
                count = count + 1;
                proof {
                    if count == width {
                        assert(text@ =~= (before + cells(c)).take(width as int));
                    }
                }
            }
            k = k + 1;
        }
        let ghost shown = text@;
        proof {
            lemma_expanded_prefix(self@, k as int);
            if count < width {
                assert(self@.take(k as int) =~= self@);
            }
            assert(forall|i: int|
                0 <= i < shown.len() ==> i < expanded(self@).len() && shown[i] == expanded(
                    self@,
                )[i]);
        }
        while count < width
            invariant
                count == text@.len(),
                count <= width,
                shown.len() <= count,
                shown.len() <= expanded(self@).len(),
                shown.len() < width ==> shown.len() == expanded(self@).len(),
                forall|i: int| 0 <= i < shown.len() ==> text@[i] == expanded(self@)[i],
                forall|i: int| shown.len() <= i < count ==> text@[i] == ' ',
            decreases width - count,
        {
            string_push(&mut text, ' ');
            count = count + 1;
        }
        assert(text@ =~= rendered(self@, width as nat));
        text
    }
}

/// What is left of `s` when the character at `index` is taken out: `s`
/// itself where `index` is at the end.
pub open spec fn removed(s: Seq<char>, index: Index) -> Seq<char> {
    let k = char_pos(s, index.byte as nat) as int;
    if k < s.len() {
        s.remove(k)
    } else {
        s
    }
}

/// What is left of `s` when the characters from `from` up to `to` are taken
/// out: `s` itself where `to` does not lie after `from`.
pub open spec fn removed_range(s: Seq<char>, from: Index, to: Index) -> Seq<char> {
    let first = char_pos(s, from.byte as nat) as int;
    let last = char_pos(s, to.byte as nat) as int;
    if first < last {
        s.take(first) + s.skip(last)
    } else {
        s
    }
}

/// What is left of a line when a part of it is taken out is free of newlines
/// and no longer than the line was.
pub proof fn lemma_shorter_is_line(s: Seq<char>, from: Index, to: Index)
    requires
        newline_free(s),
    ensures
        newline_free(removed(s, from)),
        removed(s, from).len() <= s.len(),
        newline_free(removed_range(s, from, to)),
        removed_range(s, from, to).len() <= s.len(),
{
    lemma_char_pos_fits(s, from.byte as nat);
    lemma_char_pos_fits(s, to.byte as nat);
    let first = char_pos(s, from.byte as nat) as int;
    let last = char_pos(s, to.byte as nat) as int;
    if first < s.len() {
        lemma_newline_free_parts(s, first, first + 1);
        assert(s.remove(first) =~= s.take(first) + s.skip(first + 1));
    }
    if first < last {
        lemma_newline_free_parts(s, first, last);
    }
}

/// What is drawn of the start of a line is the start of what is drawn of the
/// whole line.
pub proof fn lemma_expanded_prefix(s: Seq<char>, k: int)
    requires
        0 <= k <= s.len(),
    ensures
        expanded(s.take(k)).len() <= expanded(s).len(),
        expanded(s.take(k)) == expanded(s).take(expanded(s.take(k)).len() as int),
    decreases s.len() - k,
{
    if k == s.len() {
        assert(s.take(k) =~= s);
        assert(expanded(s) =~= expanded(s).take(expanded(s).len() as int));
    } else {
        lemma_expanded_prefix(s, k + 1);
        assert(s.take(k + 1).drop_last() =~= s.take(k));
        let longer = expanded(s.take(k + 1));
        let shorter = expanded(s.take(k));
        assert(longer == shorter + cells(s[k]));
        assert(shorter =~= longer.take(shorter.len() as int));
        assert(shorter =~= expanded(s).take(shorter.len() as int));
    }
}

/// The index of a position of `s` is a position of `s`, and its byte offset
/// resolves to the position it was made for.
pub proof fn lemma_index_at_is_index(s: Seq<char>, k: int)
    requires
        0 <= k <= s.len(),
        s.len() <= MAX_LINE_LEN,
    ensures
        char_pos(s, index_at(s, k).byte as nat) == k,
        is_index_of(s, index_at(s, k)),
        index_at(s, k).display == display_width(s.take(k)),
        index_at(s, k).byte == byte_len(s.take(k)),
{
    lemma_measures_bounded(s.take(k));
    if k < s.len() {
        lemma_measures_increase(s, k, k + 1);
    }
    lemma_char_pos(s, byte_len(s.take(k)), k);
}

} // verus!
