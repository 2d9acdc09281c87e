//! Lines kept out of sight as one block of text.
//!
//! The lines of a file that are scrolled out of the window are not kept as
//! lines. They are joined into one block, each line preceded by a newline,
//! and the line that left the window last is read back off the end of the
//! block when the window scrolls that way again.

use crate::line::Line;
use crate::text::{newline_free, to_text, MAX_LINE_LEN};
use vstd::prelude::*;

verus! {

/// The pieces into which newlines cut `s`. There is always one piece more
/// than `s` has newlines: the first holds what stands before the first
/// newline, the last what stands after the last one.
pub open spec fn segments(s: Seq<char>) -> Seq<Seq<char>>
    decreases s.len(),
{
    if s.len() == 0 {
        seq![Seq::<char>::empty()]
    } else if s.last() == '\n' {
        segments(s.drop_last()).push(Seq::<char>::empty())
    } else {
        let before = segments(s.drop_last());
        before.drop_last().push(before.last().push(s.last()))
    }
}

/// Whether `s` is a block of lines: empty, or starting with the newline that
/// precedes its first line.
pub open spec fn is_block(s: Seq<char>) -> bool {
    s.len() == 0 || s[0] == '\n'
}

/// The lines that a block holds, in the order in which they were added.
pub open spec fn block_lines(s: Seq<char>) -> Seq<Seq<char>> {
    segments(s).drop_first()
}

/// The block that holds `lines`: each line with a newline before it, one
/// after the other.
pub open spec fn joined(lines: Seq<Seq<char>>) -> Seq<char>
    decreases lines.len(),
{
    if lines.len() == 0 {
        Seq::<char>::empty()
    } else {
        joined(lines.drop_last()) + seq!['\n'] + lines.last()
    }
}

/// There is at least one segment, no segment holds a newline, and the
/// segments with the newlines between them are as long as the text.
pub proof fn lemma_segments(s: Seq<char>)
    ensures
        segments(s).len() >= 1,
        segments(s).len() <= s.len() + 1,
        forall|i: int| 0 <= i < segments(s).len() ==> newline_free(#[trigger] segments(s)[i]),
        forall|i: int|
            0 <= i < segments(s).len() ==> (#[trigger] segments(s)[i]).len() + segments(s).len()
                <= s.len() + 1,
    decreases s.len(),
{
    if s.len() > 0 {
        lemma_segments(s.drop_last());
    }
}

/// A block that is not empty holds at least one line.
pub proof fn lemma_block_holds_line(s: Seq<char>)
    requires
        is_block(s),
        s.len() > 0,
    ensures
        block_lines(s).len() > 0,
    decreases s.len(),
{
    let t = s.drop_last();
    lemma_segments(s);
    lemma_segments(t);
    if t.len() > 0 {
        assert(t[0] == s[0]);
        lemma_block_holds_line(t);
    }
}

/// A text that ends in a newline and a line holds, as its last segment, that
/// line, and before it the segments of what stands before the newline.
pub proof fn lemma_segments_split(s: Seq<char>, p: int)
    requires
        0 <= p < s.len(),
        s[p] == '\n',
        forall|i: int| p < i < s.len() ==> s[i] != '\n',
    ensures
        segments(s) == segments(s.take(p)).push(s.skip(p + 1)),
    decreases s.len() - p,
{
    let t = s.drop_last();
    if p == s.len() - 1 {
        assert(t =~= s.take(p));
        assert(s.skip(p + 1) =~= Seq::<char>::empty());
    } else {
        lemma_segments_split(t, p);
        assert(t.take(p) =~= s.take(p));
        assert(t.skip(p + 1).push(s.last()) =~= s.skip(p + 1));
        let before = segments(t);
        assert(before.drop_last() =~= segments(s.take(p)));
    }
}

/// Adding a newline to a text opens a new, empty segment.
pub proof fn lemma_segments_push_newline(s: Seq<char>)
    ensures
        segments(s.push('\n')) == segments(s).push(Seq::<char>::empty()),
{
    assert(s.push('\n').drop_last() =~= s);
}

/// Adding another character to a text adds it to the last segment.
pub proof fn lemma_segments_push_char(s: Seq<char>, c: char)
    requires
        c != '\n',
    ensures
        segments(s.push(c)) == segments(s).drop_last().push(segments(s).last().push(c)),
{
    assert(s.push(c).drop_last() =~= s);
}

/// Lines of a file that are out of sight, joined into one block of text.
#[derive(Clone, Debug)]
pub struct Reservoir {
    block: Vec<char>,
}

impl View for Reservoir {
    type V = Seq<Seq<char>>;

    /// The lines in the reservoir, in the order in which they were added.
    closed spec fn view(&self) -> Seq<Seq<char>> {
        block_lines(self.block@)
    }
}

impl Reservoir {
    /// The block itself: every line preceded by a newline.
    pub closed spec fn block(&self) -> Seq<char> {
        self.block@
    }

    /// A reservoir is well formed when its block starts with a newline or is
    /// empty, and none of its lines is longer than `MAX_LINE_LEN`.
    pub open spec fn wf(&self) -> bool {
        &&& is_block(self.block())
        &&& self@ == block_lines(self.block())
        &&& self.block() == joined(self@)
        &&& forall|i: int| 0 <= i < self@.len() ==> (#[trigger] self@[i]).len() <= MAX_LINE_LEN
    }

    /// A reservoir without lines.
    pub fn new() -> (made: Reservoir)
        ensures
            made.wf(),
            made@ == Seq::<Seq<char>>::empty(),
            made.block() == Seq::<char>::empty(),
    {
        let made = Reservoir { block: Vec::new() };
        assert(block_lines(made.block@) =~= Seq::<Seq<char>>::empty());
        made
    }

    /// Whether the reservoir holds no line.
    pub fn is_empty(&self) -> (empty: bool)
        requires
            self.wf(),
        ensures
            empty == (self@.len() == 0),
    {
        proof {
            lemma_segments(self.block@);
            if self.block@.len() > 0 {
                lemma_block_holds_line(self.block@);
            }
        }
        self.block.len() == 0
    }

    /// The block as text.
    pub fn text(&self) -> (text: String)
        ensures
            text@ == self.block(),
    {
        to_text(&self.block)
    }

    /// Adds `line` to the reservoir, behind the lines that it holds.
    pub fn push(&mut self, line: &Line)
        requires
            old(self).wf(),
            line.wf(),
        ensures
            final(self).wf(),
            final(self)@ == old(self)@.push(line@),
            final(self).block() == old(self).block() + seq!['\n'] + line@,
            final(self)@.len() <= usize::MAX,
    {
        let ghost start = self.block@;
        self.block.push('\n');
        proof {
            lemma_segments(start);
            lemma_segments_push_newline(start);
            assert(line@.take(0) =~= Seq::<char>::empty());
            assert(self.block@ =~= start + seq!['\n'] + line@.take(0));
            assert(segments(self.block@).drop_last() =~= segments(start));
        }
        let mut i: usize = 0;
        let len = line.len();
        while i < len
            invariant
                len == line@.len(),
                0 <= i <= len,
                newline_free(line@),
                self.block@ == start + seq!['\n'] + line@.take(i as int),
                segments(self.block@) == segments(start).push(line@.take(i as int)),
            decreases len - i,
        {
            let c = line.char_at(i);
            let ghost before = self.block@;
            self.block.push(c);
            proof {
                lemma_segments_push_char(before, c);
                assert(line@.take(i + 1) =~= line@.take(i as int).push(c));
                assert(self.block@ =~= start + seq!['\n'] + line@.take(i + 1));
                assert(segments(before).drop_last() =~= segments(start));
            }
            i = i + 1;
        }
        proof {
            assert(line@.take(len as int) =~= line@);
            assert(segments(self.block@).drop_first() =~= segments(start).drop_first().push(
                line@,
            ));
            assert(self.block@[0] == '\n');
            lemma_segments(self.block@);
            assert(self.block@.len() == self.block.len());
            assert(self@.drop_last() =~= old(self)@);
        }
    }

    /// The length of the line that was added last.
    pub fn last_len(&self) -> (len: usize)
        requires
            self.wf(),
            self@.len() > 0,
        ensures
            len == self@.last().len(),
    {
        let ghost start = self.block@;
        proof {
            lemma_segments(start);
            assert(start.len() > 0);
        }
        let len = self.block.len();
        let mut p: usize = len - 1;
        while self.block[p] != '\n'
            invariant
                self.block@ == start,
                len == start.len(),
                0 <= p < len,
                start[0] == '\n',
                forall|i: int| p < i < len ==> start[i] != '\n',
            decreases p,
        {
            p = p - 1;
        }
        proof {
            lemma_segments_split(start, p as int);
            lemma_segments(start.take(p as int));
            assert(block_lines(start) =~= block_lines(start.take(p as int)).push(
                start.skip(p + 1),
            ));
        }
        len - 1 - p
    }

    /// Takes the line that was added last out of the reservoir and puts its
    /// text into `line`, in place of what `line` held.
    pub fn pop(&mut self, line: &mut Line)
        requires
            old(self).wf(),
            old(self)@.len() > 0,
        ensures
            final(self).wf(),
            final(self)@ == old(self)@.drop_last(),
            final(line)@ == old(self)@.last(),
            final(line).wf(),
            old(self).block() == final(self).block() + seq!['\n'] + final(line)@,
    {
        let ghost start = self.block@;
        proof {
            lemma_segments(start);
            assert(start.len() > 0);
        }
        let len = self.block.len();
        let mut p: usize = len - 1;
        while self.block[p] != '\n'
            invariant
                self.block@ == start,
                len == start.len(),
                0 <= p < len,
                start[0] == '\n',
                forall|i: int| p < i < len ==> start[i] != '\n',
            decreases p,
        {
            p = p - 1;
        }
        proof {
            lemma_segments_split(start, p as int);
            lemma_segments(start.take(p as int));
            assert(block_lines(start) =~= block_lines(start.take(p as int)).push(
                start.skip(p + 1),
            ));
            assert(old(self)@.last() == start.skip(p + 1));
            assert(block_lines(start).drop_last() =~= block_lines(start.take(p as int)));
        }
        line.clear();
        let mut i: usize = p + 1;
        while i < len
            invariant
                self.block@ == start,
                len == start.len(),
                p < i <= len,
                start.skip(p + 1).len() <= MAX_LINE_LEN,
                forall|j: int| p < j < len ==> start[j] != '\n',
                line.wf(),
                line@ == start.subrange(p + 1, i as int),
            decreases len - i,
        {
            line.push(self.block[i]);
            assert(start.subrange(p + 1, i + 1) =~= start.subrange(p + 1, i as int).push(
                start[i as int],
            ));
            i = i + 1;
        }
        self.block.truncate(p);
        proof {
            assert(start.subrange(p + 1, len as int) =~= start.skip(p + 1));
            assert(self.block@ =~= start.take(p as int));
            assert(start =~= start.take(p as int) + seq!['\n'] + start.skip(p + 1));
            assert(newline_free(line@));
            if p > 0 {
                assert(self.block@[0] == start[0]);
            }
            assert forall|j: int| 0 <= j < self@.len() implies (#[trigger] self@[j]).len()
                <= MAX_LINE_LEN by {
                assert(self@[j] == old(self)@[j]);
            }
            let rest = joined(self@);
            assert(start == rest + seq!['\n'] + line@);
            assert(rest =~= start.take(p as int)) by {
                assert(rest.len() == p);
                assert forall|j: int| 0 <= j < p implies rest[j] == start[j] by {
                    assert((rest + seq!['\n'] + line@)[j] == rest[j]);
                }
            }
        }
    }
}

} // verus!
