//! The texts of a status bar.

use vstd::prelude::*;
use vstd::string::StringExecFns;

verus! {

/// The three texts of a status bar, left, middle and right, for the bar at
/// the top of the screen or the one at the bottom.
#[derive(Debug)]
pub enum StatusLine {
    Top(String, String, String),
    Bottom(String, String, String),
}

impl StatusLine {
    /// Whether this is the bar at the top.
    pub open spec fn is_top(&self) -> bool {
        self is Top
    }

    /// The left, middle and right text.
    pub open spec fn texts(&self) -> (Seq<char>, Seq<char>, Seq<char>) {
        match self {
            StatusLine::Top(left, middle, right) => (left@, middle@, right@),
            StatusLine::Bottom(left, middle, right) => (left@, middle@, right@),
        }
    }

    /// An empty bar for the top of the screen.
    pub fn top() -> (line: StatusLine)
        ensures
            line.is_top(),
            line.texts() == (Seq::<char>::empty(), Seq::<char>::empty(), Seq::<char>::empty()),
    {
        StatusLine::Top(String::new(), String::new(), String::new())
    }

    /// An empty bar for the bottom of the screen.
    pub fn bottom() -> (line: StatusLine)
        ensures
            !line.is_top(),
            line.texts() == (Seq::<char>::empty(), Seq::<char>::empty(), Seq::<char>::empty()),
    {
        StatusLine::Bottom(String::new(), String::new(), String::new())
    }

    /// Empties the three texts.
    pub fn clear(&mut self)
        ensures
            final(self).is_top() == old(self).is_top(),
            final(self).texts() == (
                Seq::<char>::empty(),
                Seq::<char>::empty(),
                Seq::<char>::empty(),
            ),
    {
        let top = match self {
            StatusLine::Top(_, _, _) => true,
            StatusLine::Bottom(_, _, _) => false,
        };
        if top {
            *self = StatusLine::Top(String::new(), String::new(), String::new());
        } else {
            *self = StatusLine::Bottom(String::new(), String::new(), String::new());
        }
    }

    /// The left, middle and right text.
    pub fn unwrap(&self) -> (texts: [&str; 3])
        ensures
            texts[0]@ == self.texts().0,
            texts[1]@ == self.texts().1,
            texts[2]@ == self.texts().2,
    {
        match self {
            StatusLine::Top(left, middle, right) => [
                left.as_str(),
                middle.as_str(),
                right.as_str(),
            ],
            StatusLine::Bottom(left, middle, right) => [
                left.as_str(),
                middle.as_str(),
                right.as_str(),
            ],
        }
    }

    /// Adds a text to the end of each of the three texts.
    pub fn write(&mut self, left: &str, middle: &str, right: &str)
        ensures
            final(self).is_top() == old(self).is_top(),
            final(self).texts() == (
                old(self).texts().0 + left@,
                old(self).texts().1 + middle@,
                old(self).texts().2 + right@,
            ),
    {
        match self {
            StatusLine::Top(l, m, r) => {
                l.append(left);
                m.append(middle);
                r.append(right);
            },
            StatusLine::Bottom(l, m, r) => {
                l.append(left);
                m.append(middle);
                r.append(right);
            },
        }
    }
}

} // verus!
