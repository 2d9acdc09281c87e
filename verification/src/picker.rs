//! Choosing a file: which entry of a directory is selected, and what a key
//! does to the selection.

use crate::message::Key;
use vstd::prelude::*;

verus! {

/// What an entry of a directory is.
#[derive(Copy, Clone, Debug, PartialEq, Eq, Structural)]
pub enum EntryKind {
    File,
    Dir,
    Other,
}

/// What is to be done after a key.
#[derive(Copy, Clone, Debug, PartialEq, Eq, Structural)]
pub enum Choice {
    /// Nothing but to show the selection.
    Stay,
    /// The file at this place among the entries is to be opened.
    Open(usize),
    /// The directory at this place among the entries is to be shown.
    Enter(usize),
    /// The directory that was shown before this one is to be shown again.
    Leave,
}

/// The place of the entry that is selected after `key`, and what is to be
/// done, where the entry at `selected` was selected among entries of the
/// given kinds, `depth` directories deep into the ones that were entered.
///
/// Up and Down move the selection and wrap around at the ends. Enter opens a
/// file and enters a directory. Escape leaves a directory, unless it is the
/// one that the choosing started in. A directory that is entered or left is
/// shown with its first entry selected.
pub open spec fn picked(selected: nat, kinds: Seq<EntryKind>, depth: nat, key: Key) -> (
    nat,
    Choice,
) {
    match key {
        Key::Up => if kinds.len() == 0 {
            (selected, Choice::Stay)
        } else if selected == 0 {
            ((kinds.len() - 1) as nat, Choice::Stay)
        } else {
            ((selected - 1) as nat, Choice::Stay)
        },
        Key::Down => if kinds.len() == 0 {
            (selected, Choice::Stay)
        } else if selected + 1 >= kinds.len() {
            (0, Choice::Stay)
        } else {
            (selected + 1, Choice::Stay)
        },
        Key::Enter => if selected < kinds.len() {
            match kinds[selected as int] {
                EntryKind::File => (selected, Choice::Open(selected as usize)),
                EntryKind::Dir => (0, Choice::Enter(selected as usize)),
                EntryKind::Other => (selected, Choice::Stay),
            }
        } else {
            (selected, Choice::Stay)
        },
        Key::Esc => if depth > 1 {
            (0, Choice::Leave)
        } else {
            (selected, Choice::Stay)
        },
        _ => (selected, Choice::Stay),
    }
}

/// The place of the entry that is selected after `key`, and what is to be
/// done.
pub fn pick(selected: usize, kinds: &Vec<EntryKind>, depth: usize, key: Key) -> (next: (
    usize,
    Choice,
))
    ensures
        next.0 == picked(selected as nat, kinds@, depth as nat, key).0,
        next.1 == picked(selected as nat, kinds@, depth as nat, key).1,
        selected < kinds@.len() ==> next.0 < kinds@.len(),
{
    let count = kinds.len();
    match key {
        Key::Up => {
            if count == 0 {
                (selected, Choice::Stay)
            } else if selected == 0 {
                (count - 1, Choice::Stay)
            } else {
                (selected - 1, Choice::Stay)
            }
        },
        Key::Down => {
            if count == 0 {
                (selected, Choice::Stay)
            } else if selected >= count - 1 {
                (0, Choice::Stay)
            } else {
                (selected + 1, Choice::Stay)
            }
        },
        Key::Enter => {
            if selected < count {
                match kinds[selected] {
                    EntryKind::File => (selected, Choice::Open(selected)),
                    EntryKind::Dir => (0, Choice::Enter(selected)),
                    EntryKind::Other => (selected, Choice::Stay),
                }
            } else {
                (selected, Choice::Stay)
            }
        },
        Key::Esc => {
            if depth > 1 {
                (0, Choice::Leave)
            } else {
                (selected, Choice::Stay)
            }
        },
        _ => (selected, Choice::Stay),
    }
}

} // verus!
