//! The bars that are drawn around panes, with a junction wherever a bar
//! between two panes meets them.

use crate::text::string_push;
use vstd::prelude::*;

verus! {

/// Whether cell `i` of a bar of `length` cells holds a junction, where the
/// bar runs along `parts` panes of equal size: the last cell of every pane
/// but the last pane does.
pub open spec fn is_junction(i: int, length: int, parts: int) -> bool {
    let interval = length / parts;
    parts > 1 && interval > 0 && 0 <= i < (parts - 1) * interval && i % interval == interval - 1
}

/// Whether a bar of `length` cells can be drawn along `parts` panes: there is
/// a pane, and if there are more, each has a cell of the bar.
pub open spec fn can_divide(length: int, parts: int) -> bool {
    parts == 1 || 1 < parts <= length
}

/// The cell of an upright bar: plain, or with a junction to its left, to its
/// right, or to both sides.
pub open spec fn upright(left: bool, right: bool) -> char {
    if left && right {
        '┼'
    } else if left {
        '┤'
    } else if right {
        '├'
    } else {
        '│'
    }
}

/// The cell of a level bar: plain, or with a junction above it, below it, or
/// both.
pub open spec fn level(up: bool, down: bool) -> char {
    if up && down {
        '┼'
    } else if up {
        '┴'
    } else if down {
        '┬'
    } else {
        '─'
    }
}

/// For each cell of a bar of `length` cells along `parts` panes, whether it
/// holds a junction.
pub fn junctions(length: u16, parts: u16) -> (marks: Vec<bool>)
    requires
        can_divide(length as int, parts as int),
    ensures
        marks@.len() == length,
        forall|i: int|
            0 <= i < length ==> marks@[i] == is_junction(i, length as int, parts as int),
{
    let interval: u16 = length / parts;
    let mut marks: Vec<bool> = Vec::new();
    let mut i: u16 = 0;
    let mut pane: u32 = 1;
    let mut within: u16 = 0;
    while i < length
        invariant
            can_divide(length as int, parts as int),
            interval == length as int / parts as int,
            0 <= i <= length,
            marks@.len() == i,
            forall|j: int| 0 <= j < i ==> marks@[j] == is_junction(j, length as int, parts as int),
            interval > 0 ==> i == (pane - 1) * interval + within && within < interval,
            interval > 0 ==> 1 <= pane <= i + 1,
        decreases length - i,
    {
        let mark = parts > 1 && interval > 0 && pane < parts as u32 && within == interval - 1;
        proof {
            if interval > 0 {
                lemma_cell_of_pane(i as int, interval as int, pane as int, within as int);
                assert(i < (parts - 1) * interval <==> pane < parts) by (nonlinear_arith)
                    requires
                        i == (pane - 1) * interval + within,
                        0 <= within < interval,
                        pane >= 1,
                        parts >= 1,
                ;
            }
        }
        marks.push(mark);
        if interval > 0 {
            if within == interval - 1 {
                proof {
                    assert(pane * interval == (pane - 1) * interval + interval)
                        by (nonlinear_arith);
                    assert((pane - 1) * interval >= pane - 1) by (nonlinear_arith)
                        requires
                            interval >= 1,
                            pane >= 1,
                    ;
                }
                within = 0;
                pane = pane + 1;
            } else {
                within = within + 1;
            }
        }
        i = i + 1;
    }
    marks
}

/// A cell that lies `within` cells into pane number `pane`, counted from
/// one, of panes that are `interval` cells long, has `within` as its rest.
pub proof fn lemma_cell_of_pane(i: int, interval: int, pane: int, within: int)
    requires
        interval > 0,
        pane >= 1,
        0 <= within < interval,
        i == (pane - 1) * interval + within,
    ensures
        i % interval == within,
{
    assert(((pane - 1) * interval + within) % interval == within) by (nonlinear_arith)
        requires
            interval > 0,
            pane >= 1,
            0 <= within < interval,
    ;
}

/// An upright bar of `down` cells, between `lefts` panes on its left and
/// `rights` panes on its right, from top to bottom.
pub fn vbar(down: u16, lefts: u16, rights: u16) -> (bar: String)
    requires
        can_divide(down as int, lefts as int),
        can_divide(down as int, rights as int),
    ensures
        bar@.len() == down,
        forall|i: int|
            0 <= i < down ==> bar@[i] == upright(
                is_junction(i, down as int, lefts as int),
                is_junction(i, down as int, rights as int),
            ),
{
    let left = junctions(down, lefts);
    let right = junctions(down, rights);
    let mut bar = String::new();
    let mut i: usize = 0;
    while i < down as usize
        invariant
            left@.len() == down,
            right@.len() == down,
            0 <= i <= down,
            bar@.len() == i,
            forall|j: int| 0 <= j < i ==> bar@[j] == upright(left@[j], right@[j]),
        decreases down - i,
    {
        let c = if left[i] && right[i] {
            '┼'
        } else if left[i] {
            '┤'
        } else if right[i] {
            '├'
        } else {
            '│'
        };
        string_push(&mut bar, c);
        i = i + 1;
    }
    bar
}

/// A level bar of `right` cells, between `ups` panes above it and `downs`
/// panes below it, from left to right.
pub fn hbar(right: u16, ups: u16, downs: u16) -> (bar: String)
    requires
        can_divide(right as int, ups as int),
        can_divide(right as int, downs as int),
    ensures
        bar@.len() == right,
        forall|i: int|
            0 <= i < right ==> bar@[i] == level(
                is_junction(i, right as int, ups as int),
                is_junction(i, right as int, downs as int),
            ),
{
    let up = junctions(right, ups);
    let down = junctions(right, downs);
    let mut bar = String::new();
    let mut i: usize = 0;
    while i < right as usize
        invariant
            up@.len() == right,
            down@.len() == right,
            0 <= i <= right,
            bar@.len() == i,
            forall|j: int| 0 <= j < i ==> bar@[j] == level(up@[j], down@[j]),
        decreases right - i,
    {
        let c = if up[i] && down[i] {
            '┼'
        } else if up[i] {
            '┴'
        } else if down[i] {
            '┬'
        } else {
            '─'
        };
        string_push(&mut bar, c);
        i = i + 1;
    }
    bar
}

} // verus!
