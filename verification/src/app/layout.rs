//! Widths of the review screen's panes.

use crate::ui::style;
use vstd::prelude::*;

verus! {

pub const TREE_RESIZE_STEP: u16 = 4;

pub const MIN_MANUAL_TREE_WIDTH: u16 = 16;

pub const MIN_DIFF_WIDTH: u16 = 60;

/// The widest tree that leaves the diff its columns.
pub open spec fn diff_cap(available: u16) -> int {
    style::most(available - MIN_DIFF_WIDTH, 1)
}

/// The share of the screen that an automatic tree may take.
pub open spec fn fraction_cap(available: u16) -> int {
    if available < 120 {
        available as int / 3
    } else {
        style::at_most_u16(available * 2) as int / 5
    }
}

/// Columns of the tree: what was chosen by hand, else what its content asks for,
/// within limits.
pub open spec fn tree_columns(preferred: u16, manual: Option<u16>, available: u16) -> int {
    match manual {
        Some(w) => style::least(
            style::most(w as int, MIN_MANUAL_TREE_WIDTH as int),
            diff_cap(available),
        ),
        None => style::least(
            style::most(preferred as int, 26),
            style::least(72, style::least(fraction_cap(available), diff_cap(available))),
        ),
    }
}

fn cap(available: u16) -> (r: u16)
    ensures
        r == diff_cap(available),
{
    let w: u16 = available.saturating_sub(MIN_DIFF_WIDTH);
    if w < 1 {
        1
    } else {
        w
    }
}

fn smaller(a: u16, b: u16) -> (r: u16)
    ensures
        r == style::least(a as int, b as int),
{
    if a <= b {
        a
    } else {
        b
    }
}

fn larger(a: u16, b: u16) -> (r: u16)
    ensures
        r == style::most(a as int, b as int),
{
    if a >= b {
        a
    } else {
        b
    }
}

pub fn adaptive_tree_width(preferred: u16, manual: Option<u16>, available: u16) -> (r: u16)
    ensures
        r == tree_columns(preferred, manual, available),
{
    let widest: u16 = cap(available);
    match manual {
        Some(w) => smaller(larger(w, MIN_MANUAL_TREE_WIDTH), widest),
        None => {
            let fraction: u16 = if available < 120 {
                available / 3
            } else {
                available.saturating_add(available) / 5
            };
            smaller(larger(preferred, 26), smaller(72, smaller(fraction, widest)))
        },
    }
}

/// How a resize went.
#[derive(Clone, Copy, Debug, PartialEq, Eq, Structural)]
pub enum TreeResizeResult {
    Changed(u16),
    AtMinimum,
    AtMaximum,
    TerminalTooNarrow,
}

/// The outcome of one resize step.
pub open spec fn resize_step(preferred: u16, manual: Option<u16>, available: u16, wider: bool) -> TreeResizeResult {
    let current = tree_columns(preferred, manual, available);
    if diff_cap(available) < MIN_MANUAL_TREE_WIDTH {
        TreeResizeResult::TerminalTooNarrow
    } else if wider && current >= diff_cap(available) {
        TreeResizeResult::AtMaximum
    } else if !wider && current <= MIN_MANUAL_TREE_WIDTH {
        TreeResizeResult::AtMinimum
    } else {
        let requested = if wider {
            style::at_most_u16(current + TREE_RESIZE_STEP)
        } else {
            style::at_least_zero(current - TREE_RESIZE_STEP) as u16
        };
        TreeResizeResult::Changed(tree_columns(preferred, Some(requested), available) as u16)
    }
}

pub fn resized_tree_width(preferred: u16, manual: Option<u16>, available: u16, wider: bool) -> (r:
    TreeResizeResult)
    ensures
        r == resize_step(preferred, manual, available, wider),
{
    let widest: u16 = cap(available);
    if widest < MIN_MANUAL_TREE_WIDTH {
        return TreeResizeResult::TerminalTooNarrow;
    }
    let current: u16 = adaptive_tree_width(preferred, manual, available);
    if wider && current >= widest {
        return TreeResizeResult::AtMaximum;
    }
    if !wider && current <= MIN_MANUAL_TREE_WIDTH {
        return TreeResizeResult::AtMinimum;
    }
    let requested: u16 = if wider {
        current.saturating_add(TREE_RESIZE_STEP)
    } else {
        current.saturating_sub(TREE_RESIZE_STEP)
    };
    TreeResizeResult::Changed(adaptive_tree_width(preferred, Some(requested), available))
}

/// What is said of a resize that changed nothing.
pub open spec fn resize_message(result: TreeResizeResult) -> Option<Seq<char>> {
    match result {
        TreeResizeResult::Changed(_) => None,
        TreeResizeResult::AtMinimum => Some("tree is already at minimum width"@),
        TreeResizeResult::AtMaximum => Some("tree is already at maximum width"@),
        TreeResizeResult::TerminalTooNarrow => Some("terminal too narrow to resize panes"@),
    }
}

pub fn resize_notice(result: TreeResizeResult) -> (r: Option<&'static str>)
    ensures
        (match r { Some(s) => Some(s@), None => None }) == resize_message(result),
{
    match result {
        TreeResizeResult::Changed(_) => None,
        TreeResizeResult::AtMinimum => Some("tree is already at minimum width"),
        TreeResizeResult::AtMaximum => Some("tree is already at maximum width"),
        TreeResizeResult::TerminalTooNarrow => Some("terminal too narrow to resize panes"),
    }
}

/// The tree never takes the diff's columns: on a screen that has room for both,
/// the diff keeps its least width.
pub proof fn lemma_diff_keeps_its_space(preferred: u16, manual: Option<u16>, available: u16)
    requires
        available > MIN_DIFF_WIDTH,
    ensures
        available - tree_columns(preferred, manual, available) >= MIN_DIFF_WIDTH,
{
}

/// A resize moves the width in the direction asked for, by no more than one
/// step, and never past its limits.
pub proof fn lemma_resize_moves_towards(preferred: u16, manual: Option<u16>, available: u16, wider: bool)
    ensures
        ({
            let current = tree_columns(preferred, manual, available);
            resize_step(preferred, manual, available, wider) matches TreeResizeResult::Changed(w)
                ==> if wider {
                current < w && w <= diff_cap(available) && (w <= current + TREE_RESIZE_STEP || w
                    == MIN_MANUAL_TREE_WIDTH)
            } else {
                w < current && w >= MIN_MANUAL_TREE_WIDTH && w >= current - TREE_RESIZE_STEP
            }
        }),
{
}

} // verus!
