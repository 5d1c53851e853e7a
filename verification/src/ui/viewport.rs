//! Scroll window tracking for a list taller than the rows on display.

use vstd::prelude::*;

verus! {

/// First visible row after the selection moved to `selected_index`, given the
/// first visible row before the move and the number of rows on display.
pub open spec fn viewport_after(selected_index: int, previous_start: int, visible_height: int) -> int {
    if selected_index < previous_start {
        selected_index
    } else if selected_index >= previous_start + visible_height {
        previous_start + 1
    } else {
        previous_start
    }
}

/// The selection is inside the window that shows `height` rows from `start` on.
pub open spec fn shows(start: int, height: int, selected_index: int) -> bool {
    start <= selected_index < start + height
}

/// A window that moves after each step of the selection keeps the
/// selection inside: if the selection was inside the window, or went up,
/// or went down by one row from inside, it is inside the window afterwards.
pub proof fn law_viewport_follows(selected_index: int, previous_start: int, visible_height: int)
    requires
        visible_height > 0,
        0 <= previous_start,
        0 <= selected_index <= previous_start + visible_height,
    ensures
        shows(viewport_after(selected_index, previous_start, visible_height), visible_height, selected_index),
{
}

/// The window never moves down by more than one row at a time, and never
/// above the selection.
pub proof fn law_viewport_steps(selected_index: int, previous_start: int, visible_height: int)
    requires
        0 <= visible_height,
    ensures
        viewport_after(selected_index, previous_start, visible_height) <= previous_start + 1,
        selected_index < previous_start ==> viewport_after(selected_index, previous_start, visible_height)
            == selected_index,
        shows(previous_start, visible_height, selected_index) ==> viewport_after(
            selected_index,
            previous_start,
            visible_height,
        ) == previous_start,
{
}

/// Moves the window up to the selection when the selection is above it, down
/// by one row when the selection is below it, and leaves it alone otherwise.
pub fn compute_viewport(selected_index: usize, previous_start: usize, visible_height: usize) -> (new_start: usize)
    requires
        selected_index < usize::MAX,
    ensures
        new_start == viewport_after(selected_index as int, previous_start as int, visible_height as int),
{
    if selected_index < previous_start {
        selected_index
    } else if selected_index - previous_start >= visible_height {
        previous_start + 1
    } else {
        previous_start
    }
}

/// The rows left for a table of the given height once its borders and its
/// header are taken off.
pub fn table_rows(height: u16) -> (rows: u16)
    ensures
        rows == if height >= 3 {
            height - 3
        } else {
            0
        },
{
    if height >= 3 {
        height - 3
    } else {
        0
    }
}

/// The rows of a list of `len` rows that a window of `height` rows shows
/// from row `start` on: from the first of the pair up to, not including,
/// the second.
pub fn visible_range(len: usize, start: usize, height: usize) -> (range: (usize, usize))
    ensures
        range.0 == if start <= len {
            start
        } else {
            len
        },
        range.1 == if start + height <= len {
            start + height
        } else {
            len as int
        },
        range.0 <= range.1 <= len,
{
    let from = if start <= len {
        start
    } else {
        len
    };
    let to = if height <= len - from {
        from + height
    } else {
        len
    };
    (from, to)
}

} // verus!
