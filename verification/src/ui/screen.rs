//! Overlay modes, sort keys and the scroll position of the main table.

use vstd::prelude::*;
use crate::data::state::DataState;
use crate::ui::viewport::{compute_viewport, viewport_after};

verus! {

/// The overlay that has the keyboard.
#[derive(Clone, Copy, Debug, PartialEq, Eq, Structural)]
pub enum DisplayMode {
    /// Browsing the tables.
    View,
    /// Typing into the filter box.
    Filter,
    /// Reading the help popup.
    Help,
    /// Choosing a sort key or direction.
    Sort,
}

impl Default for DisplayMode {
    fn default() -> (mode: DisplayMode)
        ensures
            mode == DisplayMode::View,
    {
        DisplayMode::View
    }
}

/// The field by which the tables are ordered.
#[derive(Clone, Copy, Debug, PartialEq, Eq, Structural)]
pub enum OrderBy {
    Size,
    Name,
    Version,
}

impl Default for OrderBy {
    fn default() -> (order: OrderBy)
        ensures
            order == OrderBy::Size,
    {
        OrderBy::Size
    }
}

/// What the screen keeps between two drawings.
#[derive(Clone, Copy, Debug, PartialEq, Eq, Structural)]
pub struct Screen {
    pub mode: DisplayMode,
    /// The first row of the main table that is shown.
    pub viewport_start: usize,
}

impl Screen {
    /// The screen at the start: browsing, from the top.
    pub fn default() -> (screen: Screen)
        ensures
            screen.mode == DisplayMode::View,
            screen.viewport_start == 0,
    {
        Screen { mode: DisplayMode::View, viewport_start: 0 }
    }

    /// Takes the filter off: every entry is listed again, from the first row.
    pub fn clear_filter(&mut self, state: &mut DataState)
        ensures
            *final(self) == *old(self),
            final(state)@ == old(state)@.with_filter(Seq::empty()),
    {
        state.set_filter(String::new());
    }

    /// Lists by the text of the filter box, from the first row.
    pub fn filter(&mut self, state: &mut DataState, text: &str)
        ensures
            *final(self) == *old(self),
            final(state)@ == old(state)@.with_filter(text@),
    {
        state.set_filter(text.to_owned());
    }

    /// Moves the window of the main table after the selection, for a table
    /// that shows `visible_rows` rows.
    pub fn track(&mut self, state: &DataState, visible_rows: usize)
        ensures
            final(self).mode == old(self).mode,
            final(self).viewport_start == viewport_after(
                state@.selected_index as int,
                old(self).viewport_start as int,
                visible_rows as int,
            ),
    {
        let selected = state.selected_index();
        let current = state.level1_deps();
        assert(selected < usize::MAX) by {
            crate::data::filter::lemma_filtered_pass(state@.current, state@.filter);
            assert(current.deep_view().len() == current.len());
        }
        self.viewport_start = compute_viewport(selected, self.viewport_start, visible_rows);
    }
}

} // verus!
