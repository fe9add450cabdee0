//! Selection state of the interactive menu.
//!
//! Only the state machine lives here: which entry is highlighted and how
//! the selection wraps when moving.  Drawing and key handling stay outside
//! the crate and call in for every move.

use vstd::prelude::*;

verus! {

/// The menu: its entries and the highlighted one, if any.
pub struct App {
    pub items: Vec<String>,
    pub selected: Option<usize>,
}

impl App {
    /// A menu over `items` with nothing selected yet.
    pub fn new(items: Vec<String>) -> (a: App)
        ensures
            a.items == items,
            a.selected is None,
    {
        App { items, selected: None }
    }

    /// Move the selection down one entry, wrapping to the top; with no
    /// selection yet, or one already at or past the last entry, select the
    /// first entry.
    pub fn next(&mut self)
        requires
            old(self).items@.len() > 0,
        ensures
            final(self).items == old(self).items,
            final(self).selected == Some(
                (match old(self).selected {
                    Some(i) => if i + 1 >= old(self).items@.len() {
                        0usize
                    } else {
                        (i + 1) as usize
                    },
                    None => 0usize,
                }),
            ),
    {
        let i: usize = match self.selected {
            Some(i) => {
                if i >= self.items.len() - 1 {
                    0
                } else {
                    i + 1
                }
            },
            None => 0,
        };
        self.selected = Some(i);
    }

    /// Move the selection up one entry, wrapping to the bottom; with no
    /// selection yet, select the first entry.  A selection already past
    /// the end just steps down by one.
    pub fn previous(&mut self)
        requires
            old(self).items@.len() > 0,
        ensures
            final(self).items == old(self).items,
            final(self).selected == Some(
                (match old(self).selected {
                    Some(i) => if i == 0 {
                        (old(self).items@.len() - 1) as usize
                    } else {
                        (i - 1) as usize
                    },
                    None => 0usize,
                }),
            ),
    {
        let i: usize = match self.selected {
            Some(i) => {
                if i == 0 {
                    self.items.len() - 1
                } else {
                    i - 1
                }
            },
            None => 0,
        };
        self.selected = Some(i);
    }
}

} // verus!
