//! The selection state of a list that a user steps through, as a record
//! browser shows it.
use vstd::prelude::*;

verus! {

/// A list of items with at most one selected item
pub struct StatefulList<T> {
    pub selected: Option<usize>,
    pub items: Vec<T>,
}

impl<T> StatefulList<T> {
    /// A list of the given items with nothing selected
    pub fn with_items(items: Vec<T>) -> (r: StatefulList<T>)
        ensures
            r.selected is None,
            r.items@ == items@,
    {
        StatefulList { selected: None, items }
    }

    /// Select the next item, wrapping from the last to the first; with
    /// nothing selected, select the first.
    pub fn next(&mut self)
        requires
            old(self).selected is Some ==> old(self).items@.len() > 0,
        ensures
            final(self).items@ == old(self).items@,
            final(self).selected == Some(
                match old(self).selected {
                    Some(i) => if i >= old(self).items@.len() - 1 {
                        0usize
                    } else {
                        (i + 1) as usize
                    },
                    None => 0usize,
                },
            ),
    {
        let i = match self.selected {
            Some(i) => {
                if i >= self.items.len() - 1 {
                    0
                } else {
                    i + 1
                }
            },
            None => 0,
        };
        self.selected = Some(i);
    }

    /// Select the previous item, wrapping from the first to the last; with
    /// nothing selected, select the first.
    pub fn previous(&mut self)
        requires
            old(self).selected is Some ==> old(self).items@.len() > 0,
        ensures
            final(self).items@ == old(self).items@,
            final(self).selected == Some(
                match old(self).selected {
                    Some(i) => if i == 0 {
                        (old(self).items@.len() - 1) as usize
                    } else {
                        (i - 1) as usize
                    },
                    None => 0usize,
                },
            ),
    {
        let i = match self.selected {
            Some(i) => {
                if i == 0 {
                    self.items.len() - 1
                } else {
                    i - 1
                }
            },
            None => 0,
        };
        self.selected = Some(i);
    }

    /// Select nothing
    pub fn unselect(&mut self)
        ensures
            final(self).items@ == old(self).items@,
            final(self).selected is None,
    {
        self.selected = None;
    }
}

} // verus!
