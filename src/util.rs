//! A list with an optional highlighted position.
use vstd::prelude::*;

verus! {

/// The position that follows `sel` in a list of `len` items, wrapping to the
/// start after the last item.
pub open spec fn next_index(sel: Option<usize>, len: nat) -> usize {
    match sel {
        Some(i) => if i + 1 >= len { 0 } else { (i + 1) as usize },
        None => 0,
    }
}

/// The position that precedes `sel` in a list of `len` items, wrapping to the
/// end before the first item.
pub open spec fn previous_index(sel: Option<usize>, len: nat) -> usize {
    match sel {
        Some(i) => if i == 0 { (len - 1) as usize } else { (i - 1) as usize },
        None => 0,
    }
}

#[derive(Debug)]
pub struct StatefulList<T> {
    pub state: Option<usize>,
    pub items: Vec<T>,
}

impl<T> StatefulList<T> {
    pub fn with_items(items: Vec<T>) -> (r: StatefulList<T>)
        ensures
            r.items == items,
            r.state is None,
    {
        StatefulList { state: None, items }
    }

    pub fn selected(&self) -> (r: Option<usize>)
        ensures
            r == self.state,
    {
        self.state
    }

    /// Moves the highlight one item down, wrapping around; does nothing on an
    /// empty list.
    pub fn next(&mut self)
        ensures
            final(self).items == old(self).items,
            old(self).items@.len() == 0 ==> final(self).state == old(self).state,
            old(self).items@.len() > 0 ==> final(self).state == Some(
                next_index(old(self).state, old(self).items@.len()),
            ),
    {
        if self.items.len() == 0 {
            return ;
        }
        let i = match self.state {
            Some(i) => if i >= self.items.len() - 1 {
                0
            } else {
                i + 1
            },
            None => 0,
        };
        self.state = Some(i);
    }

    /// Moves the highlight one item up, wrapping around; does nothing on an
    /// empty list.
    pub fn previous(&mut self)
        ensures
            final(self).items == old(self).items,
            old(self).items@.len() == 0 ==> final(self).state == old(self).state,
            old(self).items@.len() > 0 ==> final(self).state == Some(
                previous_index(old(self).state, old(self).items@.len()),
            ),
    {
        if self.items.len() == 0 {
            return ;
        }
        let i = match self.state {
            Some(i) => if i == 0 {
                self.items.len() - 1
            } else {
                i - 1
            },
            None => 0,
        };
        self.state = Some(i);
    }

    pub fn reset(&mut self)
        ensures
            final(self).items == old(self).items,
            final(self).state == Some(0usize),
    {
        self.state = Some(0);
    }

    pub fn unselect(&mut self)
        ensures
            final(self).items == old(self).items,
            final(self).state is None,
    {
        self.state = None;
    }
}

/// From a highlight inside a list of `len` items, or none, moving down any
/// number of times never leaves the list.
pub proof fn lemma_next_stays_in_list(sel: Option<usize>, len: nat, steps: nat)
    requires
        len > 0,
        len <= usize::MAX,
        sel is Some ==> sel->0 < len,
    ensures
        iterate_next(sel, len, steps) < len,
    decreases steps,
{
    if steps > 1 {
        lemma_next_stays_in_list(sel, len, (steps - 1) as nat);
    }
}

/// The highlight after moving down `steps` times (at least once) from `sel`.
pub open spec fn iterate_next(sel: Option<usize>, len: nat, steps: nat) -> usize
    decreases steps,
{
    if steps <= 1 {
        next_index(sel, len)
    } else {
        next_index(Some(iterate_next(sel, len, (steps - 1) as nat)), len)
    }
}

} // verus!
