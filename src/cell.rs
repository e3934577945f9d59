use vstd::prelude::*;

verus! {

/// A container that holds at most one value; ownership moves in with
/// `replace` and out with `take`.
pub struct SharedCell<T> {
    slot: Option<T>,
}

/// Contents of a cell after `replace(x)` was attempted on contents `s`.
pub open spec fn replaced<T>(s: Option<T>, x: T) -> Option<T> {
    match s {
        Some(v) => Some(v),
        None => Some(x),
    }
}

/// What `take` returns from a cell with contents `s`, and what the cell
/// holds afterwards.
pub open spec fn taken<T>(s: Option<T>) -> (Option<T>, Option<T>) {
    (s, None)
}

impl<T> SharedCell<T> {
    /// What the cell holds.
    pub closed spec fn contents(&self) -> Option<T> {
        self.slot
    }

    /// An empty cell.
    pub fn empty() -> (r: SharedCell<T>)
        ensures
            r.contents() is None,
    {
        SharedCell { slot: None }
    }

    /// A cell that holds `x`.
    pub fn new(x: T) -> (r: SharedCell<T>)
        ensures
            r.contents() == Some(x),
    {
        SharedCell { slot: Some(x) }
    }

    /// Whether the cell holds nothing.
    pub fn is_empty(&self) -> (r: bool)
        ensures
            r == self.contents() is None,
    {
        self.slot.is_none()
    }

    /// Removes and returns the held value, leaving the cell empty.
    pub fn take(&mut self) -> (r: Option<T>)
        ensures
            (r, final(self).contents()) == taken(old(self).contents()),
    {
        let mut out: Option<T> = None;
        std::mem::swap(&mut out, &mut self.slot);
        out
    }

    /// Puts `x` into an empty cell. A full cell is left as it was and `x`
    /// is handed back.
    pub fn replace(&mut self, x: T) -> (r: Result<(), T>)
        ensures
            final(self).contents() == replaced(old(self).contents(), x),
            old(self).contents() is None ==> r is Ok,
            old(self).contents() is Some ==> r == Err::<(), T>(x),
    {
        if self.slot.is_some() {
            Err(x)
        } else {
            self.slot = Some(x);
            Ok(())
        }
    }
}

/// Taking after a successful `replace(x)` (one made on an empty cell)
/// yields exactly `x`, and a second take without a `replace` between finds
/// the cell empty.
pub proof fn lemma_take_after_replace<T>(s: Option<T>, x: T)
    requires
        s is None,
    ensures
        taken(replaced(s, x)).0 == Some(x),
        taken(taken(replaced(s, x)).1).0 is None,
{
}

} // verus!
