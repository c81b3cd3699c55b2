//! Events that the panels report to the main view within one frame, and the
//! relation of a dropped item to the item under it.
use vstd::prelude::*;

verus! {

/// What a panel asks the main view to do; one kind per frame.
#[derive(Debug)]
pub enum Event {
    /// An item (panel, index) was double-clicked.
    Dclicked((usize, usize)),
    /// An item (panel, index) was clicked once.
    Sclicked((usize, usize)),
    /// Leave the current group.
    Back,
    Empty,
}

impl Default for Event {
    fn default() -> (r: Self)
        ensures
            r is Empty,
    {
        Event::Empty
    }
}

/// Two events of one frame can be combined: one of them is empty, or they
/// are a click and a double click on the same item.
pub open spec fn or_defined(a: Event, b: Event) -> bool {
    ||| a is Empty
    ||| b is Empty
    ||| (a matches Event::Sclicked(p) && b matches Event::Dclicked(q) && p == q)
    ||| (a matches Event::Dclicked(p) && b matches Event::Sclicked(q) && p == q)
}

/// The event that remains: the non-empty one, the double click over the
/// click.
pub open spec fn or_result(a: Event, b: Event) -> Event {
    match a {
        Event::Empty => b,
        Event::Sclicked(p) => match b {
            Event::Dclicked(q) => if p == q {
                b
            } else {
                a
            },
            _ => a,
        },
        _ => a,
    }
}

impl Event {
    pub fn is_empty(&self) -> (r: bool)
        ensures
            r == (self is Empty),
    {
        match self {
            Event::Empty => true,
            _ => false,
        }
    }

    /// Folds another event of the same frame into `self`. Two unrelated
    /// events in one frame break the assumption the view is built on; that
    /// case is left out.
    pub fn or(&mut self, event: Event)
        requires
            or_defined(*old(self), event),
        ensures
            *final(self) == or_result(*old(self), event),
    {
        let replace = match (&*self, &event) {
            (Event::Empty, _) => true,
            (Event::Sclicked((pidx1, iidx1)), Event::Dclicked((pidx2, iidx2))) => *pidx1 == *pidx2
                && *iidx1 == *iidx2,
            _ => false,
        };
        if replace {
            *self = event;
        }
    }
}

/// Laws of `or`: the empty event is neutral on both sides, and two events
/// that can be combined give the same result in either order.
pub proof fn lemma_or_laws(a: Event, b: Event)
    ensures
        or_result(Event::Empty, b) == b,
        or_result(a, Event::Empty) == a,
        or_defined(a, b) == or_defined(b, a),
        or_defined(a, b) ==> or_result(a, b) == or_result(b, a),
{
}

/// Where a dropped item lands relative to the item under the pointer.
#[derive(Debug, Clone, Copy, PartialEq, Eq, Structural)]
pub enum Position {
    Before,
    Middle,
    Behind,
}

} // verus!
