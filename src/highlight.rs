use vstd::prelude::*;

use crate::element::ElementRef;

verus! {

/// The highlight set shown after a walk result is delivered: an empty result
/// is ignored, any other replaces what was shown.
pub open spec fn after_delivery(
    shown: Option<Seq<ElementRef>>,
    set: Seq<ElementRef>,
) -> Option<Seq<ElementRef>> {
    if set.len() == 0 {
        shown
    } else {
        Some(set)
    }
}

/// The render side of the highlight inbox: the one highlight set currently
/// on display, if any has arrived yet.
pub struct Highlights {
    current: Option<Vec<ElementRef>>,
}

impl Highlights {
    pub closed spec fn shown(&self) -> Option<Seq<ElementRef>> {
        match self.current {
            Some(v) => Some(v@),
            None => None,
        }
    }

    pub fn new() -> (h: Highlights)
        ensures
            h.shown() is None,
    {
        Highlights { current: None }
    }

    /// Takes one walk result from the inbox.
    pub fn deliver(&mut self, set: Vec<ElementRef>)
        ensures
            final(self).shown() == after_delivery(old(self).shown(), set@),
    {
        if set.len() > 0 {
            self.current = Some(set);
        }
    }

    /// Applies one non-blocking poll of the inbox: `None` when nothing was
    /// waiting, which keeps the current set.
    pub fn poll(&mut self, received: Option<Vec<ElementRef>>)
        ensures
            received is None ==> final(self).shown() == old(self).shown(),
            received is Some ==> final(self).shown() == after_delivery(
                old(self).shown(),
                received->Some_0@,
            ),
    {
        match received {
            Some(set) => self.deliver(set),
            None => {},
        }
    }

    /// The set to paint this frame.
    pub fn current(&self) -> (r: Option<&Vec<ElementRef>>)
        ensures
            r is None <==> self.shown() is None,
            r is Some ==> self.shown() == Some(r->Some_0@),
    {
        match &self.current {
            Some(v) => Some(v),
            None => None,
        }
    }
}

/// Delivering an empty result leaves the displayed set as it was.
pub proof fn lemma_empty_delivery_keeps(shown: Option<Seq<ElementRef>>)
    ensures
        after_delivery(shown, Seq::<ElementRef>::empty()) == shown,
{
}

/// Of two results delivered in sequence, the second is displayed when it is
/// not empty, whatever was shown before and whatever the first one held.
pub proof fn lemma_last_delivery_wins(
    shown: Option<Seq<ElementRef>>,
    first: Seq<ElementRef>,
    second: Seq<ElementRef>,
)
    requires
        second.len() > 0,
    ensures
        after_delivery(after_delivery(shown, first), second) == Some(second),
{
}

} // verus!
