use vstd::prelude::*;

use crate::element::ElementRef;

verus! {

/// A tree-lifecycle notification, as far as the listener needs to know it.
#[derive(Clone, Debug, PartialEq, Eq)]
pub enum TreeEvent {
    /// A document finished loading; the handle is its root.
    DocumentLoaded(ElementRef),
    /// Any other kind of event.
    Other,
    /// The stream reported an error instead of an event.
    StreamError,
}

/// What the listener does with one notification.
#[derive(Clone, Debug, PartialEq, Eq)]
pub enum Reaction {
    /// Start an independent walk from this root.
    StartWalk(ElementRef),
    /// Report the event and go on listening.
    Ignore,
}

pub fn react(event: TreeEvent) -> (r: Reaction)
    ensures
        event is DocumentLoaded ==> r == Reaction::StartWalk(event->DocumentLoaded_0),
        !(event is DocumentLoaded) ==> r == Reaction::Ignore,
{
    match event {
        TreeEvent::DocumentLoaded(root) => Reaction::StartWalk(root),
        _ => Reaction::Ignore,
    }
}

} // verus!
