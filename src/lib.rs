//! Decision logic of a live accessibility-tree overlay: an explicit-stack tree
//! walker, the hand-off rule of the highlight inbox, the reaction to tree
//! lifecycle events and the placement of the painted markers.
//!
//! The remote calls themselves (children, visibility, geometry) are performed
//! by the caller, which feeds their answers to the types here.

pub mod element;
pub mod highlight;
pub mod listener;
pub mod marker;
pub mod walk;
