//! Core of a terminal dashboard for browsing live cluster objects.
//!
//! The crate models cluster resources as plain data, keeps them in a
//! sorted cache fed by watch events, derives display facts (readiness,
//! restarts, phase, age) from them, and runs the event-dispatch protocol
//! of the widget tree. Network transport and terminal rendering stay
//! outside; the crate works on the values they produce and consume.

use vstd::prelude::*;

pub mod addr;
pub mod clock;
pub mod container;
pub mod derive_view;
pub mod model;
pub mod store;
pub mod text;
pub mod widget;

verus! {

/// How a widget answered an input event.
#[derive(Debug, PartialEq, Eq, Structural)]
pub enum Broadcast {
    /// The widget did not act on the event; a sibling or the parent may.
    Ignored,
    /// The widget acted; propagation stops.
    Consumed,
    /// The widget asks its parent to detach it.
    Exited,
}

} // verus!
