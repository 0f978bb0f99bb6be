//! The typed event and response model.
//!
//! Raw input is delivered to widgets as an [`Event`]; a widget's handler
//! answers with a [`Response`]: consumed, a typed message for the parent,
//! or unhandled (to be reprocessed by an ancestor). The [`Handler`] trait
//! is the authoring surface every interactive widget implements.

use vstd::prelude::*;

use crate::geom::Coord;
use crate::manager::Manager;

verus! {

/// A distinct contact point: a specific mouse button or a specific touch,
/// so that concurrent gestures do not interfere.
#[derive(Clone, Copy, Debug, PartialEq, Eq, Structural, Hash)]
pub enum PressSource {
    /// A mouse button, by button number.
    Mouse(u8),
    /// A touch contact, by touch index.
    Touch(u64),
}

/// An input event delivered to a widget.
#[derive(Clone, Copy, Debug, PartialEq, Eq, Structural)]
pub enum Event {
    /// A press began at `coord`.
    PressStart { source: PressSource, coord: Coord },
    /// A grabbed press moved to `coord`.
    PressMove { source: PressSource, coord: Coord },
    /// A press ended at `coord`.
    PressEnd { source: PressSource, coord: Coord },
    /// A keyboard/control activation of the focused widget.
    Activate,
}

/// The outcome of a widget's event handling.
#[derive(Clone, Copy, Debug, PartialEq, Eq, Structural)]
pub enum Response<M> {
    /// The event was consumed; nothing to report.
    Used,
    /// A typed payload for the parent to translate or act on.
    Msg(M),
    /// The event was not handled here: an ancestor should reprocess it.
    Unhandled(Event),
}

/// The authoring surface of an interactive widget: handle an event
/// addressed to this widget, updating the widget and the interaction
/// state, and report the outcome. The trait itself promises nothing;
/// each implementation states its own exact contract.
pub trait Handler: Sized {
    /// The typed message this widget reports to its parent.
    type Msg;

    /// When is the widget ready to receive `event`? Typically: the widget
    /// is well-formed, and a press event's coordinate lies inside the
    /// widget's rectangle (event delivery guarantees as much).
    spec fn handle_ready(self, event: Event) -> bool;

    /// Handle an event addressed to this widget.
    fn handle(&mut self, mgr: &mut Manager, event: Event) -> Response<Self::Msg>
        requires
            old(self).handle_ready(event),
    ;
}

} // verus!
