//! Per-widget state shared by every node.

use vstd::prelude::*;

use crate::geom::Rect;
use crate::widgetid::WidgetId;

verus! {

/// The state every widget owns: its assigned id and its allocated screen
/// rectangle. The id is written by the id-assignment walk, the rectangle
/// by the layout pass; user code never mutates either directly.
#[derive(Clone, Copy, Debug, PartialEq, Eq, Structural)]
pub struct CoreData {
    /// This widget's walk-order id.
    pub id: WidgetId,
    /// The rectangle the layout pass allocated to this widget.
    pub rect: Rect,
}

impl CoreData {
    /// Core state before any id assignment or layout: id and rectangle
    /// both zero.
    pub fn new() -> (c: CoreData)
        ensures
            c == (CoreData { id: WidgetId(0), rect: Rect::zero_spec() }),
            c.rect.wf(),
    {
        CoreData { id: WidgetId::unassigned(), rect: Rect::zero() }
    }
}

} // verus!
