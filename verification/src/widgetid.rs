//! Walk-order widget identifiers.
//!
//! Ids are assigned by a depth-first walk of the widget tree
//! (see [`crate::widget`]): every widget's children receive consecutive
//! ids first, and the widget itself receives the next id after all of its
//! descendants. A widget's id is therefore the maximum id in its own
//! subtree, and "does id `x` lie in the subtree rooted at `w`" is a pair
//! of comparisons against `w`'s first-descendant id and own id.

use vstd::prelude::*;

verus! {

/// An opaque, comparable widget identifier.
#[derive(Clone, Copy, Debug, PartialEq, Eq, Structural, Hash)]
pub struct WidgetId(pub u32);

impl WidgetId {
    /// The id given to widgets before any assignment walk has run.
    pub fn unassigned() -> (r: WidgetId)
        ensures
            r == WidgetId(0),
    {
        WidgetId(0)
    }
}

/// Does `candidate` lie in the id range of the subtree whose root owns
/// `ancestor_id` and whose first assigned id is `first_id`?
pub open spec fn spec_id_in_range(first_id: WidgetId, ancestor_id: WidgetId, candidate: WidgetId) -> bool {
    first_id.0 <= candidate.0 <= ancestor_id.0
}

/// Subtree containment test: `candidate` belongs to the subtree of the
/// widget owning `ancestor_id` if and only if it lies between the
/// subtree's first assigned id and the ancestor's own (maximum) id.
pub fn id_in_range(first_id: WidgetId, ancestor_id: WidgetId, candidate: WidgetId) -> (r: bool)
    ensures
        r == spec_id_in_range(first_id, ancestor_id, candidate),
{
    first_id.0 <= candidate.0 && candidate.0 <= ancestor_id.0
}

} // verus!
