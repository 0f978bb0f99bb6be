//! Window/root composition: a root widget tree paired with its
//! interaction state.
//!
//! A [`Window`] owns one widget tree and one [`Manager`] and drives the
//! two passes the toolkit needs: a resize triggers a fresh id-assignment
//! walk and a full two-phase re-layout with the new available size, and
//! raw input events are routed into the tree by [`dispatch`]. Redraw
//! requests collect in the manager's dirty queue and are handed out once
//! per outer loop iteration; the renderer behind them lives outside this
//! crate.

use vstd::prelude::*;

use crate::event::{Event, PressSource, Response};
use crate::geom::{Coord, Rect, Size};
use crate::manager::{grab_lookup, Manager};
use crate::widget::{
    assign_ids, count_checked, dispatch, ids_sequential, lemma_layout_preserves_ids,
    lemma_layout_preserves_skeleton, lemma_skeleton_size, lemma_skeleton_trans, lemma_skeleton_wf,
    root_id, same_skeleton, set_rect, spec_dispatch_target, spec_send, tree_size, tree_wf,
    WidgetTree,
};
use crate::widgetid::WidgetId;

verus! {

/// The rectangle a window of `size` offers its root: anchored at the
/// origin, each extent clamped to the addressable coordinate range.
pub open spec fn window_rect(size: Size) -> Rect {
    Rect {
        pos: Coord(0, 0),
        size: Size(
            if size.0 <= i32::MAX as u32 {
                size.0
            } else {
                i32::MAX as u32
            },
            if size.1 <= i32::MAX as u32 {
                size.1
            } else {
                i32::MAX as u32
            },
        ),
    }
}

/// A root widget tree tied to its per-window interaction state.
pub struct Window {
    /// The root of the widget tree.
    pub root: WidgetTree,
    /// The window's interaction state machine.
    pub mgr: Manager,
}

impl Window {
    /// Well-formedness: the tree's leaf rules are well-formed and the
    /// tree is small enough for every widget to receive a distinct id.
    pub open spec fn wf(self) -> bool {
        &&& tree_wf(self.root)
        &&& 1 + tree_size(self.root) <= u32::MAX as int
    }

    /// Compose a window around a root widget, with fresh interaction
    /// state.
    pub fn new(root: WidgetTree) -> (w: Window)
        requires
            tree_wf(root),
            1 + tree_size(root) <= u32::MAX as int,
        ensures
            w.root == root,
            w.mgr.grab_seq() == Seq::<(PressSource, WidgetId)>::empty(),
            w.mgr.spec_focus() is None,
            w.mgr.spec_hover() is None,
            w.mgr.spec_dirty() == Seq::<WidgetId>::empty(),
            w.wf(),
    {
        Window { root, mgr: Manager::new() }
    }

    /// Compose a window around a root widget, checking the layout
    /// invariants at run time: refused when a leaf's rules are inverted
    /// (minimum above ideal) or when the tree is too large for every
    /// widget to receive a distinct id.
    pub fn try_new(root: WidgetTree) -> (w: Option<Window>)
        ensures
            match w {
                Some(win) => win.root == root && win.wf() && win.mgr.grab_seq() == Seq::<
                    (PressSource, WidgetId),
                >::empty() && win.mgr.spec_focus() is None && win.mgr.spec_hover() is None
                    && win.mgr.spec_dirty() == Seq::<WidgetId>::empty(),
                None => !(tree_wf(root) && 1 + tree_size(root) <= u32::MAX as int),
            },
    {
        match count_checked(&root, u32::MAX - 1) {
            Some(_) => Some(Window::new(root)),
            None => None,
        }
    }

    /// React to a window resize: re-assign ids by a fresh walk and run
    /// the full two-phase layout pass with the new available size. The
    /// skeleton (shape, rules, behaviors) is untouched; afterwards the
    /// tree's ids are sequential from 1 and routing by containment is
    /// sound.
    pub fn resize(&mut self, size: Size)
        requires
            old(self).wf(),
        ensures
            final(self).wf(),
            final(self).mgr == old(self).mgr,
            same_skeleton(old(self).root, final(self).root),
            ids_sequential(final(self).root, 1),
            root_id(final(self).root).0 as int == tree_size(final(self).root),
    {
        let w: u32 = if size.0 <= i32::MAX as u32 {
            size.0
        } else {
            i32::MAX as u32
        };
        let h: u32 = if size.1 <= i32::MAX as u32 {
            size.1
        } else {
            i32::MAX as u32
        };
        let rect = Rect { pos: Coord(0, 0), size: Size(w, h) };
        let (t1, _) = assign_ids(&self.root, 1);
        let t2 = set_rect(&t1, rect);
        proof {
            lemma_layout_preserves_ids(t1, rect, t2, 1);
            lemma_layout_preserves_skeleton(t1, rect, t2);
            lemma_skeleton_trans(self.root, t1, t2);
            lemma_skeleton_wf(self.root, t2);
            lemma_skeleton_size(self.root, t2);
            crate::widget::lemma_id_containment(t2, 1);
        }
        self.root = t2;
    }

    /// Route one raw input event into the tree: by active grab, by
    /// geometric hit, or to the focus, exactly as [`dispatch`] says; a
    /// press end clears its source's grab after delivery.
    pub fn handle_event(&mut self, event: Event) -> (r: Response<u32>)
        ensures
            final(self).root == old(self).root,
            forall|w: WidgetId|
                old(self).mgr.spec_dirty().contains(w) ==> final(self).mgr.spec_dirty().contains(
                    w,
                ),
            match spec_dispatch_target(old(self).mgr, old(self).root, event) {
                None => {
                    &&& r == Response::<u32>::Unhandled(event)
                    &&& final(self).mgr.grab_seq() == old(self).mgr.grab_seq()
                    &&& final(self).mgr.spec_hover() == old(self).mgr.spec_hover()
                    &&& final(self).mgr.spec_focus() == old(self).mgr.spec_focus()
                },
                Some(target) => {
                    let (rr, hov, foc) = spec_send(old(self).root, target, event);
                    &&& r == rr
                    &&& final(self).mgr.spec_hover() == (match hov {
                        Some(x) => Some(x),
                        None => old(self).mgr.spec_hover(),
                    })
                    &&& final(self).mgr.spec_focus() == (match foc {
                        Some(x) => Some(x),
                        None => old(self).mgr.spec_focus(),
                    })
                    &&& (match event {
                        Event::PressEnd { source, coord } => forall|src: PressSource|
                            #[trigger] grab_lookup(final(self).mgr.grab_seq(), src) == (if src
                                == source {
                                None::<WidgetId>
                            } else {
                                grab_lookup(old(self).mgr.grab_seq(), src)
                            }),
                        _ => final(self).mgr.grab_seq() == old(self).mgr.grab_seq(),
                    })
                },
            },
    {
        dispatch(&mut self.mgr, &self.root, event)
    }

    /// Hand out the widget ids whose visual state changed since the last
    /// flush, clearing the queue: called once per outer loop iteration,
    /// never from inside a dispatch.
    pub fn take_redraws(&mut self) -> (out: Vec<WidgetId>)
        ensures
            out@ == old(self).mgr.spec_dirty(),
            final(self).mgr.spec_dirty() == Seq::<WidgetId>::empty(),
            final(self).mgr.grab_seq() == old(self).mgr.grab_seq(),
            final(self).mgr.spec_focus() == old(self).mgr.spec_focus(),
            final(self).mgr.spec_hover() == old(self).mgr.spec_hover(),
            final(self).root == old(self).root,
    {
        self.mgr.take_dirty()
    }
}

} // verus!
