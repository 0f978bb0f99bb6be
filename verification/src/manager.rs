//! The per-window interaction state machine.
//!
//! A [`Manager`] tracks the active press grabs (at most one per
//! [`PressSource`], the later request winning), the keyboard-focus widget
//! and the hover/highlight widget. It never draws: every mutation that
//! changes visible state only marks the affected widget ids dirty, and the
//! outer loop flushes the dirty queue to the renderer once per iteration.

use vstd::prelude::*;

use crate::event::{Event, PressSource, Response};
use crate::widgetid::WidgetId;

verus! {

/// A widget's interaction visual state, derived from the [`Manager`].
#[derive(Clone, Copy, Debug, PartialEq, Eq, Structural)]
pub enum HighlightState {
    /// No interaction.
    Idle,
    /// The pointer hovers over the widget.
    Hover,
    /// The widget owns the keyboard focus.
    Focused,
    /// The widget holds an active press grab.
    Pressed,
}

/// Find the holder of the grab for `source` in a grab list: the entry
/// pushed last wins.
pub open spec fn grab_lookup(s: Seq<(PressSource, WidgetId)>, source: PressSource) -> Option<
    WidgetId,
>
    decreases s.len(),
{
    if s.len() == 0 {
        None
    } else if s.last().0 == source {
        Some(s.last().1)
    } else {
        grab_lookup(s.drop_last(), source)
    }
}

/// Does any entry of the grab list bind `id`?
pub open spec fn grab_holds(s: Seq<(PressSource, WidgetId)>, id: WidgetId) -> bool {
    exists|i: int| 0 <= i < s.len() && (#[trigger] s[i]).1 == id
}

/// Per-window interaction state: press grabs, keyboard focus and
/// hover/highlight, plus the queue of widget ids waiting for a redraw.
#[derive(Clone, Debug)]
pub struct Manager {
    grabs: Vec<(PressSource, WidgetId)>,
    focus: Option<WidgetId>,
    hover: Option<WidgetId>,
    dirty: Vec<WidgetId>,
}

impl Manager {
    /// The grab list: at most one binding per source is observable, the
    /// last-pushed entry winning.
    pub closed spec fn grab_seq(self) -> Seq<(PressSource, WidgetId)> {
        self.grabs@
    }

    /// The holder of the grab for `source`, if one is active.
    pub open spec fn spec_grab_of(self, source: PressSource) -> Option<WidgetId> {
        grab_lookup(self.grab_seq(), source)
    }

    /// The keyboard-focus widget, if any.
    pub closed spec fn spec_focus(self) -> Option<WidgetId> {
        self.focus
    }

    /// The hover/highlight widget, if any.
    pub closed spec fn spec_hover(self) -> Option<WidgetId> {
        self.hover
    }

    /// The widget ids marked dirty since the last flush.
    pub closed spec fn spec_dirty(self) -> Seq<WidgetId> {
        self.dirty@
    }

    /// Construct the interaction state of a freshly created window: no
    /// grabs, no focus, no hover, nothing dirty.
    pub fn new() -> (m: Manager)
        ensures
            m.grab_seq() == Seq::<(PressSource, WidgetId)>::empty(),
            m.spec_focus() is None,
            m.spec_hover() is None,
            m.spec_dirty() == Seq::<WidgetId>::empty(),
    {
        Manager { grabs: Vec::new(), focus: None, hover: None, dirty: Vec::new() }
    }

    /// Mark `id` dirty: schedule a redraw of that widget. The queue is
    /// deduplicated; flushing is the outer loop's job.
    pub fn redraw(&mut self, id: WidgetId)
        ensures
            final(self).spec_dirty().contains(id),
            forall|w: WidgetId|
                final(self).spec_dirty().contains(w) <==> (old(self).spec_dirty().contains(w) || w
                    == id),
            final(self).grab_seq() == old(self).grab_seq(),
            final(self).spec_focus() == old(self).spec_focus(),
            final(self).spec_hover() == old(self).spec_hover(),
    {
        let n: usize = self.dirty.len();
        let mut i: usize = 0;
        while i < n
            invariant
                n == self.dirty.len(),
                i <= n,
                forall|j: int| 0 <= j < i ==> self.dirty@[j] != id,
            decreases n - i,
        {
            if self.dirty[i] == id {
                proof {
                    assert(self.dirty@.contains(id)) by {
                        assert(self.dirty@[i as int] == id);
                    }
                }
                return ;
            }
            i = i + 1;
        }
        let ghost d0 = self.dirty@;
        self.dirty.push(id);
        proof {
            assert(self.dirty@.contains(id)) by {
                assert(self.dirty@[d0.len() as int] == id);
            }
            assert forall|w: WidgetId| #[trigger] self.dirty@.contains(w) implies (d0.contains(w)
                || w == id) by {
                let j = choose|j: int| 0 <= j < self.dirty@.len() && self.dirty@[j] == w;
                if j < d0.len() {
                    assert(d0[j] == w);
                }
            }
            assert forall|w: WidgetId| #[trigger] d0.contains(w) implies self.dirty@.contains(
                w,
            ) by {
                let j = choose|j: int| 0 <= j < d0.len() && d0[j] == w;
                assert(self.dirty@[j] == w);
            }
        }
    }

    /// Hand out the dirty queue and clear it: called once per outer loop
    /// iteration to flush redraw requests to the renderer.
    pub fn take_dirty(&mut self) -> (out: Vec<WidgetId>)
        ensures
            out@ == old(self).spec_dirty(),
            final(self).spec_dirty() == Seq::<WidgetId>::empty(),
            final(self).grab_seq() == old(self).grab_seq(),
            final(self).spec_focus() == old(self).spec_focus(),
            final(self).spec_hover() == old(self).spec_hover(),
    {
        let mut out: Vec<WidgetId> = Vec::new();
        core::mem::swap(&mut out, &mut self.dirty);
        out
    }

    /// The keyboard-focus widget, if any.
    pub fn focus(&self) -> (r: Option<WidgetId>)
        ensures
            r == self.spec_focus(),
    {
        self.focus
    }

    /// The hover/highlight widget, if any.
    pub fn hover(&self) -> (r: Option<WidgetId>)
        ensures
            r == self.spec_hover(),
    {
        self.hover
    }

    /// Look up the active grab holder for `source`.
    pub fn grab_of(&self, source: PressSource) -> (r: Option<WidgetId>)
        ensures
            r == self.spec_grab_of(source),
    {
        let mut i: usize = self.grabs.len();
        proof {
            assert(self.grab_seq().subrange(0, i as int) =~= self.grab_seq());
        }
        while i > 0
            invariant
                i <= self.grabs.len(),
                grab_lookup(self.grab_seq(), source) == grab_lookup(
                    self.grab_seq().subrange(0, i as int),
                    source,
                ),
            decreases i,
        {
            i = i - 1;
            if self.grabs[i].0 == source {
                proof {
                    assert(self.grab_seq().subrange(0, i + 1 as int).last() == self.grab_seq()[
                        i as int]);
                }
                return Some(self.grabs[i].1);
            }
            proof {
                assert(self.grab_seq().subrange(0, i + 1 as int).drop_last() =~= self.grab_seq()
                    .subrange(0, i as int));
            }
        }
        proof {
            assert(self.grab_seq().subrange(0, 0).len() == 0);
        }
        None
    }

    /// Remove every grab entry for `source`, keeping the others in order.
    fn remove_grab(&mut self, source: PressSource)
        ensures
            forall|src: PressSource|
                #[trigger] grab_lookup(final(self).grab_seq(), src) == if src == source {
                    None::<WidgetId>
                } else {
                    grab_lookup(old(self).grab_seq(), src)
                },
            forall|id: WidgetId|
                #[trigger] grab_holds(final(self).grab_seq(), id) ==> grab_holds(
                    old(self).grab_seq(),
                    id,
                ),
            final(self).spec_focus() == old(self).spec_focus(),
            final(self).spec_hover() == old(self).spec_hover(),
            final(self).spec_dirty() == old(self).spec_dirty(),
    {
        let n: usize = self.grabs.len();
        let mut kept: Vec<(PressSource, WidgetId)> = Vec::new();
        let mut i: usize = 0;
        while i < n
            invariant
                n == self.grabs.len(),
                i <= n,
                forall|src: PressSource|
                    #[trigger] grab_lookup(kept@, src) == if src == source {
                        None::<WidgetId>
                    } else {
                        grab_lookup(self.grab_seq().subrange(0, i as int), src)
                    },
                forall|k: int|
                    0 <= k < kept@.len() ==> grab_holds(self.grab_seq(), (#[trigger] kept@[k]).1),
            decreases n - i,
        {
            let entry = self.grabs[i];
            proof {
                assert(self.grab_seq().subrange(0, i + 1 as int).drop_last() =~= self.grab_seq()
                    .subrange(0, i as int));
                assert(self.grab_seq().subrange(0, i + 1 as int).last() == self.grab_seq()[i as int]);
            }
            if entry.0 == source {
                // dropped: its source is being released
            } else {
                let ghost k0 = kept@;
                kept.push(entry);
                proof {
                    assert(kept@.drop_last() =~= k0);
                    assert(kept@.last() == entry);
                    assert forall|src: PressSource| #[trigger] grab_lookup(kept@, src)
                        == if src == source {
                        None::<WidgetId>
                    } else {
                        grab_lookup(self.grab_seq().subrange(0, i + 1 as int), src)
                    } by {
                        assert(self.grab_seq().subrange(0, i + 1 as int).drop_last()
                            =~= self.grab_seq().subrange(0, i as int));
                        assert(self.grab_seq().subrange(0, i + 1 as int).last()
                            == self.grab_seq()[i as int]);
                        if src != entry.0 {
                            assert(grab_lookup(kept@, src) == grab_lookup(k0, src));
                        }
                    }
                    assert forall|k: int| 0 <= k < kept@.len() implies grab_holds(
                        self.grab_seq(),
                        (#[trigger] kept@[k]).1,
                    ) by {
                        if k < k0.len() {
                            assert(kept@[k] == k0[k]);
                        } else {
                            assert(kept@[k] == self.grab_seq()[i as int]);
                        }
                    }
                }
            }
            i = i + 1;
        }
        proof {
            assert(self.grab_seq().subrange(0, n as int) =~= self.grab_seq());
        }
        let ghost g0 = self.grab_seq();
        self.grabs = kept;
        proof {
            assert forall|id: WidgetId| #[trigger] grab_holds(self.grab_seq(), id) implies
                grab_holds(g0, id) by {
                let k = choose|k: int| 0 <= k < self.grab_seq().len() && self.grab_seq()[k].1 == id;
                assert(grab_holds(g0, self.grab_seq()[k].1));
            }
        }
    }

    /// Bind the grab for `source` to `id`, replacing any active grab for
    /// the same source: at most one grab per source is ever observable,
    /// and a repeated request is won by the later holder. Both the new
    /// holder and a displaced prior holder are marked dirty.
    pub fn request_press_grab(&mut self, source: PressSource, id: WidgetId)
        ensures
            forall|src: PressSource|
                #[trigger] grab_lookup(final(self).grab_seq(), src) == if src == source {
                    Some(id)
                } else {
                    grab_lookup(old(self).grab_seq(), src)
                },
            final(self).spec_focus() == old(self).spec_focus(),
            final(self).spec_hover() == old(self).spec_hover(),
            final(self).spec_dirty().contains(id),
            forall|w: WidgetId|
                old(self).spec_dirty().contains(w) ==> final(self).spec_dirty().contains(w),
    {
        let prior: Option<WidgetId> = self.grab_of(source);
        self.remove_grab(source);
        let ghost s1 = self.grabs@;
        self.grabs.push((source, id));
        proof {
            assert(self.grabs@.drop_last() =~= s1);
            assert(self.grabs@.last() == (source, id));
            assert forall|src: PressSource| #[trigger] grab_lookup(self.grab_seq(), src)
                == if src == source {
                Some(id)
            } else {
                grab_lookup(old(self).grab_seq(), src)
            } by {
                if src != source {
                    assert(grab_lookup(self.grab_seq(), src) == grab_lookup(s1, src));
                }
            }
        }
        match prior {
            Some(p) => self.redraw(p),
            None => {},
        }
        self.redraw(id);
    }

    /// Release the grab for `source`, if any, unconditionally; the prior
    /// holder is marked dirty. Supports both the `PressEnd` path and
    /// forced cancellation (e.g. on window focus loss).
    pub fn release_grab(&mut self, source: PressSource)
        ensures
            forall|src: PressSource|
                #[trigger] grab_lookup(final(self).grab_seq(), src) == if src == source {
                    None::<WidgetId>
                } else {
                    grab_lookup(old(self).grab_seq(), src)
                },
            final(self).spec_focus() == old(self).spec_focus(),
            final(self).spec_hover() == old(self).spec_hover(),
            forall|w: WidgetId|
                old(self).spec_dirty().contains(w) ==> final(self).spec_dirty().contains(w),
            match grab_lookup(old(self).grab_seq(), source) {
                Some(p) => final(self).spec_dirty().contains(p),
                None => final(self).spec_dirty() == old(self).spec_dirty(),
            },
    {
        let prior: Option<WidgetId> = self.grab_of(source);
        match prior {
            Some(p) => {
                self.remove_grab(source);
                self.redraw(p);
            },
            None => {
                self.remove_grab(source);
            },
        }
    }

    /// Move the keyboard focus; old and new focus widgets are marked
    /// dirty when the focus actually changes.
    pub fn set_focus(&mut self, w: Option<WidgetId>)
        ensures
            final(self).spec_focus() == w,
            final(self).grab_seq() == old(self).grab_seq(),
            final(self).spec_hover() == old(self).spec_hover(),
            forall|x: WidgetId|
                old(self).spec_dirty().contains(x) ==> final(self).spec_dirty().contains(x),
            w != old(self).spec_focus() ==> match w {
                Some(x) => final(self).spec_dirty().contains(x),
                None => true,
            },
            w != old(self).spec_focus() ==> match old(self).spec_focus() {
                Some(x) => final(self).spec_dirty().contains(x),
                None => true,
            },
    {
        if w == self.focus {
            return ;
        }
        let prior = self.focus;
        self.focus = w;
        match prior {
            Some(x) => self.redraw(x),
            None => {},
        }
        match w {
            Some(x) => self.redraw(x),
            None => {},
        }
    }

    /// Move the hover/highlight widget; old and new hover widgets are
    /// marked dirty when the hover actually changes.
    pub fn set_hover(&mut self, w: Option<WidgetId>)
        ensures
            final(self).spec_hover() == w,
            final(self).grab_seq() == old(self).grab_seq(),
            final(self).spec_focus() == old(self).spec_focus(),
            forall|x: WidgetId|
                old(self).spec_dirty().contains(x) ==> final(self).spec_dirty().contains(x),
            w != old(self).spec_hover() ==> match w {
                Some(x) => final(self).spec_dirty().contains(x),
                None => true,
            },
            w != old(self).spec_hover() ==> match old(self).spec_hover() {
                Some(x) => final(self).spec_dirty().contains(x),
                None => true,
            },
    {
        if w == self.hover {
            return ;
        }
        let prior = self.hover;
        self.hover = w;
        match prior {
            Some(x) => self.redraw(x),
            None => {},
        }
        match w {
            Some(x) => self.redraw(x),
            None => {},
        }
    }

    /// The highlight a widget should be drawn with, derived from the
    /// interaction state: pressed beats focused beats hover. A pure
    /// query; nothing is mutated.
    pub fn highlight_state(&self, id: WidgetId) -> (hl: HighlightState)
        ensures
            hl == HighlightState::Pressed <==> grab_holds(self.grab_seq(), id),
            hl == HighlightState::Focused <==> (!grab_holds(self.grab_seq(), id)
                && self.spec_focus() == Some(id)),
            hl == HighlightState::Hover <==> (!grab_holds(self.grab_seq(), id) && self.spec_focus()
                != Some(id) && self.spec_hover() == Some(id)),
    {
        let n: usize = self.grabs.len();
        let mut i: usize = 0;
        while i < n
            invariant
                n == self.grabs.len(),
                i <= n,
                forall|j: int| 0 <= j < i ==> (#[trigger] self.grab_seq()[j]).1 != id,
            decreases n - i,
        {
            if self.grabs[i].1 == id {
                return HighlightState::Pressed;
            }
            i = i + 1;
        }
        let focused = match self.focus {
            Some(x) => x == id,
            None => false,
        };
        if focused {
            return HighlightState::Focused;
        }
        let hovered = match self.hover {
            Some(x) => x == id,
            None => false,
        };
        if hovered {
            return HighlightState::Hover;
        }
        HighlightState::Idle
    }
}

impl Manager {
    /// The default handling a parent applies when a child leaves an event
    /// unhandled: a pointer press moves the hover highlight to the
    /// receiving widget, keyboard activation moves the focus to it, and
    /// grabbed pointer motion is left to rise further.
    pub fn handle_generic<M>(&mut self, id: WidgetId, event: Event) -> (r: Response<M>)
        ensures
            final(self).grab_seq() == old(self).grab_seq(),
            forall|w: WidgetId|
                old(self).spec_dirty().contains(w) ==> final(self).spec_dirty().contains(w),
            match event {
                Event::PressStart { .. } => final(self).spec_hover() == Some(id)
                    && final(self).spec_focus() == old(self).spec_focus()
                    && r == Response::<M>::Used,
                Event::Activate => final(self).spec_focus() == Some(id) && final(self).spec_hover()
                    == old(self).spec_hover() && r == Response::<M>::Used,
                _ => final(self).spec_focus() == old(self).spec_focus() && final(self).spec_hover()
                    == old(self).spec_hover() && final(self).spec_dirty() == old(self).spec_dirty()
                    && r == Response::<M>::Unhandled(event),
            },
    {
        match event {
            Event::PressStart { .. } => {
                self.set_hover(Some(id));
                Response::Used
            },
            Event::Activate => {
                self.set_focus(Some(id));
                Response::Used
            },
            _ => Response::Unhandled(event),
        }
    }
}

/// Law (grab exclusivity): after a grab for `source` is requested by
/// `id_a` and then by `id_b`, only `id_b` holds the grab for `source`,
/// and grabs for every other source are as the second request left them.
pub proof fn lemma_grab_exclusivity(
    m0: Manager,
    m1: Manager,
    m2: Manager,
    source: PressSource,
    id_a: WidgetId,
    id_b: WidgetId,
)
    requires
        forall|src: PressSource|
            #[trigger] grab_lookup(m1.grab_seq(), src) == if src == source {
                Some(id_a)
            } else {
                grab_lookup(m0.grab_seq(), src)
            },
        forall|src: PressSource|
            #[trigger] grab_lookup(m2.grab_seq(), src) == if src == source {
                Some(id_b)
            } else {
                grab_lookup(m1.grab_seq(), src)
            },
    ensures
        m2.spec_grab_of(source) == Some(id_b),
        forall|src: PressSource|
            src != source ==> #[trigger] grab_lookup(m2.grab_seq(), src) == grab_lookup(
                m0.grab_seq(),
                src,
            ),
{
}

} // verus!
