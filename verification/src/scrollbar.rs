//! The scroll bar control.
//!
//! A scroll bar lets the user input a value between 0 and a derived
//! maximum. It is optimised for navigating a page of length
//! `page_length` of which a portion `page_visible` is visible: the value
//! ranges over `[0, page_length - page_visible]` and the handle's length
//! is proportional to `page_visible / page_length` (with a minimum).
//! Terminology in the field names assumes a vertical orientation; the
//! direction type parameter selects the real axis.

use vstd::prelude::*;

use crate::data::CoreData;
use crate::direction::Direction;
use crate::event::{Event, Handler, PressSource, Response};
use crate::geom::{Coord, Rect};
use crate::layout::{AxisInfo, SizeRules};
use crate::manager::{grab_holds, grab_lookup, HighlightState, Manager};
use crate::widgetid::WidgetId;

verus! {

/// The theme metrics a scroll bar consumes: bar thickness, minimum handle
/// length, and minimum bar length, all in pixels. Supplied by the theme
/// provider outside this crate.
#[derive(Clone, Copy, Debug, PartialEq, Eq, Structural)]
pub struct ScrollBarMetrics {
    /// Thickness of the bar across its direction.
    pub thickness: u32,
    /// Minimum length of the handle along the direction.
    pub min_handle_len: u32,
    /// Minimum length of the whole bar along the direction.
    pub min_len: u32,
}

/// Everything the renderer needs to draw a scroll bar: computed by the
/// core, consumed outside it.
#[derive(Clone, Copy, Debug, PartialEq, Eq, Structural)]
pub struct ScrollBarDraw {
    /// The bar's allocated rectangle.
    pub rect: Rect,
    /// True when the bar scrolls vertically.
    pub vertical: bool,
    /// Length of the handle along the direction.
    pub handle_len: u32,
    /// Offset of the handle from the start of the bar.
    pub position: u32,
    /// The bar's current interaction highlight.
    pub highlight: HighlightState,
}

/// A scroll bar.
#[derive(Clone, Debug)]
pub struct ScrollBar<D: Direction> {
    /// Shared widget state: id and allocated rectangle.
    pub core: CoreData,
    /// The axis this bar scrolls along.
    pub direction: D,
    /// Bar thickness across the direction (from the theme metrics).
    pub width: u32,
    /// Minimum handle length (from the theme metrics).
    pub min_handle_len: u32,
    /// Current handle length, kept within `[min_handle_len, len]`.
    pub handle_len: u32,
    /// Length of the page being navigated; always positive.
    pub page_length: u32,
    /// Maximum value: `page_length` minus the visible portion.
    pub max_value: u32,
    /// Current value, in `[0, max_value]`.
    pub value: u32,
    /// The press source currently dragging the bar, if any.
    pub press_source: Option<PressSource>,
    /// Offset from the pointer to the handle position while dragging.
    pub press_offset: i32,
}

/// `x` clamped from below to zero.
pub open spec fn clamp0(x: int) -> int {
    if x < 0 {
        0
    } else {
        x
    }
}

impl<D: Direction> ScrollBar<D> {
    /// The bar's length along its direction: the matching component of
    /// its allocated rectangle.
    pub open spec fn spec_len(self) -> u32 {
        if D::is_vertical_spec() {
            self.core.rect.size.1
        } else {
            self.core.rect.size.0
        }
    }

    /// The length the handle can travel: bar length minus handle length.
    pub open spec fn spec_track(self) -> int {
        self.spec_len() - self.handle_len
    }

    /// The window-coordinate offset of the bar along its direction.
    pub open spec fn spec_offset(self) -> int {
        if D::is_vertical_spec() {
            self.core.rect.pos.1 as int
        } else {
            self.core.rect.pos.0 as int
        }
    }

    /// The coordinate component of `coord` along the bar's direction.
    pub open spec fn spec_pointer(self, coord: Coord) -> int {
        if D::is_vertical_spec() {
            coord.1 as int
        } else {
            coord.0 as int
        }
    }

    /// Well-formedness: the page is nonempty, value and maximum are in
    /// range, the rectangle is in window-local coordinates and the handle
    /// fits in the bar.
    pub open spec fn wf(self) -> bool {
        &&& self.page_length > 0
        &&& self.max_value <= self.page_length
        &&& self.value <= self.max_value
        &&& self.core.rect.wf()
        &&& self.handle_len <= self.spec_len()
    }

    /// The handle length derived from the current page lengths and bar
    /// length: proportional to the visible portion, clamped to
    /// `[min_handle_len, len]`.
    pub open spec fn spec_handle_len(self) -> int {
        let len = self.spec_len() as int;
        let page_vis = self.page_length - self.max_value;
        let h = page_vis * len / (self.page_length as int);
        let h2 = if h >= self.min_handle_len {
            h
        } else {
            self.min_handle_len as int
        };
        if h2 <= len {
            h2
        } else {
            len
        }
    }

    /// The handle position for the current value: `value / max_value` of
    /// the track, rounded half-up, clamped to the track.
    pub open spec fn spec_position(self) -> int {
        if self.max_value == 0 {
            0
        } else {
            let raw = (self.value * self.spec_track() + self.max_value / 2) / (
            self.max_value as int);
            if raw <= self.spec_track() {
                raw
            } else {
                self.spec_track()
            }
        }
    }

    /// The value a handle position maps back to: `position / track` of
    /// the maximum, rounded half-up, clamped to the maximum; the current
    /// value when the track is empty.
    pub open spec fn spec_value_for(self, position: int) -> int {
        if self.spec_track() == 0 {
            self.value as int
        } else {
            let raw = (position * self.max_value + self.spec_track() / 2) / self.spec_track();
            if raw <= self.max_value {
                raw
            } else {
                self.max_value as int
            }
        }
    }

    /// Construct a scroll bar with the given direction; all other
    /// parameters take their defaults (an empty page of length one).
    pub fn new_with_direction(direction: D) -> (sb: Self)
        ensures
            sb.core == (CoreData { id: WidgetId(0), rect: Rect::zero_spec() }),
            sb.direction == direction,
            sb.width == 0,
            sb.min_handle_len == 0,
            sb.handle_len == 0,
            sb.page_length == 1,
            sb.max_value == 0,
            sb.value == 0,
            sb.press_source is None,
            sb.press_offset == 0,
            sb.wf(),
    {
        ScrollBar {
            core: CoreData::new(),
            direction,
            width: 0,
            min_handle_len: 0,
            handle_len: 0,
            page_length: 1,
            max_value: 0,
            value: 0,
            press_source: None,
            press_offset: 0,
        }
    }

    /// Set the page lengths, consuming and returning the bar: see
    /// [`ScrollBar::set_lengths`].
    pub fn with_lengths(self, page_length: u32, page_visible: u32) -> (sb: Self)
        requires
            self.wf(),
            page_length > 0,
        ensures
            sb.page_length == page_length,
            sb.max_value == page_length - (if page_visible <= page_length {
                page_visible as int
            } else {
                page_length as int
            }),
            sb.value == (if self.value <= sb.max_value {
                self.value
            } else {
                sb.max_value
            }),
            sb.handle_len as int == sb.spec_handle_len(),
            sb.core == self.core,
            sb.direction == self.direction,
            sb.width == self.width,
            sb.min_handle_len == self.min_handle_len,
            sb.press_source == self.press_source,
            sb.press_offset == self.press_offset,
            sb.wf(),
    {
        let mut sb = self;
        sb.set_lengths(page_length, page_visible);
        sb
    }

    /// Set the page lengths. The bar is optimised for navigating a page
    /// of length `page_length` of which `page_visible` is visible: the
    /// value is clamped to `[0, page_length - page_visible]` and the
    /// handle length is recomputed. `page_visible` greater than
    /// `page_length` is clamped down to it. Any units may be used.
    pub fn set_lengths(&mut self, page_length: u32, page_visible: u32)
        requires
            old(self).wf(),
            page_length > 0,
        ensures
            final(self).page_length == page_length,
            final(self).max_value == page_length - (if page_visible <= page_length {
                page_visible as int
            } else {
                page_length as int
            }),
            final(self).value == (if old(self).value <= final(self).max_value {
                old(self).value
            } else {
                final(self).max_value
            }),
            final(self).handle_len as int == final(self).spec_handle_len(),
            final(self).core == old(self).core,
            final(self).direction == old(self).direction,
            final(self).width == old(self).width,
            final(self).min_handle_len == old(self).min_handle_len,
            final(self).press_source == old(self).press_source,
            final(self).press_offset == old(self).press_offset,
            final(self).wf(),
    {
        self.page_length = page_length;
        self.max_value = if page_visible <= page_length {
            page_length - page_visible
        } else {
            0
        };
        if self.value > self.max_value {
            self.value = self.max_value;
        }
        self.update_handle();
    }

    /// Get the current value.
    pub fn value(&self) -> (v: u32)
        ensures
            v == self.value,
    {
        self.value
    }

    /// Set the value, clamped to `[0, max_value]`; the bar is marked
    /// dirty when the value actually changes.
    pub fn set_value(&mut self, mgr: &mut Manager, value: u32)
        requires
            old(self).wf(),
        ensures
            final(self).value == (if value <= old(self).max_value {
                value
            } else {
                old(self).max_value
            }),
            *final(self) == (ScrollBar { value: final(self).value, ..*old(self) }),
            final(self).wf(),
            final(mgr).grab_seq() == old(mgr).grab_seq(),
            final(mgr).spec_focus() == old(mgr).spec_focus(),
            final(mgr).spec_hover() == old(mgr).spec_hover(),
            forall|w: WidgetId|
                old(mgr).spec_dirty().contains(w) ==> final(mgr).spec_dirty().contains(w),
            final(self).value != old(self).value ==> final(mgr).spec_dirty().contains(
                old(self).core.id,
            ),
            final(self).value == old(self).value ==> final(mgr).spec_dirty() == old(
                mgr,
            ).spec_dirty(),
    {
        let value: u32 = if value <= self.max_value {
            value
        } else {
            self.max_value
        };
        if value != self.value {
            self.value = value;
            mgr.redraw(self.core.id);
        }
    }

    /// The bar's length along its direction.
    fn len(&self) -> (l: u32)
        ensures
            l == self.spec_len(),
    {
        if self.direction.is_vertical() {
            self.core.rect.size.1
        } else {
            self.core.rect.size.0
        }
    }

    /// Recompute the handle length from the page lengths and the bar
    /// length, and re-clamp the value.
    fn update_handle(&mut self)
        requires
            old(self).page_length > 0,
            old(self).max_value <= old(self).page_length,
            old(self).core.rect.wf(),
        ensures
            final(self).handle_len as int == final(self).spec_handle_len(),
            final(self).value == (if old(self).value <= old(self).max_value {
                old(self).value
            } else {
                old(self).max_value
            }),
            *final(self) == (ScrollBar {
                handle_len: final(self).handle_len,
                value: final(self).value,
                ..*old(self)
            }),
            final(self).wf(),
    {
        let len: u32 = self.len();
        let page_vis: u32 = self.page_length - self.max_value;
        proof {
            vstd::arithmetic::mul::lemma_mul_inequality(
                page_vis as int,
                self.page_length as int,
                len as int,
            );
            vstd::arithmetic::mul::lemma_mul_is_commutative(self.page_length as int, len as int);
            vstd::arithmetic::div_mod::lemma_multiply_divide_le(
                (page_vis as int) * (len as int),
                self.page_length as int,
                len as int,
            );
            assert(0 <= (page_vis as int) * (len as int) && (page_vis as int) * (len as int) <= (
            u32::MAX as int) * (u32::MAX as int) && (u32::MAX as int) * (u32::MAX as int)
                < u64::MAX as int) by (nonlinear_arith)
                requires
                    0 <= page_vis as int <= u32::MAX as int,
                    0 <= len as int <= u32::MAX as int,
            ;
            vstd::arithmetic::div_mod::lemma_div_pos_is_pos(
                (page_vis as int) * (len as int),
                self.page_length as int,
            );
        }
        let hl64: u64 = page_vis as u64 * len as u64 / self.page_length as u64;
        let hl: u32 = hl64 as u32;
        let hl: u32 = if hl >= self.min_handle_len {
            hl
        } else {
            self.min_handle_len
        };
        let hl: u32 = if hl <= len {
            hl
        } else {
            len
        };
        self.handle_len = hl;
        if self.value > self.max_value {
            self.value = self.max_value;
        }
    }

    /// The handle's offset from the start of the bar, in local
    /// coordinates: the current value mapped onto the track, rounded
    /// half-up.
    pub fn position(&self) -> (p: u32)
        requires
            self.wf(),
        ensures
            p as int == self.spec_position(),
            p as int <= self.spec_track(),
    {
        let len: u32 = self.len() - self.handle_len;
        proof {
            assert((self.value as int) * (len as int) <= (u32::MAX as int) * (u32::MAX as int)
                && (u32::MAX as int) * (u32::MAX as int) + (u32::MAX as int) < u64::MAX as int
                && 0 <= (self.value as int) * (len as int)) by (nonlinear_arith)
                requires
                    0 <= self.value as int <= u32::MAX as int,
                    0 <= len as int <= u32::MAX as int,
            ;
        }
        let lhs: u64 = self.value as u64 * len as u64;
        let rhs: u64 = self.max_value as u64;
        if rhs == 0 {
            return 0;
        }
        let pos64: u64 = (lhs + rhs / 2) / rhs;
        if pos64 <= len as u64 {
            pos64 as u32
        } else {
            len
        }
    }

    /// Move the handle to `position` on the track, updating the value to
    /// the one the position maps back to; marks the bar dirty and reports
    /// true when the value changed. With an empty track nothing changes.
    pub fn set_position(&mut self, mgr: &mut Manager, position: u32) -> (moved: bool)
        requires
            old(self).wf(),
        ensures
            final(self).value as int == old(self).spec_value_for(position as int),
            moved == (final(self).value != old(self).value),
            *final(self) == (ScrollBar { value: final(self).value, ..*old(self) }),
            final(self).wf(),
            final(mgr).grab_seq() == old(mgr).grab_seq(),
            final(mgr).spec_focus() == old(mgr).spec_focus(),
            final(mgr).spec_hover() == old(mgr).spec_hover(),
            forall|w: WidgetId|
                old(mgr).spec_dirty().contains(w) ==> final(mgr).spec_dirty().contains(w),
            moved ==> final(mgr).spec_dirty().contains(old(self).core.id),
            !moved ==> final(mgr).spec_dirty() == old(mgr).spec_dirty(),
    {
        let len: u32 = self.len() - self.handle_len;
        if len == 0 {
            return false;
        }
        proof {
            assert((position as int) * (self.max_value as int) <= (u32::MAX as int) * (
            u32::MAX as int) && (u32::MAX as int) * (u32::MAX as int) + (u32::MAX as int)
                < u64::MAX as int && 0 <= (position as int) * (self.max_value as int))
                by (nonlinear_arith)
                requires
                    0 <= position as int <= u32::MAX as int,
                    0 <= self.max_value as int <= u32::MAX as int,
            ;
        }
        let lhs: u64 = position as u64 * self.max_value as u64;
        let rhs: u64 = len as u64;
        let v64: u64 = (lhs + rhs / 2) / rhs;
        let value: u32 = if v64 <= self.max_value as u64 {
            v64 as u32
        } else {
            self.max_value
        };
        if value != self.value {
            self.value = value;
            mgr.redraw(self.core.id);
            return true;
        }
        false
    }

    /// Report this bar's layout demand: its fixed minimum length along
    /// the queried axis (the theme's minimum bar length along the bar's
    /// own direction, its thickness across it).
    pub fn size_rules(&mut self, metrics: ScrollBarMetrics, axis: AxisInfo) -> (r: SizeRules)
        ensures
            *final(self) == *old(self),
            r == (if D::is_vertical_spec() == axis.vertical {
                SizeRules::spec_fixed(metrics.min_len)
            } else {
                SizeRules::spec_fixed(metrics.thickness)
            }),
            r.wf(),
    {
        if self.direction.is_vertical() == axis.vertical {
            SizeRules::fixed(metrics.min_len)
        } else {
            SizeRules::fixed(metrics.thickness)
        }
    }

    /// Accept an allocated rectangle: store it together with the theme
    /// metrics and recompute the handle.
    pub fn set_rect(&mut self, metrics: ScrollBarMetrics, rect: Rect)
        requires
            old(self).wf(),
            rect.wf(),
        ensures
            final(self).core.rect == rect,
            final(self).core.id == old(self).core.id,
            final(self).width == metrics.thickness,
            final(self).min_handle_len == metrics.min_handle_len,
            final(self).handle_len as int == final(self).spec_handle_len(),
            final(self).value == old(self).value,
            final(self).page_length == old(self).page_length,
            final(self).max_value == old(self).max_value,
            final(self).direction == old(self).direction,
            final(self).press_source == old(self).press_source,
            final(self).press_offset == old(self).press_offset,
            final(self).wf(),
    {
        self.width = metrics.thickness;
        self.min_handle_len = metrics.min_handle_len;
        self.core.rect = rect;
        self.update_handle();
    }

    /// Compute everything the renderer needs to draw this bar, including
    /// its current highlight from the interaction state. A pure query.
    pub fn draw(&self, mgr: &Manager) -> (d: ScrollBarDraw)
        requires
            self.wf(),
        ensures
            d.rect == self.core.rect,
            d.vertical == D::is_vertical_spec(),
            d.handle_len == self.handle_len,
            d.position as int == self.spec_position(),
            d.highlight == HighlightState::Pressed <==> grab_holds(mgr.grab_seq(), self.core.id),
    {
        ScrollBarDraw {
            rect: self.core.rect,
            vertical: self.direction.is_vertical(),
            handle_len: self.handle_len,
            position: self.position(),
            highlight: mgr.highlight_state(self.core.id),
        }
    }
}

impl<D: Direction> Handler for ScrollBar<D> {
    type Msg = u32;

    /// Ready when the bar is well-formed; a press start must also lie
    /// inside the bar's rectangle, which event delivery guarantees.
    open spec fn handle_ready(self, event: Event) -> bool {
        match event {
            Event::PressStart { source, coord } => self.wf() && self.core.rect.spec_contains(
                coord,
            ),
            _ => self.wf(),
        }
    }

    /// The scroll bar's event state machine.
    ///
    /// A press start grabs the press source. On the handle, it only
    /// records the drag offset; elsewhere it centres the handle on the
    /// pointer at once and reports the new value. A grabbed press move
    /// drags the handle, reporting the value whenever it changes; a
    /// grabbed press end releases the widget's record of the drag. Any
    /// other event falls back to the generic handling.
    fn handle(&mut self, mgr: &mut Manager, event: Event) -> (r: Response<u32>)
        ensures
            final(self).wf(),
            final(self).core == old(self).core,
            final(self).direction == old(self).direction,
            final(self).width == old(self).width,
            final(self).min_handle_len == old(self).min_handle_len,
            final(self).handle_len == old(self).handle_len,
            final(self).page_length == old(self).page_length,
            final(self).max_value == old(self).max_value,
            forall|w: WidgetId|
                old(mgr).spec_dirty().contains(w) ==> final(mgr).spec_dirty().contains(w),
            match event {
                Event::PressStart { source, coord } => {
                    &&& final(self).press_source == Some(source)
                    &&& forall|src: PressSource|
                        #[trigger] grab_lookup(final(mgr).grab_seq(), src) == (if src == source {
                            Some(old(self).core.id)
                        } else {
                            grab_lookup(old(mgr).grab_seq(), src)
                        })
                    &&& final(mgr).spec_focus() == old(mgr).spec_focus()
                    &&& final(mgr).spec_hover() == old(mgr).spec_hover()
                    &&& final(mgr).spec_dirty().contains(old(self).core.id)
                    &&& {
                        let pointer = old(self).spec_pointer(coord);
                        let h_start = old(self).spec_offset() + old(self).spec_position();
                        if h_start <= pointer < h_start + old(self).handle_len {
                            &&& final(self).value == old(self).value
                            &&& final(self).press_offset == old(self).spec_position() - pointer
                            &&& r == Response::<u32>::Used
                        } else {
                            &&& final(self).press_offset == -old(self).spec_offset() - old(
                                self,
                            ).handle_len / 2
                            &&& final(self).value as int == old(self).spec_value_for(
                                clamp0(pointer + final(self).press_offset),
                            )
                            &&& r == Response::<u32>::Msg(final(self).value)
                        }
                    }
                },
                Event::PressMove { source, coord } => {
                    if old(self).press_source == Some(source) {
                        &&& final(self).press_source == old(self).press_source
                        &&& final(self).press_offset == old(self).press_offset
                        &&& final(self).value as int == old(self).spec_value_for(
                            clamp0(old(self).spec_pointer(coord) + old(self).press_offset),
                        )
                        &&& final(mgr).grab_seq() == old(mgr).grab_seq()
                        &&& final(mgr).spec_focus() == old(mgr).spec_focus()
                        &&& final(mgr).spec_hover() == old(mgr).spec_hover()
                        &&& (final(self).value != old(self).value ==> r == Response::<u32>::Msg(
                            final(self).value,
                        ) && final(mgr).spec_dirty().contains(old(self).core.id))
                        &&& (final(self).value == old(self).value ==> r == Response::<u32>::Used)
                    } else {
                        &&& *final(self) == *old(self)
                        &&& final(mgr).grab_seq() == old(mgr).grab_seq()
                        &&& final(mgr).spec_focus() == old(mgr).spec_focus()
                        &&& final(mgr).spec_hover() == old(mgr).spec_hover()
                        &&& final(mgr).spec_dirty() == old(mgr).spec_dirty()
                        &&& r == Response::<u32>::Unhandled(event)
                    }
                },
                Event::PressEnd { source, coord } => {
                    if old(self).press_source == Some(source) {
                        &&& *final(self) == (ScrollBar {
                            press_source: None::<PressSource>,
                            ..*old(self)
                        })
                        &&& final(mgr).grab_seq() == old(mgr).grab_seq()
                        &&& final(mgr).spec_focus() == old(mgr).spec_focus()
                        &&& final(mgr).spec_hover() == old(mgr).spec_hover()
                        &&& final(mgr).spec_dirty() == old(mgr).spec_dirty()
                        &&& r == Response::<u32>::Used
                    } else {
                        &&& *final(self) == *old(self)
                        &&& final(mgr).grab_seq() == old(mgr).grab_seq()
                        &&& final(mgr).spec_focus() == old(mgr).spec_focus()
                        &&& final(mgr).spec_hover() == old(mgr).spec_hover()
                        &&& final(mgr).spec_dirty() == old(mgr).spec_dirty()
                        &&& r == Response::<u32>::Unhandled(event)
                    }
                },
                Event::Activate => {
                    &&& *final(self) == *old(self)
                    &&& final(mgr).spec_focus() == Some(old(self).core.id)
                    &&& final(mgr).spec_hover() == old(mgr).spec_hover()
                    &&& final(mgr).grab_seq() == old(mgr).grab_seq()
                    &&& r == Response::<u32>::Used
                },
            },
    {
        match event {
            Event::PressStart { source, coord } => {
                // A scroll bar makes no sense under multiple concurrent
                // presses: a new press takes over unconditionally.
                self.press_source = Some(source);
                mgr.request_press_grab(source, self.core.id);

                // Event delivery implies the coordinate is over the bar.
                let pointer: i32 = if self.direction.is_vertical() {
                    coord.1
                } else {
                    coord.0
                };
                let offset: i32 = if self.direction.is_vertical() {
                    self.core.rect.pos.1
                } else {
                    self.core.rect.pos.0
                };
                let position: i32 = self.position() as i32;
                let h_start: i32 = offset + position;

                if pointer >= h_start && pointer < h_start + self.handle_len as i32 {
                    // The coordinate is on the handle: record the drag
                    // offset and wait for motion.
                    self.press_offset = position - pointer;
                    Response::Used
                } else {
                    // Not on the handle: centre the handle on the pointer
                    // immediately.
                    self.press_offset = -offset - (self.handle_len / 2) as i32;
                    let p64: i64 = pointer as i64 + self.press_offset as i64;
                    let target: u32 = if p64 < 0 {
                        0
                    } else {
                        p64 as u32
                    };
                    self.set_position(mgr, target);
                    Response::Msg(self.value)
                }
            },
            Event::PressMove { source, coord } => {
                let dragging = match self.press_source {
                    Some(s) => s == source,
                    None => false,
                };
                if dragging {
                    let pointer: i32 = if self.direction.is_vertical() {
                        coord.1
                    } else {
                        coord.0
                    };
                    let p64: i64 = pointer as i64 + self.press_offset as i64;
                    let target: u32 = if p64 < 0 {
                        0
                    } else {
                        p64 as u32
                    };
                    if self.set_position(mgr, target) {
                        Response::Msg(self.value)
                    } else {
                        Response::Used
                    }
                } else {
                    mgr.handle_generic(self.core.id, event)
                }
            },
            Event::PressEnd { source, coord } => {
                let dragging = match self.press_source {
                    Some(s) => s == source,
                    None => false,
                };
                if dragging {
                    self.press_source = None;
                    Response::Used
                } else {
                    mgr.handle_generic(self.core.id, event)
                }
            },
            Event::Activate => mgr.handle_generic(self.core.id, event),
        }
    }
}

impl<D: Direction + Default> ScrollBar<D> {
    /// Construct a scroll bar with the default direction value; all
    /// parameters take their defaults (an empty page of length one).
    pub fn new() -> (sb: Self)
        ensures
            sb.core == (CoreData { id: WidgetId(0), rect: Rect::zero_spec() }),
            sb.width == 0,
            sb.min_handle_len == 0,
            sb.handle_len == 0,
            sb.page_length == 1,
            sb.max_value == 0,
            sb.value == 0,
            sb.press_source is None,
            sb.press_offset == 0,
            sb.wf(),
    {
        ScrollBar::new_with_direction(D::default())
    }
}

} // verus!
