use kas_core::direction::{Horizontal, Vertical};
use kas_core::layout::AxisInfo;
use kas_core::manager::HighlightState;
use kas_core::event::{Event, Handler, PressSource, Response};
use kas_core::geom::{Coord, Rect, Size};
use kas_core::manager::Manager;
use kas_core::scrollbar::{ScrollBar, ScrollBarMetrics};
use kas_core::widgetid::WidgetId;

const METRICS: ScrollBarMetrics = ScrollBarMetrics { thickness: 20, min_handle_len: 10, min_len: 20 };

fn vertical_bar(page_length: u32, page_visible: u32, len: u32) -> ScrollBar<Vertical> {
    let mut sb = ScrollBar::<Vertical>::new().with_lengths(page_length, page_visible);
    sb.set_rect(METRICS, Rect { pos: Coord(0, 0), size: Size(20, len) });
    sb
}

#[test]
fn new_defaults() {
    let sb = ScrollBar::<Horizontal>::new();
    assert_eq!(sb.value(), 0);
    assert_eq!(sb.page_length, 1);
    assert_eq!(sb.max_value, 0);
}

#[test]
fn set_lengths_computes_max_value() {
    let sb = ScrollBar::<Vertical>::new().with_lengths(100, 20);
    assert_eq!(sb.max_value, 80);
    // a fully visible page cannot scroll
    let sb = ScrollBar::<Vertical>::new().with_lengths(50, 50);
    assert_eq!(sb.max_value, 0);
    // page_visible larger than the page is clamped
    let sb = ScrollBar::<Vertical>::new().with_lengths(50, 80);
    assert_eq!(sb.max_value, 0);
}

#[test]
fn set_lengths_clamps_value() {
    let mut mgr = Manager::new();
    let mut sb = vertical_bar(100, 20, 100);
    sb.set_value(&mut mgr, 80);
    assert_eq!(sb.value(), 80);
    sb.set_lengths(100, 60);
    assert_eq!(sb.max_value, 40);
    assert_eq!(sb.value(), 40);
}

#[test]
fn set_value_clamps_and_redraws() {
    let mut mgr = Manager::new();
    let mut sb = vertical_bar(100, 20, 100);
    sb.set_value(&mut mgr, 200);
    assert_eq!(sb.value(), 80);
    assert!(mgr.take_dirty().contains(&WidgetId(0)));
    // unchanged value requests no redraw
    sb.set_value(&mut mgr, 80);
    assert!(mgr.take_dirty().is_empty());
}

#[test]
fn handle_length_is_proportional_with_minimum() {
    let sb = vertical_bar(100, 20, 100);
    // visible/page = 20/100 of a 100 px bar
    assert_eq!(sb.handle_len, 20);
    let sb = vertical_bar(1000, 20, 100);
    // 2 px proportional length is lifted to the 10 px minimum
    assert_eq!(sb.handle_len, 10);
}

#[test]
fn position_rounds_half_up() {
    let mut sb = vertical_bar(100, 20, 100);
    let mut mgr = Manager::new();
    // track = 100 - 20 = 80
    sb.set_value(&mut mgr, 40);
    assert_eq!(sb.position(), 40);
    // value 1 of 80 on an 80 px track: exactly 1
    sb.set_value(&mut mgr, 1);
    assert_eq!(sb.position(), 1);
    // a half rounds up: value 1 of 3 on a 10 px wide track with
    // handle 0 would be 3.33; craft max_value 2, track 5: 1*5/2 = 2.5 -> 3
    sb.page_length = 10;
    sb.max_value = 2;
    sb.value = 1;
    sb.handle_len = 95;
    assert_eq!(sb.position(), 3);
}

#[test]
fn scrollbar_drag_reports_new_value() {
    // A vertical bar navigating a page of 100 showing 20: max value 80,
    // 100 px long, handle 20 px, track 80 px.
    let mut sb = vertical_bar(100, 20, 100);
    let mut mgr = Manager::new();
    let src = PressSource::Mouse(0);

    // Press on the handle's midpoint: grab, no message yet.
    let r = sb.handle(&mut mgr, Event::PressStart { source: src, coord: Coord(5, 10) });
    assert_eq!(r, Response::Used);
    assert_eq!(mgr.grab_of(src), Some(WidgetId(0)));
    assert_eq!(sb.value(), 0);

    // Drag to 50% of the track: the handle position becomes 40 and the
    // bar reports value 40 (40 * 80 / 80, rounded half-up).
    let r = sb.handle(&mut mgr, Event::PressMove { source: src, coord: Coord(5, 50) });
    assert_eq!(r, Response::Msg(40));
    assert_eq!(sb.value(), 40);

    // Release ends the drag.
    let r = sb.handle(&mut mgr, Event::PressEnd { source: src, coord: Coord(5, 50) });
    assert_eq!(r, Response::Used);
    assert_eq!(sb.press_source, None);
}

#[test]
fn press_off_handle_jumps_immediately() {
    let mut sb = vertical_bar(100, 20, 100);
    let mut mgr = Manager::new();
    let src = PressSource::Mouse(0);
    // Handle spans [0, 20); pressing at 60 centres the handle there:
    // position 50, value 50.
    let r = sb.handle(&mut mgr, Event::PressStart { source: src, coord: Coord(5, 60) });
    assert_eq!(r, Response::Msg(50));
    assert_eq!(sb.value(), 50);
}

#[test]
fn drag_beyond_track_clamps() {
    let mut sb = vertical_bar(100, 20, 100);
    let mut mgr = Manager::new();
    let src = PressSource::Mouse(0);
    sb.handle(&mut mgr, Event::PressStart { source: src, coord: Coord(5, 10) });
    let r = sb.handle(&mut mgr, Event::PressMove { source: src, coord: Coord(5, 4000) });
    assert_eq!(r, Response::Msg(80));
    assert_eq!(sb.value(), 80);
    // and below zero
    let r = sb.handle(&mut mgr, Event::PressMove { source: src, coord: Coord(5, -500) });
    assert_eq!(r, Response::Msg(0));
    assert_eq!(sb.value(), 0);
}

#[test]
fn move_from_other_source_is_unhandled() {
    let mut sb = vertical_bar(100, 20, 100);
    let mut mgr = Manager::new();
    sb.handle(&mut mgr, Event::PressStart { source: PressSource::Mouse(0), coord: Coord(5, 10) });
    let stray = Event::PressMove { source: PressSource::Touch(2), coord: Coord(5, 50) };
    let r = sb.handle(&mut mgr, stray);
    assert_eq!(r, Response::Unhandled(stray));
    assert_eq!(sb.value(), 0);
}

#[test]
fn activate_focuses_the_bar() {
    let mut sb = vertical_bar(100, 20, 100);
    let mut mgr = Manager::new();
    let r = sb.handle(&mut mgr, Event::Activate);
    assert_eq!(r, Response::Used);
    assert_eq!(mgr.focus(), Some(WidgetId(0)));
}

#[test]
fn size_rules_use_theme_metrics() {
    let mut sb = vertical_bar(100, 20, 100);
    let along = sb.size_rules(METRICS, AxisInfo { vertical: true });
    assert_eq!(along.min_len, 20);
    let across = sb.size_rules(METRICS, AxisInfo { vertical: false });
    assert_eq!(across.min_len, 20);
    let mut hb = ScrollBar::<Horizontal>::new().with_lengths(10, 5);
    let along = hb.size_rules(
        ScrollBarMetrics { thickness: 8, min_handle_len: 10, min_len: 30 },
        AxisInfo { vertical: false },
    );
    assert_eq!(along.min_len, 30);
    let across = hb.size_rules(
        ScrollBarMetrics { thickness: 8, min_handle_len: 10, min_len: 30 },
        AxisInfo { vertical: true },
    );
    assert_eq!(across.min_len, 8);
}

#[test]
fn draw_reports_position_and_highlight() {
    let mut sb = vertical_bar(100, 20, 100);
    let mut mgr = Manager::new();
    sb.set_value(&mut mgr, 80);
    let d = sb.draw(&mgr);
    assert!(d.vertical);
    assert_eq!(d.handle_len, 20);
    assert_eq!(d.position, 80);
    assert_eq!(d.highlight, HighlightState::Idle);
    mgr.request_press_grab(PressSource::Mouse(0), WidgetId(0));
    let d = sb.draw(&mgr);
    assert_eq!(d.highlight, HighlightState::Pressed);
}
