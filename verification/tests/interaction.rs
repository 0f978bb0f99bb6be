use kas_core::event::PressSource;
use kas_core::manager::{HighlightState, Manager};
use kas_core::widgetid::{id_in_range, WidgetId};

#[test]
fn grab_exclusivity() {
    let mut mgr = Manager::new();
    let src = PressSource::Mouse(0);
    let a = WidgetId(3);
    let b = WidgetId(7);
    mgr.request_press_grab(src, a);
    assert_eq!(mgr.grab_of(src), Some(a));
    mgr.request_press_grab(src, b);
    // The later request wins: only b now receives events for src.
    assert_eq!(mgr.grab_of(src), Some(b));
}

#[test]
fn grabs_are_per_source() {
    let mut mgr = Manager::new();
    let m0 = PressSource::Mouse(0);
    let t1 = PressSource::Touch(1);
    mgr.request_press_grab(m0, WidgetId(3));
    mgr.request_press_grab(t1, WidgetId(9));
    assert_eq!(mgr.grab_of(m0), Some(WidgetId(3)));
    assert_eq!(mgr.grab_of(t1), Some(WidgetId(9)));
    mgr.release_grab(m0);
    assert_eq!(mgr.grab_of(m0), None);
    assert_eq!(mgr.grab_of(t1), Some(WidgetId(9)));
}

#[test]
fn release_without_grab_is_harmless() {
    let mut mgr = Manager::new();
    mgr.release_grab(PressSource::Touch(4));
    assert_eq!(mgr.grab_of(PressSource::Touch(4)), None);
}

#[test]
fn grab_changes_mark_widgets_dirty() {
    let mut mgr = Manager::new();
    let src = PressSource::Mouse(1);
    mgr.request_press_grab(src, WidgetId(3));
    let dirty = mgr.take_dirty();
    assert!(dirty.contains(&WidgetId(3)));
    // replacing the grab marks both the prior and the new holder
    mgr.request_press_grab(src, WidgetId(3));
    mgr.request_press_grab(src, WidgetId(8));
    let dirty = mgr.take_dirty();
    assert!(dirty.contains(&WidgetId(3)));
    assert!(dirty.contains(&WidgetId(8)));
}

#[test]
fn dirty_queue_is_deduplicated() {
    let mut mgr = Manager::new();
    mgr.redraw(WidgetId(5));
    mgr.redraw(WidgetId(5));
    mgr.redraw(WidgetId(6));
    let dirty = mgr.take_dirty();
    assert_eq!(dirty.len(), 2);
    assert!(mgr.take_dirty().is_empty());
}

#[test]
fn highlight_priority_pressed_focused_hover() {
    let mut mgr = Manager::new();
    let id = WidgetId(4);
    assert_eq!(mgr.highlight_state(id), HighlightState::Idle);
    mgr.set_hover(Some(id));
    assert_eq!(mgr.highlight_state(id), HighlightState::Hover);
    mgr.set_focus(Some(id));
    assert_eq!(mgr.highlight_state(id), HighlightState::Focused);
    mgr.request_press_grab(PressSource::Mouse(0), id);
    assert_eq!(mgr.highlight_state(id), HighlightState::Pressed);
    mgr.release_grab(PressSource::Mouse(0));
    assert_eq!(mgr.highlight_state(id), HighlightState::Focused);
    mgr.set_focus(None);
    assert_eq!(mgr.highlight_state(id), HighlightState::Hover);
}

#[test]
fn focus_changes_mark_both_widgets_dirty() {
    let mut mgr = Manager::new();
    mgr.set_focus(Some(WidgetId(2)));
    mgr.take_dirty();
    mgr.set_focus(Some(WidgetId(5)));
    let dirty = mgr.take_dirty();
    assert!(dirty.contains(&WidgetId(2)));
    assert!(dirty.contains(&WidgetId(5)));
}

#[test]
fn id_range_containment_test() {
    // subtree occupying ids 3..=9
    assert!(id_in_range(WidgetId(3), WidgetId(9), WidgetId(3)));
    assert!(id_in_range(WidgetId(3), WidgetId(9), WidgetId(9)));
    assert!(id_in_range(WidgetId(3), WidgetId(9), WidgetId(5)));
    assert!(!id_in_range(WidgetId(3), WidgetId(9), WidgetId(2)));
    assert!(!id_in_range(WidgetId(3), WidgetId(9), WidgetId(10)));
}
