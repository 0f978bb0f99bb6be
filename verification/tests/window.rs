use kas_core::data::CoreData;
use kas_core::event::{Event, PressSource, Response};
use kas_core::geom::{Coord, Size};
use kas_core::layout::{SizeRules, StretchPolicy};
use kas_core::manager::Manager;
use kas_core::widget::{widget_id, LeafBehavior, LeafWidget, WidgetTree};
use kas_core::widgetid::WidgetId;
use kas_core::window::Window;

fn two_leaf_row() -> WidgetTree {
    let fixed = SizeRules { min_len: 10, ideal_len: 10, stretch: StretchPolicy::Fixed };
    let grow = SizeRules { min_len: 10, ideal_len: 10, stretch: StretchPolicy::High };
    WidgetTree::Row {
        core: CoreData::new(),
        children: vec![
            WidgetTree::Leaf(LeafWidget {
                core: CoreData::new(),
                rules_horiz: fixed,
                rules_vert: fixed,
                behavior: LeafBehavior::EmitValue(3),
            }),
            WidgetTree::Leaf(LeafWidget {
                core: CoreData::new(),
                rules_horiz: grow,
                rules_vert: fixed,
                behavior: LeafBehavior::Decline,
            }),
        ],
    }
}

#[test]
fn try_new_rejects_inverted_rules() {
    let bad = WidgetTree::Leaf(LeafWidget {
        core: CoreData::new(),
        rules_horiz: SizeRules { min_len: 10, ideal_len: 5, stretch: StretchPolicy::Fixed },
        rules_vert: SizeRules { min_len: 1, ideal_len: 1, stretch: StretchPolicy::Fixed },
        behavior: LeafBehavior::Consume,
    });
    assert!(Window::try_new(bad).is_none());
    assert!(Window::try_new(two_leaf_row()).is_some());
}

#[test]
fn resize_assigns_ids_and_lays_out() {
    let mut win = Window::try_new(two_leaf_row()).unwrap();
    win.resize(Size(100, 10));
    // children get ids 1 and 2, the row takes the subtree maximum 3
    assert_eq!(widget_id(&win.root), WidgetId(3));
    if let WidgetTree::Row { children, .. } = &win.root {
        assert_eq!(widget_id(&children[0]), WidgetId(1));
        assert_eq!(widget_id(&children[1]), WidgetId(2));
        if let WidgetTree::Leaf(l) = &children[1] {
            // the stretching leaf absorbs the surplus: 90 of 100
            assert_eq!(l.core.rect.size.0, 90);
            assert_eq!(l.core.rect.pos.0, 10);
        } else {
            panic!("expected a leaf");
        }
    } else {
        panic!("expected a row");
    }
}

#[test]
fn events_route_after_resize() {
    let mut win = Window::try_new(two_leaf_row()).unwrap();
    win.resize(Size(100, 10));
    // press the message-emitting leaf
    let r = win.handle_event(Event::PressStart {
        source: PressSource::Mouse(0),
        coord: Coord(5, 5),
    });
    assert_eq!(r, Response::Msg(3));
    // press the declining leaf: the row's default handling hovers it
    let r = win.handle_event(Event::PressStart {
        source: PressSource::Mouse(0),
        coord: Coord(50, 5),
    });
    assert_eq!(r, Response::Used);
    assert_eq!(win.mgr.hover(), Some(WidgetId(3)));
}

#[test]
fn redraw_queue_flushes_once() {
    let mut win = Window::try_new(two_leaf_row()).unwrap();
    win.resize(Size(100, 10));
    win.mgr.redraw(WidgetId(1));
    win.mgr.redraw(WidgetId(2));
    let dirty = win.take_redraws();
    assert_eq!(dirty.len(), 2);
    assert!(win.take_redraws().is_empty());
    // a fresh manager has nothing pending
    let mgr = Manager::new();
    assert_eq!(mgr.grab_of(PressSource::Mouse(0)), None);
}
