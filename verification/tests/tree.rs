use kas_core::data::CoreData;
use kas_core::event::{Event, PressSource, Response};
use kas_core::geom::{Coord, Rect, Size};
use kas_core::layout::{AxisInfo, SizeRules, StretchPolicy};
use kas_core::manager::Manager;
use kas_core::widget::{
    assign_ids, dispatch, hit_test, set_rect, size_rules, walk_ids, widget_id, LeafBehavior,
    LeafWidget, WidgetTree,
};
use kas_core::widgetid::WidgetId;

fn leaf(min: u32, ideal: u32, stretch: StretchPolicy, behavior: LeafBehavior) -> WidgetTree {
    WidgetTree::Leaf(LeafWidget {
        core: CoreData::new(),
        rules_horiz: SizeRules { min_len: min, ideal_len: ideal, stretch },
        rules_vert: SizeRules { min_len: 10, ideal_len: 10, stretch: StretchPolicy::Fixed },
        behavior,
    })
}

fn rects_of(t: &WidgetTree, out: &mut Vec<Rect>) {
    match t {
        WidgetTree::Leaf(l) => out.push(l.core.rect),
        WidgetTree::Row { core, children } | WidgetTree::Column { core, children } => {
            out.push(core.rect);
            for c in children {
                rects_of(c, out);
            }
        }
    }
}

fn ids_of(t: &WidgetTree, out: &mut Vec<u32>) {
    match t {
        WidgetTree::Leaf(l) => out.push(l.core.id.0),
        WidgetTree::Row { core, children } | WidgetTree::Column { core, children } => {
            for c in children {
                ids_of(c, out);
            }
            out.push(core.id.0);
        }
    }
}

fn sample_tree() -> WidgetTree {
    let inner = WidgetTree::Column {
        core: CoreData::new(),
        children: vec![
            leaf(5, 5, StretchPolicy::Fixed, LeafBehavior::Consume),
            leaf(5, 5, StretchPolicy::Fixed, LeafBehavior::EmitValue(7)),
        ],
    };
    WidgetTree::Row {
        core: CoreData::new(),
        children: vec![
            leaf(10, 20, StretchPolicy::Fixed, LeafBehavior::Consume),
            inner,
            leaf(30, 30, StretchPolicy::High, LeafBehavior::Decline),
        ],
    }
}

#[test]
fn assign_ids_is_depth_first_post_order() {
    let t = sample_tree();
    let (t, next) = assign_ids(&t, 1);
    // 6 widgets: leaf 1, column's leaves 2 and 3, column 4, leaf 5, row 6
    assert_eq!(next, 7);
    let mut ids = Vec::new();
    ids_of(&t, &mut ids);
    assert_eq!(ids, vec![1, 2, 3, 4, 5, 6]);
    assert_eq!(widget_id(&t), WidgetId(6));
    // the traversal visits every descendant before its parent
    let walked: Vec<u32> = walk_ids(&t).iter().map(|w| w.0).collect();
    assert_eq!(walked, ids);
}

#[test]
fn children_are_fetched_by_index() {
    let t = sample_tree();
    let (t, _) = assign_ids(&t, 1);
    assert_eq!(t.len_children(), 3);
    let second = t.get_child(1).unwrap();
    assert_eq!(second.len_children(), 2);
    assert_eq!(widget_id(second), WidgetId(4));
    assert!(t.get_child(3).is_none());
    assert!(second.get_child(0).unwrap().get_child(0).is_none());
}

#[test]
fn id_containment_holds_for_every_subtree() {
    let t = sample_tree();
    let (t, _) = assign_ids(&t, 1);
    // the column occupies ids 2..=4: its own id is the subtree maximum
    if let WidgetTree::Row { children, .. } = &t {
        let column = &children[1];
        assert_eq!(widget_id(column), WidgetId(4));
        let mut ids = Vec::new();
        ids_of(column, &mut ids);
        for id in ids {
            assert!(2 <= id && id <= 4);
        }
        // the earlier sibling's id is below the column's first id
        assert_eq!(widget_id(&children[0]), WidgetId(1));
        // the later sibling's id is above the column's own id
        assert_eq!(widget_id(&children[2]), WidgetId(5));
    } else {
        panic!("expected a row");
    }
}

#[test]
fn size_rules_combine_children() {
    let t = sample_tree();
    let horiz = size_rules(&t, AxisInfo { vertical: false });
    // sequential along the row: minima 10 + max(5,5) + 30
    assert_eq!(horiz.min_len, 45);
    assert_eq!(horiz.stretch, StretchPolicy::High);
    let vert = size_rules(&t, AxisInfo { vertical: true });
    // parallel across the row; the column stacks two 10s
    assert_eq!(vert.min_len, 20);
}

#[test]
fn layout_splits_a_row_with_the_solver() {
    let t = sample_tree();
    let (t, _) = assign_ids(&t, 1);
    let rect = Rect { pos: Coord(0, 0), size: Size(100, 40) };
    let t = set_rect(&t, rect);
    let mut rects = Vec::new();
    rects_of(&t, &mut rects);
    // row: minima 10/5/30, ideal growth 10 funded, surplus 45 to the
    // High child: widths 20, 5, 75.
    assert_eq!(rects[0], rect);
    assert_eq!(rects[1], Rect { pos: Coord(0, 0), size: Size(20, 40) });
    // the column at x=20, 5 wide, splits its 40 px height into 20+20
    assert_eq!(rects[2], Rect { pos: Coord(20, 0), size: Size(5, 40) });
    assert_eq!(rects[3], Rect { pos: Coord(20, 0), size: Size(5, 20) });
    assert_eq!(rects[4], Rect { pos: Coord(20, 20), size: Size(5, 20) });
    assert_eq!(rects[5], Rect { pos: Coord(25, 0), size: Size(75, 40) });
}

#[test]
fn layout_twice_yields_identical_rectangles() {
    let t = sample_tree();
    let (t, _) = assign_ids(&t, 1);
    let rect = Rect { pos: Coord(3, 4), size: Size(97, 33) };
    let once = set_rect(&t, rect);
    let twice = set_rect(&once, rect);
    let mut r1 = Vec::new();
    let mut r2 = Vec::new();
    rects_of(&once, &mut r1);
    rects_of(&twice, &mut r2);
    assert_eq!(r1, r2);
}

#[test]
fn hit_test_finds_the_deepest_widget() {
    let t = sample_tree();
    let (t, _) = assign_ids(&t, 1);
    let t = set_rect(&t, Rect { pos: Coord(0, 0), size: Size(100, 40) });
    assert_eq!(hit_test(&t, Coord(5, 5)), Some(WidgetId(1)));
    assert_eq!(hit_test(&t, Coord(21, 25)), Some(WidgetId(3)));
    assert_eq!(hit_test(&t, Coord(50, 20)), Some(WidgetId(5)));
    assert_eq!(hit_test(&t, Coord(500, 5)), None);
}

#[test]
fn unhandled_event_reaches_the_parents_default_handling() {
    let t = sample_tree();
    let (t, _) = assign_ids(&t, 1);
    let t = set_rect(&t, Rect { pos: Coord(0, 0), size: Size(100, 40) });
    let mut mgr = Manager::new();
    // Press the declining leaf (id 5): it leaves the press unhandled,
    // and its parent the row (id 6) reprocesses it with the default
    // focus-follow handling before anything rises further.
    let ev = Event::PressStart { source: PressSource::Mouse(0), coord: Coord(50, 20) };
    let r = dispatch(&mut mgr, &t, ev);
    assert_eq!(r, Response::Used);
    assert_eq!(mgr.hover(), Some(WidgetId(6)));
}

#[test]
fn consuming_and_message_leaves() {
    let t = sample_tree();
    let (t, _) = assign_ids(&t, 1);
    let t = set_rect(&t, Rect { pos: Coord(0, 0), size: Size(100, 40) });
    let mut mgr = Manager::new();
    let r = dispatch(
        &mut mgr,
        &t,
        Event::PressStart { source: PressSource::Mouse(0), coord: Coord(5, 5) },
    );
    assert_eq!(r, Response::Used);
    let r = dispatch(
        &mut mgr,
        &t,
        Event::PressStart { source: PressSource::Mouse(0), coord: Coord(21, 30) },
    );
    assert_eq!(r, Response::Msg(7));
}

#[test]
fn grabbed_source_routes_to_the_holder() {
    let t = sample_tree();
    let (t, _) = assign_ids(&t, 1);
    let t = set_rect(&t, Rect { pos: Coord(0, 0), size: Size(100, 40) });
    let mut mgr = Manager::new();
    let src = PressSource::Touch(0);
    mgr.request_press_grab(src, WidgetId(1));
    // the pointer is far from widget 1, but the grab wins
    let r = dispatch(&mut mgr, &t, Event::PressMove { source: src, coord: Coord(90, 39) });
    assert_eq!(r, Response::Used);
    // a press end is delivered and then clears the grab unconditionally
    let r = dispatch(&mut mgr, &t, Event::PressEnd { source: src, coord: Coord(90, 39) });
    assert_eq!(r, Response::Used);
    assert_eq!(mgr.grab_of(src), None);
}

#[test]
fn activation_goes_to_the_focused_widget() {
    let t = sample_tree();
    let (t, _) = assign_ids(&t, 1);
    let t = set_rect(&t, Rect { pos: Coord(0, 0), size: Size(100, 40) });
    let mut mgr = Manager::new();
    // with no focus the event is unhandled
    assert_eq!(dispatch(&mut mgr, &t, Event::Activate), Response::Unhandled(Event::Activate));
    mgr.set_focus(Some(WidgetId(1)));
    // the consuming leaf takes it
    assert_eq!(dispatch(&mut mgr, &t, Event::Activate), Response::Used);
}

#[test]
fn stale_target_falls_back_to_an_ancestor() {
    // A grab may outlive the widget it points at: a target id not
    // present in the tree is delivered to the nearest widget whose id
    // range admits it, here the root itself, and handled generically.
    let t = sample_tree();
    let (t, _) = assign_ids(&t, 1);
    let t = set_rect(&t, Rect { pos: Coord(0, 0), size: Size(100, 40) });
    let mut mgr = Manager::new();
    let src = PressSource::Touch(9);
    mgr.request_press_grab(src, WidgetId(60));
    let r = dispatch(&mut mgr, &t, Event::PressMove { source: src, coord: Coord(1, 1) });
    assert_eq!(r, Response::Unhandled(Event::PressMove { source: src, coord: Coord(1, 1) }));
}

#[test]
fn press_outside_every_widget_is_unhandled() {
    let t = sample_tree();
    let (t, _) = assign_ids(&t, 1);
    let t = set_rect(&t, Rect { pos: Coord(0, 0), size: Size(100, 40) });
    let mut mgr = Manager::new();
    let ev = Event::PressStart { source: PressSource::Mouse(0), coord: Coord(200, 200) };
    assert_eq!(dispatch(&mut mgr, &t, ev), Response::Unhandled(ev));
}
