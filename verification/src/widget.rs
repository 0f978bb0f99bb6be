//! The widget tree: id assignment, the two-phase layout pass and event
//! routing.
//!
//! A [`WidgetTree`] composes leaf widgets into rows and columns. The
//! id-assignment walk gives every widget a [`WidgetId`] in depth-first
//! order, children before parents, so that a widget's id is the maximum
//! of its subtree and subtree containment is an interval test. The layout
//! pass computes each container's [`SizeRules`] from its children
//! (bottom-up) and then splits allocated rectangles back down with the
//! [`crate::solve`] solver (top-down). Event routing walks from the root
//! toward a target id by containment, delivers the event there, and lets
//! each ancestor's generic handling reprocess whatever its child left
//! unhandled.

use vstd::prelude::*;

use crate::data::CoreData;
use crate::event::{Event, PressSource, Response};
use crate::manager::{grab_lookup, Manager};
use crate::geom::{Coord, Rect, Size};
use crate::layout::{AxisInfo, SizeRules};
use crate::solve::{
    alloc_at, alloc_sum, lemma_alloc_prefix_le_available, rules_wf, solve,
};
use crate::widgetid::WidgetId;

verus! {

/// What a leaf widget's handler answers when an event is delivered to it.
#[derive(Clone, Copy, Debug, PartialEq, Eq, Structural)]
pub enum LeafBehavior {
    /// Consume the event silently.
    Consume,
    /// Report a message carrying this value to the parent.
    EmitValue(u32),
    /// Leave the event unhandled: an ancestor should reprocess it.
    Decline,
}

/// A leaf widget: its core state, its layout demand per axis, and what
/// its handler answers.
#[derive(Clone, Copy, Debug)]
pub struct LeafWidget {
    /// Shared widget state: id and allocated rectangle.
    pub core: CoreData,
    /// Layout demand along the horizontal axis.
    pub rules_horiz: SizeRules,
    /// Layout demand along the vertical axis.
    pub rules_vert: SizeRules,
    /// What this leaf's handler answers to an event.
    pub behavior: LeafBehavior,
}

/// A tree of widgets: leaves composed into rows and columns.
#[derive(Debug)]
pub enum WidgetTree {
    /// A leaf widget.
    Leaf(LeafWidget),
    /// A container laying its children out left to right.
    Row { core: CoreData, children: Vec<WidgetTree> },
    /// A container laying its children out top to bottom.
    Column { core: CoreData, children: Vec<WidgetTree> },
}

/// The number of widgets in the tree, the root included.
pub open spec fn tree_size(t: WidgetTree) -> nat
    decreases t,
{
    match t {
        WidgetTree::Leaf(_) => 1,
        WidgetTree::Row { core, children } => 1 + forest_size(children@),
        WidgetTree::Column { core, children } => 1 + forest_size(children@),
    }
}

/// The number of widgets in a sequence of sibling subtrees.
pub open spec fn forest_size(s: Seq<WidgetTree>) -> nat
    decreases s,
{
    if s.len() == 0 {
        0
    } else {
        tree_size(s.first()) + forest_size(s.drop_first())
    }
}

/// The root widget's id.
pub open spec fn root_id(t: WidgetTree) -> WidgetId {
    match t {
        WidgetTree::Leaf(l) => l.core.id,
        WidgetTree::Row { core, children } => core.id,
        WidgetTree::Column { core, children } => core.id,
    }
}

/// Ids are assigned depth-first from `next`: every widget's descendants
/// receive consecutive ids first, left to right, and the widget itself
/// receives the next id after all of them.
pub open spec fn ids_sequential(t: WidgetTree, next: int) -> bool
    decreases t,
{
    match t {
        WidgetTree::Leaf(l) => l.core.id.0 == next,
        WidgetTree::Row { core, children } => forest_ids_sequential(children@, next) && core.id.0
            == next + forest_size(children@),
        WidgetTree::Column { core, children } => forest_ids_sequential(children@, next)
            && core.id.0 == next + forest_size(children@),
    }
}

/// Sibling subtrees occupy consecutive id ranges, left to right.
pub open spec fn forest_ids_sequential(s: Seq<WidgetTree>, next: int) -> bool
    decreases s,
{
    if s.len() == 0 {
        true
    } else {
        ids_sequential(s.first(), next) && forest_ids_sequential(
            s.drop_first(),
            next + tree_size(s.first()),
        )
    }
}

/// Every id in the tree lies in `[lo, hi]`.
pub open spec fn all_ids_in(t: WidgetTree, lo: int, hi: int) -> bool
    decreases t,
{
    match t {
        WidgetTree::Leaf(l) => lo <= l.core.id.0 <= hi,
        WidgetTree::Row { core, children } => lo <= core.id.0 <= hi && forest_all_ids_in(
            children@,
            lo,
            hi,
        ),
        WidgetTree::Column { core, children } => lo <= core.id.0 <= hi && forest_all_ids_in(
            children@,
            lo,
            hi,
        ),
    }
}

/// Every id in every subtree of the sequence lies in `[lo, hi]`.
pub open spec fn forest_all_ids_in(s: Seq<WidgetTree>, lo: int, hi: int) -> bool
    decreases s,
{
    if s.len() == 0 {
        true
    } else {
        all_ids_in(s.first(), lo, hi) && forest_all_ids_in(s.drop_first(), lo, hi)
    }
}

/// Law (id containment): after sequential id assignment from `next`, the
/// root carries the maximum id of its subtree, every descendant's id lies
/// in `[next, root_id]`, and the tree occupies exactly the id interval
/// `[next, next + size - 1]`. Applied at any subtree (whose ids are
/// assigned from that subtree's own start), this is the containment
/// property the interval test of [`crate::widgetid`] relies on; sibling
/// ordering is [`lemma_forest_sibling_order`].
pub proof fn lemma_id_containment(t: WidgetTree, next: int)
    requires
        ids_sequential(t, next),
    ensures
        root_id(t).0 == next + tree_size(t) - 1,
        all_ids_in(t, next, next + tree_size(t) - 1),
    decreases t,
{
    match t {
        WidgetTree::Leaf(l) => {},
        WidgetTree::Row { core, children } => {
            lemma_forest_id_containment(children@, next);
            lemma_forest_widen(children@, next, next + forest_size(children@) - 1, next, next
                + forest_size(children@));
        },
        WidgetTree::Column { core, children } => {
            lemma_forest_id_containment(children@, next);
            lemma_forest_widen(children@, next, next + forest_size(children@) - 1, next, next
                + forest_size(children@));
        },
    }
}

/// Ids of a sequentially-assigned forest lie in its own id interval.
pub proof fn lemma_forest_id_containment(s: Seq<WidgetTree>, next: int)
    requires
        forest_ids_sequential(s, next),
    ensures
        forest_all_ids_in(s, next, next + forest_size(s) - 1),
    decreases s,
{
    if s.len() > 0 {
        lemma_id_containment(s.first(), next);
        lemma_forest_id_containment(s.drop_first(), next + tree_size(s.first()));
        lemma_tree_widen(s.first(), next, next + tree_size(s.first()) - 1, next, next
            + forest_size(s) - 1);
        lemma_forest_widen(s.drop_first(), next + tree_size(s.first()), next + forest_size(s) - 1,
            next, next + forest_size(s) - 1);
    }
}

/// An id interval bound may be widened.
pub proof fn lemma_tree_widen(t: WidgetTree, lo: int, hi: int, lo2: int, hi2: int)
    requires
        all_ids_in(t, lo, hi),
        lo2 <= lo,
        hi <= hi2,
    ensures
        all_ids_in(t, lo2, hi2),
    decreases t,
{
    match t {
        WidgetTree::Leaf(l) => {},
        WidgetTree::Row { core, children } => {
            lemma_forest_widen(children@, lo, hi, lo2, hi2);
        },
        WidgetTree::Column { core, children } => {
            lemma_forest_widen(children@, lo, hi, lo2, hi2);
        },
    }
}

/// An id interval bound may be widened, forest form.
pub proof fn lemma_forest_widen(s: Seq<WidgetTree>, lo: int, hi: int, lo2: int, hi2: int)
    requires
        forest_all_ids_in(s, lo, hi),
        lo2 <= lo,
        hi <= hi2,
    ensures
        forest_all_ids_in(s, lo2, hi2),
    decreases s,
{
    if s.len() > 0 {
        lemma_tree_widen(s.first(), lo, hi, lo2, hi2);
        lemma_forest_widen(s.drop_first(), lo, hi, lo2, hi2);
    }
}

/// Law (sibling ordering): in a sequentially-assigned forest, every id in
/// an earlier sibling's subtree is strictly below every id in a later
/// sibling's subtree; in particular an earlier sibling's id is below the
/// later sibling's first id.
pub proof fn lemma_forest_sibling_order(s: Seq<WidgetTree>, next: int, i: int, j: int)
    requires
        forest_ids_sequential(s, next),
        0 <= i < j < s.len(),
    ensures
        all_ids_in(s[i], next, next + forest_size(s.take(j)) - 1),
        forest_size(s.take(i + 1)) <= forest_size(s.take(j)),
        all_ids_in(s[j], next + forest_size(s.take(j)), next + forest_size(s) - 1),
    decreases j,
{
    lemma_forest_prefix_containment(s, next, i);
    lemma_forest_prefix_containment(s, next, j);
    lemma_forest_size_take_mono(s, i + 1, j);
    lemma_tree_widen(
        s[i],
        next + forest_size(s.take(i)),
        next + forest_size(s.take(i + 1)) - 1,
        next,
        next + forest_size(s.take(j)) - 1,
    );
    lemma_id_containment(s[j], next + forest_size(s.take(j)));
    lemma_forest_suffix_size(s, j);
    lemma_tree_widen(
        s[j],
        next + forest_size(s.take(j)),
        next + forest_size(s.take(j)) + tree_size(s[j]) - 1,
        next + forest_size(s.take(j)),
        next + forest_size(s) - 1,
    );
}

/// In a sequentially-assigned forest, sibling `i`'s subtree is assigned
/// sequentially from `next` plus the sizes of the earlier siblings.
pub proof fn lemma_forest_prefix_containment(s: Seq<WidgetTree>, next: int, i: int)
    requires
        forest_ids_sequential(s, next),
        0 <= i < s.len(),
    ensures
        ids_sequential(s[i], next + forest_size(s.take(i))),
        all_ids_in(
            s[i],
            next + forest_size(s.take(i)),
            next + forest_size(s.take(i + 1)) - 1,
        ),
    decreases i,
{
    if i == 0 {
        assert(s.take(0) =~= Seq::<WidgetTree>::empty());
        assert(s.take(1) =~= seq![s[0]]);
        assert(forest_size(seq![s[0]]) == tree_size(s[0]) + forest_size(
            seq![s[0]].drop_first(),
        ));
        assert(seq![s[0]].drop_first() =~= Seq::<WidgetTree>::empty());
        lemma_id_containment(s[0], next);
    } else {
        let rest = s.drop_first();
        lemma_forest_prefix_containment(rest, next + tree_size(s.first()), i - 1);
        assert(rest.take(i - 1) =~= s.take(i).drop_first());
        assert(rest.take(i) =~= s.take(i + 1).drop_first());
        assert(rest[i - 1] == s[i]);
        lemma_forest_size_cons(s.take(i));
        lemma_forest_size_cons(s.take(i + 1));
    }
}

/// Size of a nonempty forest: first subtree plus the rest.
pub proof fn lemma_forest_size_cons(s: Seq<WidgetTree>)
    requires
        s.len() > 0,
    ensures
        forest_size(s) == tree_size(s.first()) + forest_size(s.drop_first()),
{
}

/// Forest sizes grow with the prefix length.
pub proof fn lemma_forest_size_take_mono(s: Seq<WidgetTree>, i: int, j: int)
    requires
        0 <= i <= j <= s.len(),
    ensures
        forest_size(s.take(i)) <= forest_size(s.take(j)),
    decreases j,
{
    if i < j {
        lemma_forest_size_take_mono(s, i, j - 1);
        lemma_forest_take_snoc(s, j - 1);
    }
}

/// Taking one more subtree adds its size.
pub proof fn lemma_forest_take_snoc(s: Seq<WidgetTree>, j: int)
    requires
        0 <= j < s.len(),
    ensures
        forest_size(s.take(j + 1)) == forest_size(s.take(j)) + tree_size(s[j]),
    decreases j,
{
    if j == 0 {
        assert(s.take(0) =~= Seq::<WidgetTree>::empty());
        assert(s.take(1) =~= seq![s[0]]);
        assert(seq![s[0]].drop_first() =~= Seq::<WidgetTree>::empty());
    } else {
        let rest = s.drop_first();
        lemma_forest_take_snoc(rest, j - 1);
        assert(rest.take(j - 1) =~= s.take(j).drop_first());
        assert(rest.take(j) =~= s.take(j + 1).drop_first());
        assert(rest[j - 1] == s[j]);
        lemma_forest_size_cons(s.take(j));
        lemma_forest_size_cons(s.take(j + 1));
    }
}

/// The whole forest is the prefix up to `j` plus `s[j]` plus the rest.
pub proof fn lemma_forest_suffix_size(s: Seq<WidgetTree>, j: int)
    requires
        0 <= j < s.len(),
    ensures
        forest_size(s.take(j)) + tree_size(s[j]) <= forest_size(s),
    decreases s.len(),
{
    lemma_forest_take_snoc(s, j);
    lemma_forest_size_take_mono(s, j + 1, s.len() as int);
    assert(s.take(s.len() as int) =~= s);
}

/// Count the widgets of a well-formed tree, refusing a tree whose leaf
/// rules are inverted or whose size exceeds `budget`.
pub(crate) fn count_checked(t: &WidgetTree, budget: u32) -> (res: Option<u32>)
    ensures
        match res {
            Some(n) => tree_wf(*t) && n as int == tree_size(*t) && n <= budget,
            None => !(tree_wf(*t) && tree_size(*t) <= budget as int),
        },
    decreases *t,
{
    match t {
        WidgetTree::Leaf(l) => {
            if budget >= 1 && l.rules_horiz.min_len <= l.rules_horiz.ideal_len
                && l.rules_vert.min_len <= l.rules_vert.ideal_len {
                Some(1)
            } else {
                None
            }
        },
        WidgetTree::Row { core, children } => count_checked_forest(children, budget),
        WidgetTree::Column { core, children } => count_checked_forest(children, budget),
    }
}

/// Count a container's children against a budget that includes the
/// container itself.
fn count_checked_forest(children: &Vec<WidgetTree>, budget: u32) -> (res: Option<u32>)
    ensures
        match res {
            Some(n) => forest_wf(children@) && n as int == 1 + forest_size(children@) && n
                <= budget,
            None => !(forest_wf(children@) && 1 + forest_size(children@) <= budget as int),
        },
    decreases children@,
{
    if budget == 0 {
        return None;
    }
    let n: usize = children.len();
    let mut used: u32 = 0;
    let mut i: usize = 0;
    while i < n
        invariant
            n == children@.len(),
            i <= n,
            budget >= 1,
            forest_wf(children@.take(i as int)),
            used as int == forest_size(children@.take(i as int)),
            used <= budget - 1,
        decreases n - i,
    {
        proof {
            assert(children@.take(i as int + 1) =~= children@.take(i as int).push(
                children@[i as int],
            ));
            lemma_forest_size_snoc(children@.take(i as int), children@[i as int]);
        }
        match count_checked(&children[i], budget - 1 - used) {
            Some(c) => {
                proof {
                    lemma_forest_wf_snoc(children@.take(i as int), children@[i as int]);
                }
                used = used + c;
            },
            None => {
                proof {
                    if forest_wf(children@) && 1 + forest_size(children@) <= budget as int {
                        lemma_forest_wf_index(children@, i as int);
                        lemma_forest_suffix_size(children@, i as int);
                    }
                }
                return None;
            },
        }
        i = i + 1;
    }
    proof {
        assert(children@.take(n as int) =~= children@);
    }
    Some(used + 1)
}

/// The layout demand of a tree along one axis: leaves report their own
/// rules; a row combines children sequentially along the horizontal axis
/// and in parallel along the vertical one, a column the other way round.
pub open spec fn tree_rules(t: WidgetTree, vertical: bool) -> SizeRules
    decreases t,
{
    match t {
        WidgetTree::Leaf(l) => if vertical {
            l.rules_vert
        } else {
            l.rules_horiz
        },
        WidgetTree::Row { core, children } => if vertical {
            forest_rules_par(children@, vertical)
        } else {
            forest_rules_seq(children@, vertical)
        },
        WidgetTree::Column { core, children } => if vertical {
            forest_rules_seq(children@, vertical)
        } else {
            forest_rules_par(children@, vertical)
        },
    }
}

/// Sequential composition of the rules of sibling subtrees.
pub open spec fn forest_rules_seq(s: Seq<WidgetTree>, vertical: bool) -> SizeRules
    decreases s,
{
    if s.len() == 0 {
        SizeRules::spec_fixed(0)
    } else {
        SizeRules::spec_combine_sequential(
            tree_rules(s.first(), vertical),
            forest_rules_seq(s.drop_first(), vertical),
        )
    }
}

/// Parallel composition of the rules of sibling subtrees.
pub open spec fn forest_rules_par(s: Seq<WidgetTree>, vertical: bool) -> SizeRules
    decreases s,
{
    if s.len() == 0 {
        SizeRules::spec_fixed(0)
    } else {
        SizeRules::spec_combine_parallel(
            tree_rules(s.first(), vertical),
            forest_rules_par(s.drop_first(), vertical),
        )
    }
}

/// Every leaf's rules in the tree are well-formed.
pub open spec fn tree_wf(t: WidgetTree) -> bool
    decreases t,
{
    match t {
        WidgetTree::Leaf(l) => l.rules_horiz.wf() && l.rules_vert.wf(),
        WidgetTree::Row { core, children } => forest_wf(children@),
        WidgetTree::Column { core, children } => forest_wf(children@),
    }
}

/// Every leaf's rules in the forest are well-formed.
pub open spec fn forest_wf(s: Seq<WidgetTree>) -> bool
    decreases s,
{
    if s.len() == 0 {
        true
    } else {
        tree_wf(s.first()) && forest_wf(s.drop_first())
    }
}

/// Two trees have the same skeleton: the same shape, leaf rules and leaf
/// behaviors; ids and rectangles are free to differ.
pub open spec fn same_skeleton(a: WidgetTree, b: WidgetTree) -> bool
    decreases a,
{
    match (a, b) {
        (WidgetTree::Leaf(x), WidgetTree::Leaf(y)) => x.rules_horiz == y.rules_horiz
            && x.rules_vert == y.rules_vert && x.behavior == y.behavior,
        (
            WidgetTree::Row { core: c1, children: k1 },
            WidgetTree::Row { core: c2, children: k2 },
        ) => k1@.len() == k2@.len() && forall|i: int|
            0 <= i < k1@.len() ==> same_skeleton(#[trigger] k1@[i], k2@[i]),
        (
            WidgetTree::Column { core: c1, children: k1 },
            WidgetTree::Column { core: c2, children: k2 },
        ) => k1@.len() == k2@.len() && forall|i: int|
            0 <= i < k1@.len() ==> same_skeleton(#[trigger] k1@[i], k2@[i]),
        _ => false,
    }
}

/// The rectangles of the tree, in depth-first pre-order: the root's
/// rectangle first, then each child subtree's in turn.
pub open spec fn tree_rects(t: WidgetTree) -> Seq<Rect>
    decreases t,
{
    match t {
        WidgetTree::Leaf(l) => seq![l.core.rect],
        WidgetTree::Row { core, children } => seq![core.rect] + forest_rects(children@),
        WidgetTree::Column { core, children } => seq![core.rect] + forest_rects(children@),
    }
}

/// The rectangles of a forest, in sibling order.
pub open spec fn forest_rects(s: Seq<WidgetTree>) -> Seq<Rect>
    decreases s,
{
    if s.len() == 0 {
        Seq::empty()
    } else {
        tree_rects(s.first()) + forest_rects(s.drop_first())
    }
}

/// Appending one subtree to a forest adds its size.
pub proof fn lemma_forest_size_snoc(s: Seq<WidgetTree>, c: WidgetTree)
    ensures
        forest_size(s.push(c)) == forest_size(s) + tree_size(c),
    decreases s,
{
    if s.len() == 0 {
        let p = s.push(c);
        assert(p.len() == 1);
        assert(p.first() == c);
        assert(p.drop_first() =~= Seq::<WidgetTree>::empty());
        assert(forest_size(p.drop_first()) == 0);
        assert(forest_size(p) == tree_size(p.first()) + forest_size(p.drop_first()));
        assert(forest_size(s) == 0);
    } else {
        assert(s.push(c).first() == s.first());
        assert(s.push(c).drop_first() =~= s.drop_first().push(c));
        lemma_forest_size_snoc(s.drop_first(), c);
    }
}

/// Appending one sequentially-assigned subtree keeps the forest
/// sequentially assigned.
pub proof fn lemma_forest_ids_snoc(s: Seq<WidgetTree>, c: WidgetTree, next: int)
    requires
        forest_ids_sequential(s, next),
        ids_sequential(c, next + forest_size(s)),
    ensures
        forest_ids_sequential(s.push(c), next),
    decreases s,
{
    if s.len() == 0 {
        let p = s.push(c);
        assert(p.first() == c);
        assert(p.drop_first() =~= Seq::<WidgetTree>::empty());
        assert(forest_ids_sequential(p.drop_first(), next + tree_size(c)));
        assert(forest_size(s) == 0);
        assert(forest_ids_sequential(p, next) == (ids_sequential(p.first(), next)
            && forest_ids_sequential(p.drop_first(), next + tree_size(p.first()))));
    } else {
        assert(s.push(c).first() == s.first());
        assert(s.push(c).drop_first() =~= s.drop_first().push(c));
        lemma_forest_size_snoc(s.drop_first(), c);
        lemma_forest_ids_snoc(s.drop_first(), c, next + tree_size(s.first()));
        assert(forest_ids_sequential(s.push(c), next) == (ids_sequential(s.push(c).first(), next)
            && forest_ids_sequential(s.push(c).drop_first(), next + tree_size(s.push(c).first()))));
    }
}

/// One subtree of a well-formed forest is well-formed.
pub proof fn lemma_forest_wf_index(s: Seq<WidgetTree>, i: int)
    requires
        forest_wf(s),
        0 <= i < s.len(),
    ensures
        tree_wf(s[i]),
    decreases i,
{
    if i == 0 {
        assert(s.first() == s[0]);
    } else {
        lemma_forest_wf_index(s.drop_first(), i - 1);
        assert(s.drop_first()[i - 1] == s[i]);
    }
}

/// Appending a well-formed subtree keeps the forest well-formed.
pub proof fn lemma_forest_wf_snoc(s: Seq<WidgetTree>, c: WidgetTree)
    requires
        forest_wf(s),
        tree_wf(c),
    ensures
        forest_wf(s.push(c)),
    decreases s,
{
    if s.len() == 0 {
        let p = s.push(c);
        assert(p.first() == c);
        assert(p.drop_first() =~= Seq::<WidgetTree>::empty());
        assert(forest_wf(p.drop_first()));
        assert(forest_wf(p) == (tree_wf(p.first()) && forest_wf(p.drop_first())));
    } else {
        assert(s.push(c).first() == s.first());
        assert(s.push(c).drop_first() =~= s.drop_first().push(c));
        lemma_forest_wf_snoc(s.drop_first(), c);
        assert(forest_wf(s.push(c)) == (tree_wf(s.push(c).first()) && forest_wf(
            s.push(c).drop_first(),
        )));
    }
}

/// Appending one subtree appends its rectangles.
pub proof fn lemma_forest_rects_snoc(s: Seq<WidgetTree>, c: WidgetTree)
    ensures
        forest_rects(s.push(c)) == forest_rects(s) + tree_rects(c),
    decreases s,
{
    if s.len() == 0 {
        assert(s.push(c).first() == c);
        assert(s.push(c).drop_first() =~= Seq::<WidgetTree>::empty());
        assert(forest_rects(Seq::<WidgetTree>::empty()) =~= Seq::<Rect>::empty());
        assert(tree_rects(c) + Seq::<Rect>::empty() =~= tree_rects(c));
        assert(forest_rects(s) + tree_rects(c) =~= tree_rects(c));
    } else {
        assert(s.push(c).first() == s.first());
        assert(s.push(c).drop_first() =~= s.drop_first().push(c));
        lemma_forest_rects_snoc(s.drop_first(), c);
        assert(tree_rects(s.first()) + (forest_rects(s.drop_first()) + tree_rects(c)) =~= (
        tree_rects(s.first()) + forest_rects(s.drop_first())) + tree_rects(c));
    }
}

/// The rectangles of a one-longer prefix.
pub proof fn lemma_forest_rects_take_snoc(s: Seq<WidgetTree>, j: int)
    requires
        0 <= j < s.len(),
    ensures
        forest_rects(s.take(j + 1)) == forest_rects(s.take(j)) + tree_rects(s[j]),
{
    assert(s.take(j + 1) =~= s.take(j).push(s[j]));
    lemma_forest_rects_snoc(s.take(j), s[j]);
}

/// Assign ids to the whole tree by a depth-first walk starting at `next`:
/// children first, left to right, then the widget itself; the result pairs
/// the re-identified tree with the next unused id. Shape, rules,
/// behaviors and rectangles are untouched.
pub fn assign_ids(t: &WidgetTree, next: u32) -> (res: (WidgetTree, u32))
    requires
        next as int + tree_size(*t) <= u32::MAX as int,
    ensures
        res.1 as int == next as int + tree_size(*t),
        tree_size(res.0) == tree_size(*t),
        ids_sequential(res.0, next as int),
        same_skeleton(*t, res.0),
        tree_rects(res.0) == tree_rects(*t),
        tree_wf(*t) ==> tree_wf(res.0),
    decreases *t,
{
    match t {
        WidgetTree::Leaf(l) => {
            let mut l2 = *l;
            l2.core.id = WidgetId(next);
            proof {
                assert(tree_rects(WidgetTree::Leaf(l2)) =~= tree_rects(*t));
            }
            (WidgetTree::Leaf(l2), next + 1)
        },
        WidgetTree::Row { core, children } => {
            let (out, cur) = assign_forest(children, next);
            let core2 = CoreData { id: WidgetId(cur), rect: core.rect };
            (WidgetTree::Row { core: core2, children: out }, cur + 1)
        },
        WidgetTree::Column { core, children } => {
            let (out, cur) = assign_forest(children, next);
            let core2 = CoreData { id: WidgetId(cur), rect: core.rect };
            (WidgetTree::Column { core: core2, children: out }, cur + 1)
        },
    }
}

/// Assign ids to a sequence of sibling subtrees, left to right.
fn assign_forest(s: &Vec<WidgetTree>, next: u32) -> (res: (Vec<WidgetTree>, u32))
    requires
        next as int + forest_size(s@) <= u32::MAX as int,
    ensures
        res.1 as int == next as int + forest_size(s@),
        forest_size(res.0@) == forest_size(s@),
        forest_ids_sequential(res.0@, next as int),
        res.0@.len() == s@.len(),
        forall|i: int| 0 <= i < s@.len() ==> same_skeleton(#[trigger] s@[i], res.0@[i]),
        forest_rects(res.0@) == forest_rects(s@),
        forest_wf(s@) ==> forest_wf(res.0@),
    decreases s@,
{
    let n: usize = s.len();
    let mut out: Vec<WidgetTree> = Vec::new();
    let mut cur: u32 = next;
    let mut i: usize = 0;
    while i < n
        invariant
            n == s@.len(),
            i <= n,
            next as int + forest_size(s@) <= u32::MAX as int,
            out@.len() == i,
            cur as int == next as int + forest_size(s@.take(i as int)),
            forest_ids_sequential(out@, next as int),
            forest_size(out@) == forest_size(s@.take(i as int)),
            forall|j: int| 0 <= j < i ==> same_skeleton(#[trigger] s@[j], out@[j]),
            forest_rects(out@) == forest_rects(s@.take(i as int)),
            forest_wf(s@) ==> forest_wf(out@),
        decreases n - i,
    {
        proof {
            lemma_forest_take_snoc(s@, i as int);
            lemma_forest_size_take_mono(s@, i + 1 as int, n as int);
            assert(s@.take(n as int) =~= s@);
            if forest_wf(s@) {
                lemma_forest_wf_index(s@, i as int);
            }
        }
        let (c2, cur2) = assign_ids(&s[i], cur);
        proof {
            lemma_forest_ids_snoc(out@, c2, next as int);
            lemma_forest_size_snoc(out@, c2);
            lemma_forest_rects_snoc(out@, c2);
            lemma_forest_rects_take_snoc(s@, i as int);
            if forest_wf(s@) {
                lemma_forest_wf_snoc(out@, c2);
            }
        }
        out.push(c2);
        cur = cur2;
        i = i + 1;
    }
    proof {
        assert(s@.take(n as int) =~= s@);
    }
    (out, cur)
}

/// Phase 1 of the layout pass: compute the tree's layout demand along
/// one axis, bottom-up. Containers combine their children with the
/// operators of [`crate::layout`]; leaves report their stored
/// (content-derived) rules.
pub fn size_rules(t: &WidgetTree, axis: AxisInfo) -> (r: SizeRules)
    requires
        tree_wf(*t),
    ensures
        r == tree_rules(*t, axis.vertical),
        r.wf(),
    decreases *t,
{
    match t {
        WidgetTree::Leaf(l) => {
            if axis.vertical {
                l.rules_vert
            } else {
                l.rules_horiz
            }
        },
        WidgetTree::Row { core, children } => combine_forest(children, axis, !axis.vertical),
        WidgetTree::Column { core, children } => combine_forest(children, axis, axis.vertical),
    }
}

/// Fold the rules of sibling subtrees along one axis, sequentially or in
/// parallel.
fn combine_forest(children: &Vec<WidgetTree>, axis: AxisInfo, sequential: bool) -> (r: SizeRules)
    requires
        forest_wf(children@),
    ensures
        sequential ==> r == forest_rules_seq(children@, axis.vertical),
        !sequential ==> r == forest_rules_par(children@, axis.vertical),
        r.wf(),
    decreases children@,
{
    let n: usize = children.len();
    let mut acc: SizeRules = SizeRules::fixed(0);
    let mut i: usize = n;
    proof {
        assert(children@.skip(n as int) =~= Seq::<WidgetTree>::empty());
    }
    while i > 0
        invariant
            n == children@.len(),
            forest_wf(children@),
            i <= n,
            sequential ==> acc == forest_rules_seq(children@.skip(i as int), axis.vertical),
            !sequential ==> acc == forest_rules_par(children@.skip(i as int), axis.vertical),
            acc.wf(),
        decreases i,
    {
        i = i - 1;
        proof {
            lemma_forest_wf_index(children@, i as int);
            assert(children@.skip(i as int).first() == children@[i as int]);
            assert(children@.skip(i as int).drop_first() =~= children@.skip(i as int + 1));
        }
        let cr = size_rules(&children[i], axis);
        acc = if sequential {
            SizeRules::combine_sequential(cr, acc)
        } else {
            SizeRules::combine_parallel(cr, acc)
        };
    }
    proof {
        assert(children@.skip(0) =~= children@);
    }
    acc
}

/// The per-child layout rules of a forest along one axis.
pub open spec fn forest_child_rules(s: Seq<WidgetTree>, vertical: bool) -> Seq<SizeRules> {
    Seq::new(s.len(), |i: int| tree_rules(s[i], vertical))
}

/// The rectangle child `i` of a row receives when `rect` is split along
/// the horizontal axis by the solver.
pub open spec fn child_rect_row(rect: Rect, rules: Seq<SizeRules>, i: int) -> Rect {
    Rect {
        pos: Coord((rect.pos.0 + alloc_sum(rules, rect.size.0 as int, i)) as i32, rect.pos.1),
        size: Size(alloc_at(rules, rect.size.0 as int, i) as u32, rect.size.1),
    }
}

/// The rectangle child `i` of a column receives when `rect` is split
/// along the vertical axis by the solver.
pub open spec fn child_rect_column(rect: Rect, rules: Seq<SizeRules>, i: int) -> Rect {
    Rect {
        pos: Coord(rect.pos.0, (rect.pos.1 + alloc_sum(rules, rect.size.1 as int, i)) as i32),
        size: Size(rect.size.0, alloc_at(rules, rect.size.1 as int, i) as u32),
    }
}

/// Phase 2 of the layout pass as a relation: `tout` is `tin` with `rect`
/// assigned at the root and every child subtree laid out, recursively, in
/// the rectangle the solver gives it along the container's axis.
pub open spec fn layout_rel(tin: WidgetTree, rect: Rect, tout: WidgetTree) -> bool
    decreases tin,
{
    match (tin, tout) {
        (WidgetTree::Leaf(a), WidgetTree::Leaf(b)) => b == (LeafWidget {
            core: CoreData { id: a.core.id, rect },
            rules_horiz: a.rules_horiz,
            rules_vert: a.rules_vert,
            behavior: a.behavior,
        }),
        (
            WidgetTree::Row { core: c1, children: k1 },
            WidgetTree::Row { core: c2, children: k2 },
        ) => {
            &&& c2 == (CoreData { id: c1.id, rect })
            &&& k2@.len() == k1@.len()
            &&& forall|i: int|
                0 <= i < k1@.len() ==> layout_rel(
                    #[trigger] k1@[i],
                    child_rect_row(rect, forest_child_rules(k1@, false), i),
                    k2@[i],
                )
        },
        (
            WidgetTree::Column { core: c1, children: k1 },
            WidgetTree::Column { core: c2, children: k2 },
        ) => {
            &&& c2 == (CoreData { id: c1.id, rect })
            &&& k2@.len() == k1@.len()
            &&& forall|i: int|
                0 <= i < k1@.len() ==> layout_rel(
                    #[trigger] k1@[i],
                    child_rect_column(rect, forest_child_rules(k1@, true), i),
                    k2@[i],
                )
        },
        _ => false,
    }
}

/// Collect the per-child layout rules of a forest along one axis.
fn collect_rules(children: &Vec<WidgetTree>, axis: AxisInfo) -> (rs: Vec<SizeRules>)
    requires
        forest_wf(children@),
    ensures
        rs@ == forest_child_rules(children@, axis.vertical),
        rules_wf(rs@),
    decreases children@,
{
    let n: usize = children.len();
    let mut rs: Vec<SizeRules> = Vec::new();
    let mut i: usize = 0;
    while i < n
        invariant
            n == children@.len(),
            forest_wf(children@),
            i <= n,
            rs@.len() == i,
            forall|j: int|
                0 <= j < i ==> #[trigger] rs@[j] == tree_rules(children@[j], axis.vertical)
                    && rs@[j].wf(),
        decreases n - i,
    {
        proof {
            lemma_forest_wf_index(children@, i as int);
        }
        let r = size_rules(&children[i], axis);
        rs.push(r);
        i = i + 1;
    }
    proof {
        assert(rs@ =~= forest_child_rules(children@, axis.vertical));
    }
    rs
}

/// Phase 2 of the layout pass: accept an allocated rectangle, store it,
/// split it among the children along the container's axis with the
/// solver, and recurse. The result relates to the input by
/// [`layout_rel`]; running the pass again with the same rectangle yields
/// the same rectangles ([`lemma_layout_idempotent`]).
#[verifier::loop_isolation(false)]
#[verifier::rlimit(50)]
pub fn set_rect(t: &WidgetTree, rect: Rect) -> (out: WidgetTree)
    requires
        tree_wf(*t),
        rect.wf(),
    ensures
        layout_rel(*t, rect, out),
    decreases *t,
{
    match t {
        WidgetTree::Leaf(l) => {
            let mut l2 = *l;
            l2.core.rect = rect;
            WidgetTree::Leaf(l2)
        },
        WidgetTree::Row { core, children } => {
            let rs = collect_rules(children, AxisInfo { vertical: false });
            let widths = solve(&rs, rect.size.0);
            let n: usize = children.len();
            let mut out_children: Vec<WidgetTree> = Vec::new();
            let mut x: i32 = rect.pos.0;
            let mut i: usize = 0;
            while i < n
                invariant
                    n == children@.len(),
                    forest_wf(children@),
                    rect.wf(),
                    rs@ == forest_child_rules(children@, false),
                    rules_wf(rs@),
                    rs@.len() == n,
                    widths@.len() == n,
                    forall|j: int|
                        0 <= j < n ==> #[trigger] widths@[j] as int == alloc_at(
                            rs@,
                            rect.size.0 as int,
                            j,
                        ),
                    i <= n,
                    out_children@.len() == i,
                    x as int == rect.pos.0 + alloc_sum(rs@, rect.size.0 as int, i as int),
                    forall|j: int|
                        0 <= j < i ==> layout_rel(
                            #[trigger] children@[j],
                            child_rect_row(rect, rs@, j),
                            out_children@[j],
                        ),
                decreases n - i,
            {
                proof {
                    lemma_forest_wf_index(children@, i as int);
                    lemma_alloc_prefix_le_available(rs@, rect.size.0 as int, i as int);
                    lemma_alloc_prefix_le_available(rs@, rect.size.0 as int, i as int + 1);
                    assert(alloc_sum(rs@, rect.size.0 as int, i as int + 1) == alloc_sum(
                        rs@,
                        rect.size.0 as int,
                        i as int,
                    ) + alloc_at(rs@, rect.size.0 as int, i as int));
                }
                let crect = Rect { pos: Coord(x, rect.pos.1), size: Size(widths[i], rect.size.1) };
                let c2 = set_rect(&children[i], crect);
                out_children.push(c2);
                x = x + widths[i] as i32;
                i = i + 1;
            }
            WidgetTree::Row { core: CoreData { id: core.id, rect }, children: out_children }
        },
        WidgetTree::Column { core, children } => {
            let rs = collect_rules(children, AxisInfo { vertical: true });
            let heights = solve(&rs, rect.size.1);
            let n: usize = children.len();
            let mut out_children: Vec<WidgetTree> = Vec::new();
            let mut y: i32 = rect.pos.1;
            let mut i: usize = 0;
            while i < n
                invariant
                    n == children@.len(),
                    forest_wf(children@),
                    rect.wf(),
                    rs@ == forest_child_rules(children@, true),
                    rules_wf(rs@),
                    rs@.len() == n,
                    heights@.len() == n,
                    forall|j: int|
                        0 <= j < n ==> #[trigger] heights@[j] as int == alloc_at(
                            rs@,
                            rect.size.1 as int,
                            j,
                        ),
                    i <= n,
                    out_children@.len() == i,
                    y as int == rect.pos.1 + alloc_sum(rs@, rect.size.1 as int, i as int),
                    forall|j: int|
                        0 <= j < i ==> layout_rel(
                            #[trigger] children@[j],
                            child_rect_column(rect, rs@, j),
                            out_children@[j],
                        ),
                decreases n - i,
            {
                proof {
                    lemma_forest_wf_index(children@, i as int);
                    lemma_alloc_prefix_le_available(rs@, rect.size.1 as int, i as int);
                    lemma_alloc_prefix_le_available(rs@, rect.size.1 as int, i as int + 1);
                    assert(alloc_sum(rs@, rect.size.1 as int, i as int + 1) == alloc_sum(
                        rs@,
                        rect.size.1 as int,
                        i as int,
                    ) + alloc_at(rs@, rect.size.1 as int, i as int));
                }
                let crect = Rect { pos: Coord(rect.pos.0, y), size: Size(rect.size.0, heights[i]) };
                let c2 = set_rect(&children[i], crect);
                out_children.push(c2);
                y = y + heights[i] as i32;
                i = i + 1;
            }
            WidgetTree::Column { core: CoreData { id: core.id, rect }, children: out_children }
        },
    }
}

/// The layout pass keeps the skeleton: shape, leaf rules and behaviors.
pub proof fn lemma_layout_preserves_skeleton(a: WidgetTree, rect: Rect, b: WidgetTree)
    requires
        layout_rel(a, rect, b),
    ensures
        same_skeleton(a, b),
    decreases a,
{
    match (a, b) {
        (WidgetTree::Leaf(x), WidgetTree::Leaf(y)) => {},
        (
            WidgetTree::Row { core: c1, children: k1 },
            WidgetTree::Row { core: c2, children: k2 },
        ) => {
            assert forall|i: int| 0 <= i < k1@.len() implies same_skeleton(
                #[trigger] k1@[i],
                k2@[i],
            ) by {
                lemma_layout_preserves_skeleton(
                    k1@[i],
                    child_rect_row(rect, forest_child_rules(k1@, false), i),
                    k2@[i],
                );
            }
        },
        (
            WidgetTree::Column { core: c1, children: k1 },
            WidgetTree::Column { core: c2, children: k2 },
        ) => {
            assert forall|i: int| 0 <= i < k1@.len() implies same_skeleton(
                #[trigger] k1@[i],
                k2@[i],
            ) by {
                lemma_layout_preserves_skeleton(
                    k1@[i],
                    child_rect_column(rect, forest_child_rules(k1@, true), i),
                    k2@[i],
                );
            }
        },
        _ => {},
    }
}

/// Skeleton equality is transitive.
pub proof fn lemma_skeleton_trans(a: WidgetTree, b: WidgetTree, c: WidgetTree)
    requires
        same_skeleton(a, b),
        same_skeleton(b, c),
    ensures
        same_skeleton(a, c),
    decreases a,
{
    match (a, b, c) {
        (
            WidgetTree::Row { core: c1, children: k1 },
            WidgetTree::Row { core: c2, children: k2 },
            WidgetTree::Row { core: c3, children: k3 },
        ) => {
            assert forall|i: int| 0 <= i < k1@.len() implies same_skeleton(
                #[trigger] k1@[i],
                k3@[i],
            ) by {
                assert(same_skeleton(k1@[i], k2@[i]));
                assert(same_skeleton(k2@[i], k3@[i]));
                lemma_skeleton_trans(k1@[i], k2@[i], k3@[i]);
            }
        },
        (
            WidgetTree::Column { core: c1, children: k1 },
            WidgetTree::Column { core: c2, children: k2 },
            WidgetTree::Column { core: c3, children: k3 },
        ) => {
            assert forall|i: int| 0 <= i < k1@.len() implies same_skeleton(
                #[trigger] k1@[i],
                k3@[i],
            ) by {
                assert(same_skeleton(k1@[i], k2@[i]));
                assert(same_skeleton(k2@[i], k3@[i]));
                lemma_skeleton_trans(k1@[i], k2@[i], k3@[i]);
            }
        },
        _ => {},
    }
}

/// A forest is well-formed when each subtree is.
proof fn lemma_forest_wf_from_index(s: Seq<WidgetTree>)
    requires
        forall|i: int| 0 <= i < s.len() ==> tree_wf(#[trigger] s[i]),
    ensures
        forest_wf(s),
    decreases s,
{
    if s.len() > 0 {
        assert(tree_wf(s[0]));
        assert(s.first() == s[0]);
        assert forall|i: int| 0 <= i < s.drop_first().len() implies tree_wf(
            #[trigger] s.drop_first()[i],
        ) by {
            assert(s.drop_first()[i] == s[i + 1]);
        }
        lemma_forest_wf_from_index(s.drop_first());
    }
}

/// Well-formedness travels along skeleton equality: the skeleton carries
/// the leaf rules.
pub proof fn lemma_skeleton_wf(a: WidgetTree, b: WidgetTree)
    requires
        same_skeleton(a, b),
        tree_wf(a),
    ensures
        tree_wf(b),
    decreases a,
{
    match (a, b) {
        (
            WidgetTree::Row { core: c1, children: k1 },
            WidgetTree::Row { core: c2, children: k2 },
        ) => {
            assert forall|i: int| 0 <= i < k2@.len() implies tree_wf(#[trigger] k2@[i]) by {
                lemma_forest_wf_index(k1@, i);
                assert(same_skeleton(k1@[i], k2@[i]));
                lemma_skeleton_wf(k1@[i], k2@[i]);
            }
            lemma_forest_wf_from_index(k2@);
        },
        (
            WidgetTree::Column { core: c1, children: k1 },
            WidgetTree::Column { core: c2, children: k2 },
        ) => {
            assert forall|i: int| 0 <= i < k2@.len() implies tree_wf(#[trigger] k2@[i]) by {
                lemma_forest_wf_index(k1@, i);
                assert(same_skeleton(k1@[i], k2@[i]));
                lemma_skeleton_wf(k1@[i], k2@[i]);
            }
            lemma_forest_wf_from_index(k2@);
        },
        _ => {},
    }
}

/// Trees with the same skeleton report the same layout demand.
pub proof fn lemma_skeleton_rules(a: WidgetTree, b: WidgetTree, vertical: bool)
    requires
        same_skeleton(a, b),
    ensures
        tree_rules(a, vertical) == tree_rules(b, vertical),
    decreases a,
{
    match (a, b) {
        (WidgetTree::Leaf(x), WidgetTree::Leaf(y)) => {},
        (
            WidgetTree::Row { core: c1, children: k1 },
            WidgetTree::Row { core: c2, children: k2 },
        ) => {
            lemma_skeleton_rules_forest(k1@, k2@, vertical);
        },
        (
            WidgetTree::Column { core: c1, children: k1 },
            WidgetTree::Column { core: c2, children: k2 },
        ) => {
            lemma_skeleton_rules_forest(k1@, k2@, vertical);
        },
        _ => {},
    }
}

/// Forests with pairwise equal skeletons fold to the same rules.
pub proof fn lemma_skeleton_rules_forest(s1: Seq<WidgetTree>, s2: Seq<WidgetTree>, vertical: bool)
    requires
        s1.len() == s2.len(),
        forall|i: int| 0 <= i < s1.len() ==> same_skeleton(#[trigger] s1[i], s2[i]),
    ensures
        forest_rules_seq(s1, vertical) == forest_rules_seq(s2, vertical),
        forest_rules_par(s1, vertical) == forest_rules_par(s2, vertical),
        forest_child_rules(s1, vertical) == forest_child_rules(s2, vertical),
    decreases s1,
{
    if s1.len() > 0 {
        assert(same_skeleton(s1[0], s2[0]));
        lemma_skeleton_rules(s1.first(), s2.first(), vertical);
        assert forall|i: int| 0 <= i < s1.drop_first().len() implies same_skeleton(
            #[trigger] s1.drop_first()[i],
            s2.drop_first()[i],
        ) by {
            assert(s1.drop_first()[i] == s1[i + 1]);
            assert(s2.drop_first()[i] == s2[i + 1]);
        }
        lemma_skeleton_rules_forest(s1.drop_first(), s2.drop_first(), vertical);
    }
    assert forall|i: int| 0 <= i < s1.len() implies tree_rules(#[trigger] s1[i], vertical)
        == tree_rules(s2[i], vertical) by {
        lemma_skeleton_rules(s1[i], s2[i], vertical);
    }
    assert(forest_child_rules(s1, vertical) =~= forest_child_rules(s2, vertical));
}

/// Trees with the same skeleton have the same size.
pub proof fn lemma_skeleton_size(a: WidgetTree, b: WidgetTree)
    requires
        same_skeleton(a, b),
    ensures
        tree_size(a) == tree_size(b),
    decreases a,
{
    match (a, b) {
        (
            WidgetTree::Row { core: c1, children: k1 },
            WidgetTree::Row { core: c2, children: k2 },
        ) => {
            lemma_skeleton_size_forest(k1@, k2@);
        },
        (
            WidgetTree::Column { core: c1, children: k1 },
            WidgetTree::Column { core: c2, children: k2 },
        ) => {
            lemma_skeleton_size_forest(k1@, k2@);
        },
        _ => {},
    }
}

/// Forests with pairwise equal skeletons have the same size.
pub proof fn lemma_skeleton_size_forest(s1: Seq<WidgetTree>, s2: Seq<WidgetTree>)
    requires
        s1.len() == s2.len(),
        forall|i: int| 0 <= i < s1.len() ==> same_skeleton(#[trigger] s1[i], s2[i]),
    ensures
        forest_size(s1) == forest_size(s2),
    decreases s1,
{
    if s1.len() > 0 {
        assert(same_skeleton(s1[0], s2[0]));
        assert(s1.first() == s1[0]);
        assert(s2.first() == s2[0]);
        lemma_skeleton_size(s1.first(), s2.first());
        assert forall|i: int| 0 <= i < s1.drop_first().len() implies same_skeleton(
            #[trigger] s1.drop_first()[i],
            s2.drop_first()[i],
        ) by {
            assert(s1.drop_first()[i] == s1[i + 1]);
            assert(s2.drop_first()[i] == s2[i + 1]);
        }
        lemma_skeleton_size_forest(s1.drop_first(), s2.drop_first());
    }
}

/// Two trees carry the same ids in the same shape.
pub open spec fn same_ids(a: WidgetTree, b: WidgetTree) -> bool
    decreases a,
{
    match (a, b) {
        (WidgetTree::Leaf(x), WidgetTree::Leaf(y)) => x.core.id == y.core.id,
        (
            WidgetTree::Row { core: c1, children: k1 },
            WidgetTree::Row { core: c2, children: k2 },
        ) => c1.id == c2.id && k1@.len() == k2@.len() && forall|i: int|
            0 <= i < k1@.len() ==> same_ids(#[trigger] k1@[i], k2@[i]),
        (
            WidgetTree::Column { core: c1, children: k1 },
            WidgetTree::Column { core: c2, children: k2 },
        ) => c1.id == c2.id && k1@.len() == k2@.len() && forall|i: int|
            0 <= i < k1@.len() ==> same_ids(#[trigger] k1@[i], k2@[i]),
        _ => false,
    }
}

/// The layout pass touches no id.
pub proof fn lemma_layout_same_ids(a: WidgetTree, rect: Rect, b: WidgetTree)
    requires
        layout_rel(a, rect, b),
    ensures
        same_ids(a, b),
    decreases a,
{
    match (a, b) {
        (WidgetTree::Leaf(x), WidgetTree::Leaf(y)) => {},
        (
            WidgetTree::Row { core: c1, children: k1 },
            WidgetTree::Row { core: c2, children: k2 },
        ) => {
            assert forall|i: int| 0 <= i < k1@.len() implies same_ids(
                #[trigger] k1@[i],
                k2@[i],
            ) by {
                lemma_layout_same_ids(
                    k1@[i],
                    child_rect_row(rect, forest_child_rules(k1@, false), i),
                    k2@[i],
                );
            }
        },
        (
            WidgetTree::Column { core: c1, children: k1 },
            WidgetTree::Column { core: c2, children: k2 },
        ) => {
            assert forall|i: int| 0 <= i < k1@.len() implies same_ids(
                #[trigger] k1@[i],
                k2@[i],
            ) by {
                lemma_layout_same_ids(
                    k1@[i],
                    child_rect_column(rect, forest_child_rules(k1@, true), i),
                    k2@[i],
                );
            }
        },
        _ => {},
    }
}

/// Trees with the same ids have the same size.
pub proof fn lemma_same_ids_size(a: WidgetTree, b: WidgetTree)
    requires
        same_ids(a, b),
    ensures
        tree_size(a) == tree_size(b),
        root_id(a) == root_id(b),
    decreases a,
{
    match (a, b) {
        (
            WidgetTree::Row { core: c1, children: k1 },
            WidgetTree::Row { core: c2, children: k2 },
        ) => {
            lemma_same_ids_size_forest(k1@, k2@);
        },
        (
            WidgetTree::Column { core: c1, children: k1 },
            WidgetTree::Column { core: c2, children: k2 },
        ) => {
            lemma_same_ids_size_forest(k1@, k2@);
        },
        _ => {},
    }
}

/// Forests with pairwise equal ids have the same size.
proof fn lemma_same_ids_size_forest(s1: Seq<WidgetTree>, s2: Seq<WidgetTree>)
    requires
        s1.len() == s2.len(),
        forall|i: int| 0 <= i < s1.len() ==> same_ids(#[trigger] s1[i], s2[i]),
    ensures
        forest_size(s1) == forest_size(s2),
    decreases s1,
{
    if s1.len() > 0 {
        assert(same_ids(s1[0], s2[0]));
        assert(s1.first() == s1[0]);
        assert(s2.first() == s2[0]);
        lemma_same_ids_size(s1.first(), s2.first());
        assert forall|i: int| 0 <= i < s1.drop_first().len() implies same_ids(
            #[trigger] s1.drop_first()[i],
            s2.drop_first()[i],
        ) by {
            assert(s1.drop_first()[i] == s1[i + 1]);
            assert(s2.drop_first()[i] == s2[i + 1]);
        }
        lemma_same_ids_size_forest(s1.drop_first(), s2.drop_first());
    }
}

/// Equal ids carry sequential assignment across.
pub proof fn lemma_same_ids_sequential(a: WidgetTree, b: WidgetTree, next: int)
    requires
        same_ids(a, b),
        ids_sequential(a, next),
    ensures
        ids_sequential(b, next),
    decreases a,
{
    match (a, b) {
        (
            WidgetTree::Row { core: c1, children: k1 },
            WidgetTree::Row { core: c2, children: k2 },
        ) => {
            lemma_same_ids_size_forest(k1@, k2@);
            lemma_same_ids_sequential_forest(k1@, k2@, next);
        },
        (
            WidgetTree::Column { core: c1, children: k1 },
            WidgetTree::Column { core: c2, children: k2 },
        ) => {
            lemma_same_ids_size_forest(k1@, k2@);
            lemma_same_ids_sequential_forest(k1@, k2@, next);
        },
        _ => {},
    }
}

/// Forest form of [`lemma_same_ids_sequential`].
proof fn lemma_same_ids_sequential_forest(s1: Seq<WidgetTree>, s2: Seq<WidgetTree>, next: int)
    requires
        s1.len() == s2.len(),
        forall|i: int| 0 <= i < s1.len() ==> same_ids(#[trigger] s1[i], s2[i]),
        forest_ids_sequential(s1, next),
    ensures
        forest_ids_sequential(s2, next),
    decreases s1,
{
    if s1.len() > 0 {
        assert(same_ids(s1[0], s2[0]));
        assert(s1.first() == s1[0]);
        assert(s2.first() == s2[0]);
        lemma_same_ids_sequential(s1.first(), s2.first(), next);
        lemma_same_ids_size(s1.first(), s2.first());
        assert forall|i: int| 0 <= i < s1.drop_first().len() implies same_ids(
            #[trigger] s1.drop_first()[i],
            s2.drop_first()[i],
        ) by {
            assert(s1.drop_first()[i] == s1[i + 1]);
            assert(s2.drop_first()[i] == s2[i + 1]);
        }
        lemma_same_ids_sequential_forest(s1.drop_first(), s2.drop_first(), next + tree_size(
            s1.first(),
        ));
    }
}

/// The layout pass keeps a sequentially-assigned tree sequentially
/// assigned: routing by id stays sound across re-layouts that do not
/// change the tree's shape.
pub proof fn lemma_layout_preserves_ids(a: WidgetTree, rect: Rect, b: WidgetTree, next: int)
    requires
        layout_rel(a, rect, b),
        ids_sequential(a, next),
    ensures
        ids_sequential(b, next),
        root_id(b) == root_id(a),
{
    lemma_layout_same_ids(a, rect, b);
    lemma_same_ids_size(a, b);
    lemma_same_ids_sequential(a, b, next);
}

/// Forests with pairwise equal rectangle sequences flatten to the same
/// rectangles.
pub proof fn lemma_forest_rects_pointwise(s1: Seq<WidgetTree>, s2: Seq<WidgetTree>)
    requires
        s1.len() == s2.len(),
        forall|i: int| 0 <= i < s1.len() ==> tree_rects(#[trigger] s1[i]) == tree_rects(s2[i]),
    ensures
        forest_rects(s1) == forest_rects(s2),
    decreases s1,
{
    if s1.len() > 0 {
        assert(tree_rects(s1[0]) == tree_rects(s2[0]));
        assert(s1.first() == s1[0]);
        assert(s2.first() == s2[0]);
        assert forall|i: int| 0 <= i < s1.drop_first().len() implies tree_rects(
            #[trigger] s1.drop_first()[i],
        ) == tree_rects(s2.drop_first()[i]) by {
            assert(s1.drop_first()[i] == s1[i + 1]);
            assert(s2.drop_first()[i] == s2[i + 1]);
        }
        lemma_forest_rects_pointwise(s1.drop_first(), s2.drop_first());
    }
}

/// Law (layout idempotence): running the layout pass twice with the same
/// allocated rectangle and no intervening mutation yields identical
/// rectangles everywhere in the tree.
#[verifier::rlimit(100)]
pub proof fn lemma_layout_idempotent(a: WidgetTree, rect: Rect, b: WidgetTree, c: WidgetTree)
    requires
        layout_rel(a, rect, b),
        layout_rel(b, rect, c),
    ensures
        tree_rects(c) == tree_rects(b),
    decreases a,
{
    match (a, b, c) {
        (WidgetTree::Leaf(x), WidgetTree::Leaf(y), WidgetTree::Leaf(z)) => {
            assert(tree_rects(c) =~= tree_rects(b));
        },
        (
            WidgetTree::Row { core: c1, children: k1 },
            WidgetTree::Row { core: c2, children: k2 },
            WidgetTree::Row { core: c3, children: k3 },
        ) => {
            assert forall|i: int| 0 <= i < k1@.len() implies same_skeleton(
                #[trigger] k1@[i],
                k2@[i],
            ) by {
                lemma_layout_preserves_skeleton(
                    k1@[i],
                    child_rect_row(rect, forest_child_rules(k1@, false), i),
                    k2@[i],
                );
            }
            lemma_skeleton_rules_forest(k1@, k2@, false);
            assert forall|i: int| 0 <= i < k2@.len() implies tree_rects(#[trigger] k2@[i])
                == tree_rects(k3@[i]) by {
                lemma_layout_idempotent(
                    k1@[i],
                    child_rect_row(rect, forest_child_rules(k1@, false), i),
                    k2@[i],
                    k3@[i],
                );
            }
            lemma_forest_rects_pointwise(k3@, k2@);
        },
        (
            WidgetTree::Column { core: c1, children: k1 },
            WidgetTree::Column { core: c2, children: k2 },
            WidgetTree::Column { core: c3, children: k3 },
        ) => {
            assert forall|i: int| 0 <= i < k1@.len() implies same_skeleton(
                #[trigger] k1@[i],
                k2@[i],
            ) by {
                lemma_layout_preserves_skeleton(
                    k1@[i],
                    child_rect_column(rect, forest_child_rules(k1@, true), i),
                    k2@[i],
                );
            }
            lemma_skeleton_rules_forest(k1@, k2@, true);
            assert forall|i: int| 0 <= i < k2@.len() implies tree_rects(#[trigger] k2@[i])
                == tree_rects(k3@[i]) by {
                lemma_layout_idempotent(
                    k1@[i],
                    child_rect_column(rect, forest_child_rules(k1@, true), i),
                    k2@[i],
                    k3@[i],
                );
            }
            lemma_forest_rects_pointwise(k3@, k2@);
        },
        _ => {},
    }
}

/// The ids of the tree in walk order: every descendant first, the
/// widget itself last.
pub open spec fn tree_ids(t: WidgetTree) -> Seq<WidgetId>
    decreases t,
{
    match t {
        WidgetTree::Leaf(l) => seq![l.core.id],
        WidgetTree::Row { core, children } => forest_ids(children@).push(core.id),
        WidgetTree::Column { core, children } => forest_ids(children@).push(core.id),
    }
}

/// The ids of a forest in walk order, sibling by sibling.
pub open spec fn forest_ids(s: Seq<WidgetTree>) -> Seq<WidgetId>
    decreases s,
{
    if s.len() == 0 {
        Seq::empty()
    } else {
        tree_ids(s.first()) + forest_ids(s.drop_first())
    }
}

/// Appending one subtree appends its walk-order ids.
proof fn lemma_forest_ids_seq_snoc(s: Seq<WidgetTree>, c: WidgetTree)
    ensures
        forest_ids(s.push(c)) == forest_ids(s) + tree_ids(c),
    decreases s,
{
    if s.len() == 0 {
        assert(s.push(c).first() == c);
        assert(s.push(c).drop_first() =~= Seq::<WidgetTree>::empty());
        assert(forest_ids(Seq::<WidgetTree>::empty()) =~= Seq::<WidgetId>::empty());
        assert(tree_ids(c) + Seq::<WidgetId>::empty() =~= tree_ids(c));
        assert(forest_ids(s) + tree_ids(c) =~= tree_ids(c));
    } else {
        assert(s.push(c).first() == s.first());
        assert(s.push(c).drop_first() =~= s.drop_first().push(c));
        lemma_forest_ids_seq_snoc(s.drop_first(), c);
        assert(tree_ids(s.first()) + (forest_ids(s.drop_first()) + tree_ids(c)) =~= (tree_ids(
            s.first(),
        ) + forest_ids(s.drop_first())) + tree_ids(c));
    }
}

impl WidgetTree {
    /// How many direct children this widget has.
    pub open spec fn spec_len_children(self) -> int {
        match self {
            WidgetTree::Leaf(l) => 0,
            WidgetTree::Row { core, children } => children@.len() as int,
            WidgetTree::Column { core, children } => children@.len() as int,
        }
    }

    /// The direct children of this widget, as a sequence.
    pub open spec fn spec_children(self) -> Seq<WidgetTree> {
        match self {
            WidgetTree::Leaf(l) => Seq::empty(),
            WidgetTree::Row { core, children } => children@,
            WidgetTree::Column { core, children } => children@,
        }
    }

    /// Report how many direct children this widget has.
    pub fn len_children(&self) -> (n: usize)
        ensures
            n as int == self.spec_len_children(),
    {
        match self {
            WidgetTree::Leaf(l) => 0,
            WidgetTree::Row { core, children } => children.len(),
            WidgetTree::Column { core, children } => children.len(),
        }
    }

    /// Fetch a direct child by index: `None` when out of range.
    pub fn get_child(&self, index: usize) -> (c: Option<&WidgetTree>)
        ensures
            index < self.spec_len_children() ==> c == Some(&self.spec_children()[index as int]),
            index >= self.spec_len_children() ==> c is None,
    {
        match self {
            WidgetTree::Leaf(l) => None,
            WidgetTree::Row { core, children } => {
                if index < children.len() {
                    Some(&children[index])
                } else {
                    None
                }
            },
            WidgetTree::Column { core, children } => {
                if index < children.len() {
                    Some(&children[index])
                } else {
                    None
                }
            },
        }
    }
}

/// Visit every widget of the tree in walk order, descendants before
/// their parent, collecting the ids seen: the read-only traversal of the
/// widget surface.
#[verifier::loop_isolation(false)]
pub fn walk_ids(t: &WidgetTree) -> (out: Vec<WidgetId>)
    ensures
        out@ == tree_ids(*t),
    decreases *t,
{
    match t {
        WidgetTree::Leaf(l) => {
            let mut out: Vec<WidgetId> = Vec::new();
            out.push(l.core.id);
            proof {
                assert(out@ =~= tree_ids(*t));
            }
            out
        },
        WidgetTree::Row { core, children } => {
            let n: usize = children.len();
            let mut out: Vec<WidgetId> = Vec::new();
            let mut i: usize = 0;
            proof {
                assert(children@.take(0) =~= Seq::<WidgetTree>::empty());
                assert(out@ =~= forest_ids(children@.take(0)));
            }
            while i < n
                invariant
                    i <= n,
                    out@ == forest_ids(children@.take(i as int)),
                decreases n - i,
            {
                let mut part = walk_ids(&children[i]);
                proof {
                    assert(children@.take(i as int + 1) =~= children@.take(i as int).push(
                        children@[i as int],
                    ));
                    lemma_forest_ids_seq_snoc(children@.take(i as int), children@[i as int]);
                }
                out.append(&mut part);
                i = i + 1;
            }
            proof {
                assert(children@.take(n as int) =~= children@);
            }
            out.push(core.id);
            out
        },
        WidgetTree::Column { core, children } => {
            let n: usize = children.len();
            let mut out: Vec<WidgetId> = Vec::new();
            let mut i: usize = 0;
            proof {
                assert(children@.take(0) =~= Seq::<WidgetTree>::empty());
                assert(out@ =~= forest_ids(children@.take(0)));
            }
            while i < n
                invariant
                    i <= n,
                    out@ == forest_ids(children@.take(i as int)),
                decreases n - i,
            {
                let mut part = walk_ids(&children[i]);
                proof {
                    assert(children@.take(i as int + 1) =~= children@.take(i as int).push(
                        children@[i as int],
                    ));
                    lemma_forest_ids_seq_snoc(children@.take(i as int), children@[i as int]);
                }
                out.append(&mut part);
                i = i + 1;
            }
            proof {
                assert(children@.take(n as int) =~= children@);
            }
            out.push(core.id);
            out
        },
    }
}

/// The root widget's id, executable form.
pub fn widget_id(t: &WidgetTree) -> (id: WidgetId)
    ensures
        id == root_id(*t),
{
    match t {
        WidgetTree::Leaf(l) => l.core.id,
        WidgetTree::Row { core, children } => core.id,
        WidgetTree::Column { core, children } => core.id,
    }
}

/// What a leaf's handler answers to an event.
pub open spec fn spec_leaf_response(b: LeafBehavior, event: Event) -> Response<u32> {
    match b {
        LeafBehavior::Consume => Response::Used,
        LeafBehavior::EmitValue(v) => Response::Msg(v),
        LeafBehavior::Decline => Response::Unhandled(event),
    }
}

/// What the generic fallback handling at widget `id` does with `event`:
/// the response, the hover it sets (if any) and the focus it sets (if
/// any). Mirrors [`Manager::handle_generic`].
pub open spec fn spec_generic_outcome(id: WidgetId, event: Event) -> (
    Response<u32>,
    Option<WidgetId>,
    Option<WidgetId>,
) {
    match event {
        Event::PressStart { source, coord } => (Response::Used, Some(id), None),
        Event::Activate => (Response::Used, None, Some(id)),
        _ => (Response::Unhandled(event), None, None),
    }
}

/// The first child whose subtree can contain `target`: under sequential
/// ids, the first child whose own (maximum) id is at least `target`.
pub open spec fn first_child_for(s: Seq<WidgetTree>, target: WidgetId) -> Option<int>
    decreases s,
{
    if s.len() == 0 {
        None
    } else if target.0 <= root_id(s.first()).0 {
        Some(0)
    } else {
        match first_child_for(s.drop_first(), target) {
            Some(j) => Some(j + 1),
            None => None,
        }
    }
}

/// Event delivery to `target`, as a pure outcome: the response, the hover
/// the walk sets (if any) and the focus it sets (if any).
///
/// The walk descends from the root toward `target` by the containment
/// test until it reaches the widget whose id equals `target` or a widget
/// none of whose children can contain it; the event is delivered there.
/// Whatever a child leaves unhandled, its parent's generic handling
/// reprocesses before it rises further.
pub open spec fn spec_send(t: WidgetTree, target: WidgetId, event: Event) -> (
    Response<u32>,
    Option<WidgetId>,
    Option<WidgetId>,
)
    decreases t,
{
    match t {
        WidgetTree::Leaf(l) => (spec_leaf_response(l.behavior, event), None, None),
        WidgetTree::Row { core, children } => if core.id == target {
            spec_generic_outcome(core.id, event)
        } else {
            match first_child_for(children@, target) {
                Some(i) => if 0 <= i < children@.len() {
                    let (r, h, f) = spec_send(children@[i], target, event);
                    match r {
                        Response::Unhandled(e) => spec_generic_outcome(core.id, e),
                        _ => (r, h, f),
                    }
                } else {
                    spec_generic_outcome(core.id, event)
                },
                None => spec_generic_outcome(core.id, event),
            }
        },
        WidgetTree::Column { core, children } => if core.id == target {
            spec_generic_outcome(core.id, event)
        } else {
            match first_child_for(children@, target) {
                Some(i) => if 0 <= i < children@.len() {
                    let (r, h, f) = spec_send(children@[i], target, event);
                    match r {
                        Response::Unhandled(e) => spec_generic_outcome(core.id, e),
                        _ => (r, h, f),
                    }
                } else {
                    spec_generic_outcome(core.id, event)
                },
                None => spec_generic_outcome(core.id, event),
            }
        },
    }
}

/// An unhandled outcome never changes interaction state.
pub proof fn lemma_send_unhandled_inert(t: WidgetTree, target: WidgetId, event: Event)
    ensures
        ({
            let (r, h, f) = spec_send(t, target, event);
            (r is Unhandled ==> h is None && f is None) && (h is Some ==> f is None) && (
            f is Some ==> h is None)
        }),
    decreases t,
{
    match t {
        WidgetTree::Leaf(l) => {},
        WidgetTree::Row { core, children } => {
            if core.id != target {
                match first_child_for(children@, target) {
                    Some(i) => {
                        if 0 <= i < children@.len() {
                            lemma_send_unhandled_inert(children@[i], target, event);
                        }
                    },
                    None => {},
                }
            }
        },
        WidgetTree::Column { core, children } => {
            if core.id != target {
                match first_child_for(children@, target) {
                    Some(i) => {
                        if 0 <= i < children@.len() {
                            lemma_send_unhandled_inert(children@[i], target, event);
                        }
                    },
                    None => {},
                }
            }
        },
    }
}

/// A scan that fails up to `i` and succeeds at `i` finds the first child
/// at `i`.
proof fn lemma_first_child_scan(s: Seq<WidgetTree>, target: WidgetId, i: int)
    requires
        0 <= i < s.len(),
        forall|j: int| 0 <= j < i ==> target.0 > root_id(#[trigger] s[j]).0,
        target.0 <= root_id(s[i]).0,
    ensures
        first_child_for(s, target) == Some(i),
    decreases i,
{
    if i == 0 {
        assert(s.first() == s[0]);
    } else {
        assert(s.first() == s[0]);
        assert forall|j: int| 0 <= j < i - 1 implies target.0 > root_id(
            #[trigger] s.drop_first()[j],
        ).0 by {
            assert(s.drop_first()[j] == s[j + 1]);
        }
        assert(s.drop_first()[i - 1] == s[i]);
        lemma_first_child_scan(s.drop_first(), target, i - 1);
    }
}

/// A scan that fails everywhere finds no child.
proof fn lemma_first_child_none(s: Seq<WidgetTree>, target: WidgetId)
    requires
        forall|j: int| 0 <= j < s.len() ==> target.0 > root_id(#[trigger] s[j]).0,
    ensures
        first_child_for(s, target) is None,
    decreases s,
{
    if s.len() > 0 {
        assert(s.first() == s[0]);
        assert forall|j: int| 0 <= j < s.drop_first().len() implies target.0 > root_id(
            #[trigger] s.drop_first()[j],
        ).0 by {
            assert(s.drop_first()[j] == s[j + 1]);
        }
        lemma_first_child_none(s.drop_first(), target);
    }
}

/// Deliver `event` to the widget with id `target`, walking from the root
/// by the containment test; each ancestor's generic handling reprocesses
/// whatever its child leaves unhandled. The manager's grabs are
/// untouched; hover and focus change exactly as the outcome says.
#[verifier::loop_isolation(false)]
pub fn send_event(mgr: &mut Manager, t: &WidgetTree, target: WidgetId, event: Event) -> (r:
    Response<u32>)
    ensures
        ({
            let (rr, h, f) = spec_send(*t, target, event);
            &&& r == rr
            &&& final(mgr).spec_hover() == (match h {
                Some(x) => Some(x),
                None => old(mgr).spec_hover(),
            })
            &&& final(mgr).spec_focus() == (match f {
                Some(x) => Some(x),
                None => old(mgr).spec_focus(),
            })
        }),
        final(mgr).grab_seq() == old(mgr).grab_seq(),
        forall|w: WidgetId|
            old(mgr).spec_dirty().contains(w) ==> final(mgr).spec_dirty().contains(w),
    decreases *t,
{
    match t {
        WidgetTree::Leaf(l) => {
            match l.behavior {
                LeafBehavior::Consume => Response::Used,
                LeafBehavior::EmitValue(v) => Response::Msg(v),
                LeafBehavior::Decline => Response::Unhandled(event),
            }
        },
        WidgetTree::Row { core, children } => {
            if core.id.0 == target.0 {
                proof {
                    assert(core.id == target);
                }
                mgr.handle_generic(core.id, event)
            } else {
                let n: usize = children.len();
                let mut i: usize = 0;
                while i < n
                    invariant
                        i <= n,
                        *mgr == *old(mgr),
                        forall|j: int| 0 <= j < i ==> target.0 > root_id(#[trigger] children@[j]).0,
                    decreases n - i,
                {
                    if target.0 <= widget_id(&children[i]).0 {
                        proof {
                            lemma_first_child_scan(children@, target, i as int);
                            lemma_send_unhandled_inert(children@[i as int], target, event);
                        }
                        let r = send_event(mgr, &children[i], target, event);
                        match r {
                            Response::Unhandled(e) => {
                                return mgr.handle_generic(core.id, e);
                            },
                            _ => {
                                return r;
                            },
                        }
                    }
                    i = i + 1;
                }
                proof {
                    lemma_first_child_none(children@, target);
                }
                mgr.handle_generic(core.id, event)
            }
        },
        WidgetTree::Column { core, children } => {
            if core.id.0 == target.0 {
                proof {
                    assert(core.id == target);
                }
                mgr.handle_generic(core.id, event)
            } else {
                let n: usize = children.len();
                let mut i: usize = 0;
                while i < n
                    invariant
                        i <= n,
                        *mgr == *old(mgr),
                        forall|j: int| 0 <= j < i ==> target.0 > root_id(#[trigger] children@[j]).0,
                    decreases n - i,
                {
                    if target.0 <= widget_id(&children[i]).0 {
                        proof {
                            lemma_first_child_scan(children@, target, i as int);
                            lemma_send_unhandled_inert(children@[i as int], target, event);
                        }
                        let r = send_event(mgr, &children[i], target, event);
                        match r {
                            Response::Unhandled(e) => {
                                return mgr.handle_generic(core.id, e);
                            },
                            _ => {
                                return r;
                            },
                        }
                    }
                    i = i + 1;
                }
                proof {
                    lemma_first_child_none(children@, target);
                }
                mgr.handle_generic(core.id, event)
            }
        },
    }
}

/// Geometric hit test: the deepest widget whose rectangle contains
/// `coord`, preferring earlier children; `None` when the tree's root
/// rectangle misses the coordinate.
pub open spec fn spec_hit(t: WidgetTree, coord: Coord) -> Option<WidgetId>
    decreases t,
{
    match t {
        WidgetTree::Leaf(l) => if l.core.rect.spec_contains(coord) {
            Some(l.core.id)
        } else {
            None
        },
        WidgetTree::Row { core, children } => if !core.rect.spec_contains(coord) {
            None
        } else {
            match forest_hit(children@, coord) {
                Some(id) => Some(id),
                None => Some(core.id),
            }
        },
        WidgetTree::Column { core, children } => if !core.rect.spec_contains(coord) {
            None
        } else {
            match forest_hit(children@, coord) {
                Some(id) => Some(id),
                None => Some(core.id),
            }
        },
    }
}

/// The hit of the first sibling subtree that contains `coord`, if any.
pub open spec fn forest_hit(s: Seq<WidgetTree>, coord: Coord) -> Option<WidgetId>
    decreases s,
{
    if s.len() == 0 {
        None
    } else {
        match spec_hit(s.first(), coord) {
            Some(id) => Some(id),
            None => forest_hit(s.drop_first(), coord),
        }
    }
}

/// A scan that misses up to `i` and hits at `i` finds that hit.
proof fn lemma_forest_hit_scan(s: Seq<WidgetTree>, coord: Coord, i: int)
    requires
        0 <= i < s.len(),
        forall|j: int| 0 <= j < i ==> spec_hit(#[trigger] s[j], coord) is None,
        spec_hit(s[i], coord) is Some,
    ensures
        forest_hit(s, coord) == spec_hit(s[i], coord),
    decreases i,
{
    if i == 0 {
        assert(s.first() == s[0]);
    } else {
        assert(s.first() == s[0]);
        assert forall|j: int| 0 <= j < i - 1 implies spec_hit(
            #[trigger] s.drop_first()[j],
            coord,
        ) is None by {
            assert(s.drop_first()[j] == s[j + 1]);
        }
        assert(s.drop_first()[i - 1] == s[i]);
        lemma_forest_hit_scan(s.drop_first(), coord, i - 1);
    }
}

/// A scan that misses everywhere finds nothing.
proof fn lemma_forest_hit_none(s: Seq<WidgetTree>, coord: Coord)
    requires
        forall|j: int| 0 <= j < s.len() ==> spec_hit(#[trigger] s[j], coord) is None,
    ensures
        forest_hit(s, coord) is None,
    decreases s,
{
    if s.len() > 0 {
        assert(s.first() == s[0]);
        assert forall|j: int| 0 <= j < s.drop_first().len() implies spec_hit(
            #[trigger] s.drop_first()[j],
            coord,
        ) is None by {
            assert(s.drop_first()[j] == s[j + 1]);
        }
        lemma_forest_hit_none(s.drop_first(), coord);
    }
}

/// Resolve a coordinate to the widget that should receive a fresh press:
/// the deepest widget whose rectangle contains it.
#[verifier::loop_isolation(false)]
pub fn hit_test(t: &WidgetTree, coord: Coord) -> (r: Option<WidgetId>)
    ensures
        r == spec_hit(*t, coord),
    decreases *t,
{
    match t {
        WidgetTree::Leaf(l) => {
            if l.core.rect.contains(coord) {
                Some(l.core.id)
            } else {
                None
            }
        },
        WidgetTree::Row { core, children } => {
            if !core.rect.contains(coord) {
                return None;
            }
            let n: usize = children.len();
            let mut i: usize = 0;
            while i < n
                invariant
                    i <= n,
                    forall|j: int| 0 <= j < i ==> spec_hit(#[trigger] children@[j], coord) is None,
                decreases n - i,
            {
                let h = hit_test(&children[i], coord);
                match h {
                    Some(id) => {
                        proof {
                            lemma_forest_hit_scan(children@, coord, i as int);
                        }
                        return Some(id);
                    },
                    None => {},
                }
                i = i + 1;
            }
            proof {
                lemma_forest_hit_none(children@, coord);
            }
            Some(core.id)
        },
        WidgetTree::Column { core, children } => {
            if !core.rect.contains(coord) {
                return None;
            }
            let n: usize = children.len();
            let mut i: usize = 0;
            while i < n
                invariant
                    i <= n,
                    forall|j: int| 0 <= j < i ==> spec_hit(#[trigger] children@[j], coord) is None,
                decreases n - i,
            {
                let h = hit_test(&children[i], coord);
                match h {
                    Some(id) => {
                        proof {
                            lemma_forest_hit_scan(children@, coord, i as int);
                        }
                        return Some(id);
                    },
                    None => {},
                }
                i = i + 1;
            }
            proof {
                lemma_forest_hit_none(children@, coord);
            }
            Some(core.id)
        },
    }
}

/// The widget id a raw event is routed to: the active grab holder for
/// its press source if one exists, else the geometric hit for press
/// events, or the keyboard focus for an activation.
pub open spec fn spec_dispatch_target(mgr: Manager, t: WidgetTree, event: Event) -> Option<
    WidgetId,
> {
    match event {
        Event::PressStart { source, coord } => match grab_lookup(mgr.grab_seq(), source) {
            Some(h) => Some(h),
            None => spec_hit(t, coord),
        },
        Event::PressMove { source, coord } => match grab_lookup(mgr.grab_seq(), source) {
            Some(h) => Some(h),
            None => spec_hit(t, coord),
        },
        Event::PressEnd { source, coord } => match grab_lookup(mgr.grab_seq(), source) {
            Some(h) => Some(h),
            None => spec_hit(t, coord),
        },
        Event::Activate => mgr.spec_focus(),
    }
}

/// Route a raw input event into the tree.
///
/// The target is the grab holder for the event's press source when a
/// grab is active (gesture continuity: the pointer may have left the
/// widget), else the geometric hit, or the focus for an activation; with
/// no target the event is reported unhandled. Delivery follows
/// [`spec_send`]. A press end for a grabbed source clears that grab
/// unconditionally after delivery; a move or end without a grab is
/// treated as a fresh geometric hit, not an error.
pub fn dispatch(mgr: &mut Manager, t: &WidgetTree, event: Event) -> (r: Response<u32>)
    ensures
        forall|w: WidgetId|
            old(mgr).spec_dirty().contains(w) ==> final(mgr).spec_dirty().contains(w),
        match spec_dispatch_target(*old(mgr), *t, event) {
            None => {
                &&& r == Response::<u32>::Unhandled(event)
                &&& final(mgr).grab_seq() == old(mgr).grab_seq()
                &&& final(mgr).spec_hover() == old(mgr).spec_hover()
                &&& final(mgr).spec_focus() == old(mgr).spec_focus()
            },
            Some(target) => {
                let (rr, h, f) = spec_send(*t, target, event);
                &&& r == rr
                &&& final(mgr).spec_hover() == (match h {
                    Some(x) => Some(x),
                    None => old(mgr).spec_hover(),
                })
                &&& final(mgr).spec_focus() == (match f {
                    Some(x) => Some(x),
                    None => old(mgr).spec_focus(),
                })
                &&& (match event {
                    Event::PressEnd { source, coord } => forall|src: PressSource|
                        #[trigger] grab_lookup(final(mgr).grab_seq(), src) == (if src == source {
                            None::<WidgetId>
                        } else {
                            grab_lookup(old(mgr).grab_seq(), src)
                        }),
                    _ => final(mgr).grab_seq() == old(mgr).grab_seq(),
                })
            },
        },
{
    let target: Option<WidgetId> = match event {
        Event::PressStart { source, coord } => {
            match mgr.grab_of(source) {
                Some(h) => Some(h),
                None => hit_test(t, coord),
            }
        },
        Event::PressMove { source, coord } => {
            match mgr.grab_of(source) {
                Some(h) => Some(h),
                None => hit_test(t, coord),
            }
        },
        Event::PressEnd { source, coord } => {
            match mgr.grab_of(source) {
                Some(h) => Some(h),
                None => hit_test(t, coord),
            }
        },
        Event::Activate => mgr.focus(),
    };
    match target {
        None => Response::Unhandled(event),
        Some(tgt) => {
            let r = send_event(mgr, t, tgt, event);
            match event {
                Event::PressEnd { source, coord } => {
                    mgr.release_grab(source);
                },
                _ => {},
            }
            r
        },
    }
}

} // verus!
