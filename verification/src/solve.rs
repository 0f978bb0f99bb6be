//! The space solver: distribute an allocated length among children.
//!
//! Given the children's [`SizeRules`](crate::layout::SizeRules) along one
//! axis and the parent's allocated length, [`solve`] returns one length per
//! child. The policy, written out by [`alloc_at`]:
//!
//! -   **Degenerate case** (`available < Σ minimum`): each child receives
//!     its proportional share `minimum_i * available / Σ minimum`, rounded
//!     down. Nothing is negative and nothing overflows; the lengths may sum
//!     to slightly less than `available` (the rounding loss is left at the
//!     end of the axis).
//! -   **Normal case** (`available >= Σ minimum`): each child starts at its
//!     minimum. The surplus is first spent growing children toward their
//!     ideals, proportionally to `ideal - minimum`; any surplus beyond the
//!     ideals is split equally among the children of the highest stretch
//!     priority present. Both distributions round by accumulated prefix
//!     (child `i` receives `floor(budget * prefix(i+1) / total) -
//!     floor(budget * prefix(i) / total)`), so the rounded shares sum
//!     exactly to the budget and the allocation conserves `available`.
//!
//! The solver is a pure function of its arguments: identical inputs give
//! identical outputs on every call.

use vstd::arithmetic::div_mod::{
    lemma_div_is_ordered, lemma_div_multiples_vanish, lemma_div_of0, lemma_div_pos_is_pos,
    lemma_fundamental_div_mod, lemma_mod_division_less_than_divisor, lemma_multiply_divide_le,
};
use vstd::arithmetic::mul::{
    lemma_mul_basics, lemma_mul_inequality, lemma_mul_is_commutative, lemma_mul_upper_bound,
};
use vstd::prelude::*;

use crate::layout::SizeRules;

verus! {

/// All rules in the sequence are well-formed.
pub open spec fn rules_wf(rules: Seq<SizeRules>) -> bool {
    forall|i: int| 0 <= i < rules.len() ==> (#[trigger] rules[i]).wf()
}

/// Sum of the minima of the first `k` rules.
pub open spec fn prefix_min(rules: Seq<SizeRules>, k: int) -> int
    decreases k,
{
    if k <= 0 {
        0
    } else {
        prefix_min(rules, k - 1) + rules[k - 1].min_len
    }
}

/// Sum of `ideal - minimum` over the first `k` rules.
pub open spec fn prefix_gap(rules: Seq<SizeRules>, k: int) -> int
    decreases k,
{
    if k <= 0 {
        0
    } else {
        prefix_gap(rules, k - 1) + (rules[k - 1].ideal_len - rules[k - 1].min_len)
    }
}

/// The largest stretch-priority weight among the first `k` rules
/// (`-1` for an empty prefix).
pub open spec fn max_weight(rules: Seq<SizeRules>, k: int) -> int
    decreases k,
{
    if k <= 0 {
        -1
    } else {
        let prev = max_weight(rules, k - 1);
        let w = rules[k - 1].stretch.weight();
        if w >= prev {
            w
        } else {
            prev
        }
    }
}

/// How many of the first `k` rules have stretch-priority weight `w`.
pub open spec fn count_weight(rules: Seq<SizeRules>, k: int, w: int) -> int
    decreases k,
{
    if k <= 0 {
        0
    } else {
        count_weight(rules, k - 1, w) + if rules[k - 1].stretch.weight() == w {
            1int
        } else {
            0int
        }
    }
}

/// Does rule `i` carry the highest stretch priority present in `rules`?
pub open spec fn is_max_stretch(rules: Seq<SizeRules>, i: int) -> bool {
    rules[i].stretch.weight() == max_weight(rules, rules.len() as int)
}

/// How many of the first `k` rules carry the highest stretch priority of
/// the whole sequence.
pub open spec fn rank(rules: Seq<SizeRules>, k: int) -> int {
    count_weight(rules, k, max_weight(rules, rules.len() as int))
}

/// The part of the surplus spent growing children toward their ideals.
pub open spec fn ideal_budget(rules: Seq<SizeRules>, available: int) -> int {
    let surplus = available - prefix_min(rules, rules.len() as int);
    let g = prefix_gap(rules, rules.len() as int);
    if surplus <= g {
        surplus
    } else {
        g
    }
}

/// The part of the surplus left after all children reach their ideals.
pub open spec fn stretch_budget(rules: Seq<SizeRules>, available: int) -> int {
    let surplus = available - prefix_min(rules, rules.len() as int);
    surplus - ideal_budget(rules, available)
}

/// Child `i`'s share of the ideal-growth budget `e1`, rounded by
/// accumulated prefix so that the shares sum to `e1` exactly.
pub open spec fn ideal_share(rules: Seq<SizeRules>, e1: int, i: int) -> int {
    let g = prefix_gap(rules, rules.len() as int);
    if g <= 0 {
        0
    } else {
        e1 * prefix_gap(rules, i + 1) / g - e1 * prefix_gap(rules, i) / g
    }
}

/// Child `i`'s share of the stretch budget `e2`: zero unless `i` carries
/// the highest stretch priority; members of that group split `e2` equally,
/// rounded by accumulated rank so that the shares sum to `e2` exactly.
pub open spec fn stretch_share(rules: Seq<SizeRules>, e2: int, i: int) -> int {
    let s = rank(rules, rules.len() as int);
    if is_max_stretch(rules, i) {
        e2 * (rank(rules, i) + 1) / s - e2 * rank(rules, i) / s
    } else {
        0
    }
}

/// The length child `i` receives when `available` is distributed over
/// `rules`: the full statement of the solver's policy.
pub open spec fn alloc_at(rules: Seq<SizeRules>, available: int, i: int) -> int {
    let n = rules.len() as int;
    let sm = prefix_min(rules, n);
    if available < sm {
        rules[i].min_len * available / sm
    } else {
        rules[i].min_len + ideal_share(rules, ideal_budget(rules, available), i) + stretch_share(
            rules,
            stretch_budget(rules, available),
            i,
        )
    }
}

/// Sum of the allocations of the first `k` children.
pub open spec fn alloc_sum(rules: Seq<SizeRules>, available: int, k: int) -> int
    decreases k,
{
    if k <= 0 {
        0
    } else {
        alloc_sum(rules, available, k - 1) + alloc_at(rules, available, k - 1)
    }
}

/// `prefix_min` is nonnegative and at most `k * u32::MAX`.
pub proof fn lemma_prefix_min_bound(rules: Seq<SizeRules>, k: int)
    requires
        0 <= k,
    ensures
        0 <= prefix_min(rules, k),
        prefix_min(rules, k) <= k * (u32::MAX as int),
    decreases k,
{
    if k > 0 {
        lemma_prefix_min_bound(rules, k - 1);
        assert((k - 1) * (u32::MAX as int) + u32::MAX as int == k * (u32::MAX as int))
            by (nonlinear_arith);
    }
}

/// `prefix_min` grows with `k`.
pub proof fn lemma_prefix_min_mono(rules: Seq<SizeRules>, i: int, j: int)
    requires
        0 <= i <= j,
    ensures
        prefix_min(rules, i) <= prefix_min(rules, j),
    decreases j,
{
    if i < j {
        lemma_prefix_min_mono(rules, i, j - 1);
    }
}

/// Under well-formedness, `prefix_gap` is nonnegative and bounded.
pub proof fn lemma_prefix_gap_bound(rules: Seq<SizeRules>, k: int)
    requires
        0 <= k <= rules.len(),
        rules_wf(rules),
    ensures
        0 <= prefix_gap(rules, k),
        prefix_gap(rules, k) <= k * (u32::MAX as int),
    decreases k,
{
    if k > 0 {
        lemma_prefix_gap_bound(rules, k - 1);
        assert((k - 1) * (u32::MAX as int) + u32::MAX as int == k * (u32::MAX as int))
            by (nonlinear_arith);
    }
}

/// Under well-formedness, `prefix_gap` grows with `k`.
pub proof fn lemma_prefix_gap_mono(rules: Seq<SizeRules>, i: int, j: int)
    requires
        0 <= i <= j <= rules.len(),
        rules_wf(rules),
    ensures
        prefix_gap(rules, i) <= prefix_gap(rules, j),
    decreases j,
{
    if i < j {
        lemma_prefix_gap_mono(rules, i, j - 1);
    }
}

/// `count_weight` is nonnegative and grows with `k`.
pub proof fn lemma_count_weight_mono(rules: Seq<SizeRules>, w: int, i: int, j: int)
    requires
        0 <= i <= j,
    ensures
        0 <= count_weight(rules, i, w),
        count_weight(rules, i, w) <= count_weight(rules, j, w),
    decreases i + j,
{
    if 0 < i {
        lemma_count_weight_mono(rules, w, i - 1, i - 1);
    }
    if i < j {
        lemma_count_weight_mono(rules, w, i, j - 1);
    }
}

/// A weight above the prefix's maximum occurs zero times in the prefix.
pub proof fn lemma_count_above_max(rules: Seq<SizeRules>, k: int, w: int)
    requires
        0 <= k,
        w > max_weight(rules, k),
    ensures
        count_weight(rules, k, w) == 0,
    decreases k,
{
    if k > 0 {
        lemma_count_above_max(rules, k - 1, w);
    }
}

/// The maximum weight of a nonempty prefix is attained by some rule.
pub proof fn lemma_max_weight_attained(rules: Seq<SizeRules>, k: int)
    requires
        1 <= k,
    ensures
        exists|i: int| 0 <= i < k && rules[i].stretch.weight() == max_weight(rules, k),
    decreases k,
{
    if k == 1 {
        assert(max_weight(rules, 0) == -1);
        assert(rules[0].stretch.weight() == max_weight(rules, 1));
    } else {
        let w = rules[k - 1].stretch.weight();
        if w >= max_weight(rules, k - 1) {
            assert(rules[k - 1].stretch.weight() == max_weight(rules, k));
        } else {
            lemma_max_weight_attained(rules, k - 1);
            let i = choose|i: int| 0 <= i < k - 1 && rules[i].stretch.weight() == max_weight(
                rules,
                k - 1,
            );
            assert(rules[i].stretch.weight() == max_weight(rules, k));
        }
    }
}

/// A weight attained at index `i` is counted at least once past `i`.
pub proof fn lemma_count_witness(rules: Seq<SizeRules>, k: int, w: int, i: int)
    requires
        0 <= i < k,
        rules[i].stretch.weight() == w,
    ensures
        count_weight(rules, k, w) >= 1,
    decreases k,
{
    if i < k - 1 {
        lemma_count_witness(rules, k - 1, w, i);
        lemma_count_weight_mono(rules, w, k - 1, k);
    } else {
        lemma_count_weight_mono(rules, w, k - 1, k - 1);
    }
}

/// A nonempty rule set has at least one member of the top stretch group.
pub proof fn lemma_rank_pos(rules: Seq<SizeRules>)
    requires
        rules.len() >= 1,
    ensures
        rank(rules, rules.len() as int) >= 1,
{
    let n = rules.len() as int;
    lemma_max_weight_attained(rules, n);
    let i = choose|i: int| 0 <= i < n && rules[i].stretch.weight() == max_weight(rules, n);
    lemma_count_witness(rules, n, max_weight(rules, n), i);
}

/// In the normal case every share is nonnegative, so each child receives
/// at least its minimum.
pub proof fn lemma_alloc_at_ge_min(rules: Seq<SizeRules>, available: int, i: int)
    requires
        rules_wf(rules),
        0 <= i < rules.len(),
        prefix_min(rules, rules.len() as int) <= available,
    ensures
        alloc_at(rules, available, i) >= rules[i].min_len,
        ideal_share(rules, ideal_budget(rules, available), i) >= 0,
        stretch_share(rules, stretch_budget(rules, available), i) >= 0,
{
    let n = rules.len() as int;
    let g = prefix_gap(rules, n);
    let e1 = ideal_budget(rules, available);
    let e2 = stretch_budget(rules, available);
    lemma_prefix_gap_bound(rules, n);
    if g > 0 {
        lemma_prefix_gap_mono(rules, i, i + 1);
        lemma_prefix_gap_bound(rules, i);
        lemma_mul_inequality(prefix_gap(rules, i), prefix_gap(rules, i + 1), e1);
        lemma_mul_is_commutative(prefix_gap(rules, i), e1);
        lemma_mul_is_commutative(prefix_gap(rules, i + 1), e1);
        lemma_div_is_ordered(e1 * prefix_gap(rules, i), e1 * prefix_gap(rules, i + 1), g);
    }
    if is_max_stretch(rules, i) {
        let s = rank(rules, n);
        lemma_rank_pos(rules);
        lemma_count_weight_mono(rules, max_weight(rules, n), i, i);
        assert(e2 >= 0);
        lemma_mul_inequality(rank(rules, i), rank(rules, i) + 1, e2);
        lemma_mul_is_commutative(rank(rules, i), e2);
        lemma_mul_is_commutative(rank(rules, i) + 1, e2);
        lemma_div_is_ordered(e2 * rank(rules, i), e2 * (rank(rules, i) + 1), s);
    }
}

/// Closed form of the partial allocation sum: the first `k` children
/// together receive their minima plus the rounded-down prefixes of the two
/// budgets.
pub proof fn lemma_alloc_sum_closed(rules: Seq<SizeRules>, available: int, k: int)
    requires
        rules_wf(rules),
        rules.len() >= 1,
        0 <= k <= rules.len(),
        prefix_min(rules, rules.len() as int) <= available,
    ensures
        alloc_sum(rules, available, k) == prefix_min(rules, k) + (if prefix_gap(
            rules,
            rules.len() as int,
        ) > 0 {
            ideal_budget(rules, available) * prefix_gap(rules, k) / prefix_gap(
                rules,
                rules.len() as int,
            )
        } else {
            0
        }) + stretch_budget(rules, available) * rank(rules, k) / rank(rules, rules.len() as int),
    decreases k,
{
    let n = rules.len() as int;
    let g = prefix_gap(rules, n);
    let e1 = ideal_budget(rules, available);
    let e2 = stretch_budget(rules, available);
    let s = rank(rules, n);
    lemma_rank_pos(rules);
    if k == 0 {
        lemma_mul_basics(e1);
        lemma_mul_basics(e2);
        assert(count_weight(rules, 0, max_weight(rules, n)) == 0);
        if g > 0 {
            lemma_div_of0(g);
            assert(e1 * prefix_gap(rules, 0) == 0);
        }
        lemma_div_of0(s);
        assert(e2 * rank(rules, 0) == 0);
    } else {
        lemma_alloc_sum_closed(rules, available, k - 1);
        assert(rank(rules, k) == rank(rules, k - 1) + if is_max_stretch(rules, k - 1) {
            1int
        } else {
            0int
        });
    }
}

/// Law (conservation): whenever the rule set is nonempty and the
/// allocation fits the minima, the solver hands out exactly `available`,
/// and every child receives at least its minimum.
///
/// The empty rule set is excluded: with no children there is nothing to
/// receive the space, and the allocation sums to zero.
pub proof fn lemma_solve_conservation(rules: Seq<SizeRules>, available: int)
    requires
        rules_wf(rules),
        rules.len() >= 1,
        prefix_min(rules, rules.len() as int) <= available,
    ensures
        alloc_sum(rules, available, rules.len() as int) == available,
        forall|i: int|
            0 <= i < rules.len() ==> alloc_at(rules, available, i) >= rules[i].min_len,
{
    let n = rules.len() as int;
    let g = prefix_gap(rules, n);
    let e1 = ideal_budget(rules, available);
    let e2 = stretch_budget(rules, available);
    let s = rank(rules, n);
    lemma_alloc_sum_closed(rules, available, n);
    lemma_rank_pos(rules);
    lemma_prefix_gap_bound(rules, n);
    if g > 0 {
        lemma_div_multiples_vanish(e1, g);
        lemma_mul_is_commutative(e1, g);
    }
    lemma_div_multiples_vanish(e2, s);
    lemma_mul_is_commutative(e2, s);
    assert forall|i: int| 0 <= i < rules.len() implies alloc_at(rules, available, i)
        >= rules[i].min_len by {
        lemma_alloc_at_ge_min(rules, available, i);
    }
}

/// Law (degenerate clamp): when `available` cannot cover the minima, each
/// child receives exactly its proportional share
/// `minimum * available / Σ minimum`, rounded down; the result is never
/// negative and never exceeds either the child's minimum or `available`.
pub proof fn lemma_solve_degenerate(rules: Seq<SizeRules>, available: int, i: int)
    requires
        rules_wf(rules),
        0 <= available,
        0 <= i < rules.len(),
        available < prefix_min(rules, rules.len() as int),
    ensures
        alloc_at(rules, available, i) == rules[i].min_len * available / prefix_min(
            rules,
            rules.len() as int,
        ),
        0 <= alloc_at(rules, available, i),
        alloc_at(rules, available, i) <= rules[i].min_len,
        alloc_at(rules, available, i) <= available,
{
    let n = rules.len() as int;
    let sm = prefix_min(rules, n);
    let m = rules[i].min_len as int;
    assert(m * available >= 0) by (nonlinear_arith)
        requires
            m >= 0,
            available >= 0,
    ;
    lemma_div_pos_is_pos(m * available, sm);
    lemma_mul_inequality(available, sm, m);
    lemma_mul_is_commutative(m, available);
    lemma_multiply_divide_le(m * available, sm, m);
    lemma_prefix_min_mono(rules, i + 1, n);
    lemma_prefix_min_bound(rules, i);
    assert(m <= sm);
    lemma_mul_inequality(m, sm, available);
    assert(m * available <= sm * available);
    lemma_multiply_divide_le(m * available, sm, available);
}

/// The partial allocation sum grows with the prefix length.
pub proof fn lemma_alloc_sum_mono(rules: Seq<SizeRules>, available: int, i: int, j: int)
    requires
        rules_wf(rules),
        prefix_min(rules, rules.len() as int) <= available,
        0 <= i <= j <= rules.len(),
    ensures
        alloc_sum(rules, available, i) <= alloc_sum(rules, available, j),
    decreases j,
{
    if i < j {
        lemma_alloc_sum_mono(rules, available, i, j - 1);
        lemma_alloc_at_ge_min(rules, available, j - 1);
    }
}

/// In the normal case no single child receives more than `available`.
pub proof fn lemma_alloc_at_le_available(rules: Seq<SizeRules>, available: int, i: int)
    requires
        rules_wf(rules),
        prefix_min(rules, rules.len() as int) <= available,
        0 <= i < rules.len(),
    ensures
        alloc_at(rules, available, i) <= available,
{
    let n = rules.len() as int;
    lemma_solve_conservation(rules, available);
    lemma_alloc_sum_mono(rules, available, i + 1, n);
    lemma_alloc_sum_mono(rules, available, 0, i);
}

/// Floor divisions add up to at most the floor of the added dividends.
pub proof fn lemma_div_sum_le(a: int, b: int, d: int)
    requires
        0 <= a,
        0 <= b,
        0 < d,
    ensures
        a / d + b / d <= (a + b) / d,
{
    lemma_fundamental_div_mod(a, d);
    lemma_fundamental_div_mod(b, d);
    lemma_fundamental_div_mod(a + b, d);
    lemma_mod_division_less_than_divisor(a, d);
    lemma_mod_division_less_than_divisor(b, d);
    lemma_mod_division_less_than_divisor(a + b, d);
    assert(a / d + b / d <= (a + b) / d) by (nonlinear_arith)
        requires
            a == d * (a / d) + a % d,
            b == d * (b / d) + b % d,
            a + b == d * ((a + b) / d) + (a + b) % d,
            0 <= a % d < d,
            0 <= b % d < d,
            0 <= (a + b) % d < d,
            0 < d,
    ;
}

/// In the degenerate regime the first `k` allocations are bounded by the
/// proportional share of the first `k` minima.
proof fn lemma_alloc_prefix_le_degenerate(rules: Seq<SizeRules>, available: int, k: int)
    requires
        rules_wf(rules),
        0 <= available,
        available < prefix_min(rules, rules.len() as int),
        0 <= k <= rules.len(),
    ensures
        0 <= alloc_sum(rules, available, k),
        alloc_sum(rules, available, k) <= prefix_min(rules, k) * available / prefix_min(
            rules,
            rules.len() as int,
        ),
    decreases k,
{
    let n = rules.len() as int;
    let sm = prefix_min(rules, n);
    if k == 0 {
        lemma_mul_basics(available);
        assert(prefix_min(rules, 0) * available == 0);
        lemma_div_of0(sm);
    } else {
        lemma_alloc_prefix_le_degenerate(rules, available, k - 1);
        lemma_solve_degenerate(rules, available, k - 1);
        let pm1 = prefix_min(rules, k - 1);
        let m = rules[k - 1].min_len as int;
        lemma_prefix_min_bound(rules, k - 1);
        assert((pm1 + m) * available == pm1 * available + m * available) by (nonlinear_arith);
        assert(0 <= pm1 * available && 0 <= m * available) by (nonlinear_arith)
            requires
                0 <= pm1,
                0 <= m,
                0 <= available,
        ;
        lemma_div_sum_le(pm1 * available, m * available, sm);
    }
}

/// The first `k` allocations together never exceed `available`, in
/// either regime of the solver.
pub proof fn lemma_alloc_prefix_le_available(rules: Seq<SizeRules>, available: int, k: int)
    requires
        rules_wf(rules),
        0 <= available,
        0 <= k <= rules.len(),
    ensures
        0 <= alloc_sum(rules, available, k),
        alloc_sum(rules, available, k) <= available,
{
    let n = rules.len() as int;
    let sm = prefix_min(rules, n);
    if available < sm {
        lemma_alloc_prefix_le_degenerate(rules, available, k);
        lemma_prefix_min_mono(rules, k, n);
        lemma_prefix_min_bound(rules, k);
        lemma_mul_inequality(prefix_min(rules, k), sm, available);
        lemma_multiply_divide_le(prefix_min(rules, k) * available, sm, available);
    } else {
        if k > 0 {
            lemma_solve_conservation(rules, available);
            lemma_alloc_sum_mono(rules, available, k, n);
            lemma_alloc_sum_mono(rules, available, 0, k);
        }
    }
}

/// `count_weight` never exceeds the prefix length.
pub proof fn lemma_count_weight_le(rules: Seq<SizeRules>, k: int, w: int)
    requires
        0 <= k,
    ensures
        count_weight(rules, k, w) <= k,
    decreases k,
{
    if k > 0 {
        lemma_count_weight_le(rules, k - 1, w);
    }
}
/// Distribute `available` among the children described by `rules`, one
/// length per child, following exactly the policy stated by [`alloc_at`]:
/// proportional clamping below the minima, otherwise minima plus
/// ideal-growth shares plus equal stretch shares, conserving `available`.
pub fn solve(rules: &Vec<SizeRules>, available: u32) -> (out: Vec<u32>)
    requires
        rules_wf(rules@),
    ensures
        out.len() == rules.len(),
        forall|i: int|
            0 <= i < rules@.len() ==> #[trigger] out[i] as int == alloc_at(
                rules@,
                available as int,
                i,
            ),
{
    let n: usize = rules.len();
    let mut out: Vec<u32> = Vec::new();
    if n == 0 {
        return out;
    }
    // First pass: total minimum, total ideal-growth gap, and the size of
    // the highest stretch-priority group.
    let mut sm: u128 = 0;
    let mut g: u128 = 0;
    let mut maxw: u8 = 0;
    let mut cnt: usize = 0;
    let mut i: usize = 0;
    while i < n
        invariant
            n == rules@.len(),
            rules_wf(rules@),
            i <= n,
            sm as int == prefix_min(rules@, i as int),
            g as int == prefix_gap(rules@, i as int),
            i > 0 ==> maxw as int == max_weight(rules@, i as int),
            i > 0 ==> cnt as int == count_weight(rules@, i as int, maxw as int),
            cnt <= i,
        decreases n - i,
    {
        proof {
            lemma_prefix_min_bound(rules@, i as int);
            lemma_prefix_gap_bound(rules@, i as int);
            lemma_mul_inequality(i as int, u64::MAX as int, u32::MAX as int);
            assert((u64::MAX as int) * (u32::MAX as int) + (u32::MAX as int) <= u128::MAX as int)
                by (nonlinear_arith);
            lemma_count_weight_le(rules@, i as int, maxw as int);
            assert(rules@[i as int].wf());
        }
        let rl = rules[i];
        sm = sm + rl.min_len as u128;
        g = g + (rl.ideal_len - rl.min_len) as u128;
        let w: u8 = rl.stretch.rank();
        if i == 0 || w > maxw {
            proof {
                if i > 0 {
                    lemma_count_above_max(rules@, i as int, w as int);
                } else {
                    assert(max_weight(rules@, 0) == -1);
                    assert(count_weight(rules@, 0, w as int) == 0);
                }
            }
            maxw = w;
            cnt = 1;
        } else if w == maxw {
            cnt = cnt + 1;
        }
        i = i + 1;
    }
    if (available as u128) < sm {
        // Degenerate case: proportional shares of `available`.
        let mut i: usize = 0;
        while i < n
            invariant
                n == rules@.len(),
                rules_wf(rules@),
                i <= n,
                sm as int == prefix_min(rules@, n as int),
                (available as int) < sm as int,
                out.len() == i,
                forall|j: int|
                    0 <= j < i ==> #[trigger] out[j] as int == alloc_at(
                        rules@,
                        available as int,
                        j,
                    ),
            decreases n - i,
        {
            proof {
                lemma_solve_degenerate(rules@, available as int, i as int);
                lemma_mul_upper_bound(
                    rules@[i as int].min_len as int,
                    u32::MAX as int,
                    available as int,
                    u32::MAX as int,
                );
                assert((u32::MAX as int) * (u32::MAX as int) <= u128::MAX as int)
                    by (nonlinear_arith);
            }
            let q: u128 = (rules[i].min_len as u128) * (available as u128) / sm;
            out.push(q as u32);
            i = i + 1;
        }
        return out;
    }
    // Normal case: minima plus ideal-growth shares plus stretch shares.
    proof {
        lemma_rank_pos(rules@);
        lemma_prefix_min_bound(rules@, n as int);
        lemma_prefix_gap_bound(rules@, n as int);
        assert(prefix_gap(rules@, 0) == 0);
        assert(prefix_min(rules@, 0) == 0);
        assert(count_weight(rules@, 0, max_weight(rules@, n as int)) == 0);
        lemma_mul_basics(stretch_budget(rules@, available as int));
        lemma_div_of0(cnt as int);
        if g > 0 {
            lemma_mul_basics(ideal_budget(rules@, available as int));
            lemma_div_of0(g as int);
        }
    }
    let sm32: u32 = sm as u32;
    let surplus: u32 = available - sm32;
    let e1w: u128 = if (surplus as u128) <= g {
        surplus as u128
    } else {
        g
    };
    let e1: u32 = e1w as u32;
    let e2: u32 = surplus - e1;
    let s: u128 = cnt as u128;
    let mut pg: u128 = 0;
    let mut prev_qi: u128 = 0;
    let mut r: usize = 0;
    let mut prev_qs: u128 = 0;
    let mut i: usize = 0;
    while i < n
        invariant
            n == rules@.len(),
            n >= 1,
            rules_wf(rules@),
            i <= n,
            sm as int == prefix_min(rules@, n as int),
            g as int == prefix_gap(rules@, n as int),
            maxw as int == max_weight(rules@, n as int),
            cnt as int == rank(rules@, n as int),
            s == cnt as u128,
            cnt >= 1,
            sm as int <= available as int,
            surplus as int == available as int - sm as int,
            e1w == e1 as u128,
            e1 as int == ideal_budget(rules@, available as int),
            e2 as int == stretch_budget(rules@, available as int),
            out.len() == i,
            forall|j: int|
                0 <= j < i ==> #[trigger] out[j] as int == alloc_at(rules@, available as int, j),
            pg as int == prefix_gap(rules@, i as int),
            g > 0 ==> prev_qi as int == (e1 as int) * prefix_gap(rules@, i as int) / (g as int),
            r as int == rank(rules@, i as int),
            r <= i,
            prev_qs as int == (e2 as int) * rank(rules@, i as int) / (cnt as int),
        decreases n - i,
    {
        let rl = rules[i];
        proof {
            assert(rules@[i as int].wf());
            lemma_alloc_at_ge_min(rules@, available as int, i as int);
            lemma_alloc_at_le_available(rules@, available as int, i as int);
            lemma_count_weight_le(rules@, i as int, maxw as int);
        }
        let d: u32;
        if g > 0 {
            let gap: u32 = rl.ideal_len - rl.min_len;
            proof {
                lemma_prefix_gap_bound(rules@, i as int);
                lemma_prefix_gap_mono(rules@, (i + 1) as int, n as int);
                lemma_mul_inequality(n as int, u64::MAX as int, u32::MAX as int);
            }
            let pg2: u128 = pg + gap as u128;
            proof {
                assert(pg2 as int == prefix_gap(rules@, (i + 1) as int));
                assert((e1 as int) * (pg2 as int) <= u128::MAX as int) by (nonlinear_arith)
                    requires
                        0 <= e1 as int <= u32::MAX as int,
                        0 <= pg2 as int,
                        pg2 as int <= (u64::MAX as int) * (u32::MAX as int),
                ;
            }
            let q2: u128 = e1w * pg2 / g;
            proof {
                assert((e1 as int) * (pg2 as int) <= (g as int) * (e1 as int))
                    by (nonlinear_arith)
                    requires
                        pg2 as int <= g as int,
                        0 <= e1 as int,
                ;
                lemma_multiply_divide_le((e1 as int) * (pg2 as int), g as int, e1 as int);
                assert((e1 as int) * (pg as int) <= (e1 as int) * (pg2 as int))
                    by (nonlinear_arith)
                    requires
                        pg as int <= pg2 as int,
                        0 <= e1 as int,
                ;
                lemma_div_is_ordered((e1 as int) * (pg as int), (e1 as int) * (pg2 as int), g as int);
                assert(0 <= (e1 as int) * (pg as int)) by (nonlinear_arith)
                    requires
                        0 <= e1 as int,
                        0 <= pg as int,
                ;
                lemma_div_pos_is_pos((e1 as int) * (pg as int), g as int);
            }
            d = (q2 - prev_qi) as u32;
            pg = pg2;
            prev_qi = q2;
        } else {
            proof {
                lemma_prefix_gap_bound(rules@, i as int);
                lemma_prefix_gap_mono(rules@, i as int, n as int);
                lemma_prefix_gap_bound(rules@, (i + 1) as int);
                lemma_prefix_gap_mono(rules@, (i + 1) as int, n as int);
            }
            d = 0;
        }
        let st: u32;
        if rl.stretch.rank() == maxw {
            proof {
                assert(count_weight(rules@, (i + 1) as int, maxw as int) == count_weight(
                    rules@,
                    i as int,
                    maxw as int,
                ) + 1);
                lemma_count_weight_mono(rules@, maxw as int, (i + 1) as int, n as int);
                assert((e2 as int) * ((r as int) + 1) <= u128::MAX as int) by (nonlinear_arith)
                    requires
                        0 <= e2 as int <= u32::MAX as int,
                        0 <= r as int,
                        (r as int) + 1 <= u64::MAX as int,
                ;
                assert((e2 as int) * ((r as int) + 1) <= (cnt as int) * (e2 as int))
                    by (nonlinear_arith)
                    requires
                        (r as int) + 1 <= cnt as int,
                        0 <= e2 as int,
                ;
                lemma_multiply_divide_le((e2 as int) * ((r as int) + 1), cnt as int, e2 as int);
                assert((e2 as int) * (r as int) <= (e2 as int) * ((r as int) + 1))
                    by (nonlinear_arith)
                    requires
                        0 <= e2 as int,
                ;
                lemma_div_is_ordered(
                    (e2 as int) * (r as int),
                    (e2 as int) * ((r as int) + 1),
                    cnt as int,
                );
                assert(0 <= (e2 as int) * (r as int)) by (nonlinear_arith)
                    requires
                        0 <= e2 as int,
                        0 <= r as int,
                ;
                lemma_div_pos_is_pos((e2 as int) * (r as int), cnt as int);
            }
            let q2s: u128 = (e2 as u128) * ((r as u128) + 1) / s;
            st = (q2s - prev_qs) as u32;
            prev_qs = q2s;
            r = r + 1;
        } else {
            proof {
                assert(count_weight(rules@, (i + 1) as int, maxw as int) == count_weight(
                    rules@,
                    i as int,
                    maxw as int,
                ));
            }
            st = 0;
        }
        let len: u32 = rl.min_len + d + st;
        out.push(len);
        i = i + 1;
    }
    out
}

} // verus!
