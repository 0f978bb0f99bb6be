use kas_core::layout::{SizeRules, StretchPolicy};
use kas_core::solve::solve;

fn rules(v: &[(u32, u32, StretchPolicy)]) -> Vec<SizeRules> {
    let mut out = Vec::new();
    for &(min_len, ideal_len, stretch) in v {
        out.push(SizeRules { min_len, ideal_len, stretch });
    }
    out
}

#[test]
fn solve_conserves_available_with_stretch() {
    let rs = rules(&[
        (10, 20, StretchPolicy::Fixed),
        (5, 15, StretchPolicy::Low),
        (20, 20, StretchPolicy::High),
    ]);
    let out = solve(&rs, 100);
    // minima 35, ideal growth 20 fully funded, remaining 45 to the
    // single High-priority child.
    assert_eq!(out, vec![20, 15, 65]);
    let total: u64 = out.iter().map(|&x| x as u64).sum();
    assert_eq!(total, 100);
    for (o, r) in out.iter().zip(rs.iter()) {
        assert!(*o >= r.min_len);
    }
}

#[test]
fn solve_conserves_when_everyone_is_fixed() {
    let rs = rules(&[(10, 10, StretchPolicy::Fixed), (10, 10, StretchPolicy::Fixed)]);
    let out = solve(&rs, 50);
    // No ideal growth is possible; the leftover is split equally among
    // the highest stretch group, which is everyone.
    assert_eq!(out, vec![25, 25]);
}

#[test]
fn solve_exact_minima() {
    let rs = rules(&[(10, 30, StretchPolicy::Low), (30, 40, StretchPolicy::High)]);
    let out = solve(&rs, 40);
    assert_eq!(out, vec![10, 30]);
}

#[test]
fn solve_partial_ideal_growth_is_proportional() {
    // gaps 10 and 30, budget 20: rounded by prefix, shares 5 and 15.
    let rs = rules(&[(0, 10, StretchPolicy::Fixed), (0, 30, StretchPolicy::Fixed)]);
    let out = solve(&rs, 20);
    assert_eq!(out, vec![5, 15]);
    assert_eq!(out.iter().sum::<u32>(), 20);
}

#[test]
fn solve_degenerate_gives_proportional_clamp() {
    // available below the minima: proportional shares, rounded down.
    let rs = rules(&[(10, 10, StretchPolicy::Fixed), (30, 30, StretchPolicy::Fixed)]);
    let out = solve(&rs, 20);
    assert_eq!(out, vec![5, 15]);
}

#[test]
fn solve_degenerate_rounds_down_without_overflow() {
    let rs = rules(&[(3, 3, StretchPolicy::Fixed), (3, 3, StretchPolicy::Fixed)]);
    let out = solve(&rs, 5);
    // shares 2.5 each round down to 2; the loss stays unallocated.
    assert_eq!(out, vec![2, 2]);
}

#[test]
fn solve_empty_rules() {
    let rs: Vec<SizeRules> = Vec::new();
    let out = solve(&rs, 100);
    assert!(out.is_empty());
}

#[test]
fn solve_zero_available() {
    let rs = rules(&[(10, 20, StretchPolicy::Low)]);
    let out = solve(&rs, 0);
    assert_eq!(out, vec![0]);
}

#[test]
fn solve_is_deterministic() {
    let rs = rules(&[
        (7, 11, StretchPolicy::Low),
        (13, 29, StretchPolicy::High),
        (3, 5, StretchPolicy::High),
    ]);
    let a = solve(&rs, 97);
    let b = solve(&rs, 97);
    assert_eq!(a, b);
    assert_eq!(a.iter().sum::<u32>(), 97);
}

#[test]
fn solve_at_the_top_of_the_range() {
    let rs = rules(&[(u32::MAX, u32::MAX, StretchPolicy::Fixed)]);
    let out = solve(&rs, u32::MAX);
    assert_eq!(out, vec![u32::MAX]);
}

#[test]
fn solve_degenerate_with_huge_minima() {
    let rs = rules(&[
        (u32::MAX, u32::MAX, StretchPolicy::Fixed),
        (u32::MAX, u32::MAX, StretchPolicy::Fixed),
    ]);
    let out = solve(&rs, u32::MAX);
    // each proportional share is half of the available length
    assert_eq!(out, vec![u32::MAX / 2, u32::MAX / 2]);
}
