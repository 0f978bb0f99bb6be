use kas_core::layout::{SizeRules, StretchPolicy};

#[test]
fn fixed_sets_min_ideal_and_no_stretch() {
    let r = SizeRules::fixed(17);
    assert_eq!(r.min_len, 17);
    assert_eq!(r.ideal_len, 17);
    assert_eq!(r.stretch, StretchPolicy::Fixed);
}

#[test]
fn sequential_sums_and_takes_max_stretch() {
    let a = SizeRules { min_len: 10, ideal_len: 20, stretch: StretchPolicy::Low };
    let b = SizeRules { min_len: 5, ideal_len: 15, stretch: StretchPolicy::High };
    let c = SizeRules::combine_sequential(a, b);
    assert_eq!(c.min_len, 15);
    assert_eq!(c.ideal_len, 35);
    assert_eq!(c.stretch, StretchPolicy::High);
}

#[test]
fn sequential_saturates_at_max() {
    let a = SizeRules::fixed(u32::MAX);
    let b = SizeRules::fixed(5);
    let c = SizeRules::combine_sequential(a, b);
    assert_eq!(c.min_len, u32::MAX);
    assert_eq!(c.ideal_len, u32::MAX);
}

#[test]
fn sequential_identity_concrete() {
    let r = SizeRules { min_len: 3, ideal_len: 9, stretch: StretchPolicy::Required };
    let c = SizeRules::combine_sequential(SizeRules::fixed(0), r);
    assert_eq!(c, r);
}

#[test]
fn parallel_takes_elementwise_max() {
    let a = SizeRules { min_len: 10, ideal_len: 12, stretch: StretchPolicy::Fixed };
    let b = SizeRules { min_len: 4, ideal_len: 30, stretch: StretchPolicy::Low };
    let c = SizeRules::combine_parallel(a, b);
    assert_eq!(c.min_len, 10);
    assert_eq!(c.ideal_len, 30);
    assert_eq!(c.stretch, StretchPolicy::Low);
}

#[test]
fn stretch_order_is_fixed_low_high_required() {
    assert!(StretchPolicy::Fixed.rank() < StretchPolicy::Low.rank());
    assert!(StretchPolicy::Low.rank() < StretchPolicy::High.rank());
    assert!(StretchPolicy::High.rank() < StretchPolicy::Required.rank());
    assert_eq!(StretchPolicy::Low.max_with(StretchPolicy::Required), StretchPolicy::Required);
}
