use foundry_core::uint::{Fixture, UintDraw, UintStrategy, UintValueTree};
use foundry_core::word::U256;
use proptest::test_runner::TestRunner;

#[test]
fn test_uint_tree_complicate_max() {
    let mut uint_tree = UintValueTree::new(U256::max_value(), false, U256::max_value(), U256::zero());
    assert_eq!(uint_tree.hi, U256::max_value());
    assert_eq!(uint_tree.curr, U256::max_value());
    uint_tree.complicate();
    assert_eq!(uint_tree.lo, U256::zero());
}

fn w(x: u64) -> U256 {
    U256::from_u64(x)
}

#[test]
fn simplify_halves_toward_lo() {
    let mut t = UintValueTree::new(w(100), false, w(0), w(1000));
    assert!(t.simplify());
    assert_eq!(t.hi, w(100));
    assert_eq!(t.curr, w(50));
    assert!(t.complicate());
    assert_eq!(t.lo, w(51));
    assert_eq!(t.curr, w(75));
    assert!(t.lo.le(&t.curr) && t.curr.le(&t.hi));
}

#[test]
fn repeated_simplify_never_raises_hi() {
    let mut t = UintValueTree::new(w(1_000_000), false, w(0), w(2_000_000));
    let mut last_hi = t.hi;
    while t.simplify() {
        assert!(t.hi.le(&last_hi));
        last_hi = t.hi;
    }
    assert!(t.current().le(&w(1_000_000)));
}

#[test]
fn fixed_tree_never_moves() {
    let mut t = UintValueTree::new(w(42), true, w(0), w(100));
    let before = t.current();
    assert!(!t.simplify());
    assert!(!t.complicate());
    assert_eq!(t.current(), before);
    assert_eq!(before, w(42));
}

#[test]
fn current_is_clamped_to_bounds() {
    let t = UintValueTree::new(w(7), false, w(10), w(20));
    assert_eq!(t.current(), w(10));
    let t = UintValueTree::new(w(70), false, w(10), w(20));
    assert_eq!(t.current(), w(20));
}

#[test]
fn type_max_follows_bit_width() {
    let s = UintStrategy::new(8, None, None, None, false);
    assert_eq!(s.type_max(), w(255));
    assert_eq!(s.max_bound, w(255));
    let s = UintStrategy::new(256, None, None, None, false);
    assert_eq!(s.type_max(), U256::max_value());
    let s = UintStrategy::new(64, None, None, None, false);
    assert_eq!(s.type_max(), w(u64::MAX));
}

#[test]
fn bounded_samples_stay_in_bounds() {
    let s = UintStrategy::new(8, None, Some(w(250)), Some(w(255)), false);
    let mut runner = TestRunner::deterministic();
    let mut saw_max = false;
    for i in 0..1000 {
        let v = s.new_tree(&mut runner).current();
        assert!(w(250).le(&v) && v.le(&w(255)));
        if i < 50 && v == w(255) {
            saw_max = true;
        }
    }
    assert!(saw_max);
    let edge = s.generate_edge_tree(false, 0);
    assert_eq!(edge.current(), w(255));
}

#[test]
fn edge_trees_sit_near_the_bounds() {
    let s = UintStrategy::new(8, None, Some(w(250)), Some(w(255)), false);
    assert_eq!(s.generate_edge_tree(true, 3).curr, w(253));
    assert_eq!(s.generate_edge_tree(false, 2).curr, w(253));
    let full = UintStrategy::new(256, None, None, None, false);
    assert_eq!(full.generate_edge_tree(true, 3).curr, w(3));
    assert_eq!(full.generate_edge_tree(false, 0).curr, U256::max_value());
}

#[test]
fn fixtures_of_matching_width_are_used() {
    let fixtures = vec![Fixture::Uint { value: w(300), bits: 8 }, Fixture::Other, Fixture::Uint { value: w(5), bits: 16 }];
    let s = UintStrategy::new(8, Some(fixtures), None, Some(w(200)), false);
    let d = |i: u64| UintDraw {
        bias: 20,
        is_min: true,
        offset: 0,
        fixture_index: i,
        width: 8,
        higher: 0,
        lower: 77,
        exponent: 0,
        mantissa: 0,
        extra: 0,
    };
    assert_eq!(s.generate_fixtures_tree(&d(0)).curr, w(200));
    assert_eq!(s.generate_fixtures_tree(&d(1)).curr, w(77));
    assert_eq!(s.generate_fixtures_tree(&d(2)).curr, w(77));
    assert_eq!(s.generate_fixtures_tree(&d(3)).curr, w(200));
    let empty = UintStrategy::new(8, None, None, None, false);
    assert_eq!(empty.generate_fixtures_tree(&d(0)).curr, w(77));
}

#[test]
fn uniform_values_keep_the_low_bits() {
    let v = UintStrategy::generate_random_values_uniformly(4, u128::MAX, 0xff);
    assert_eq!(v, w(0xf));
    let v = UintStrategy::generate_random_values_uniformly(130, 0xff, 1);
    assert_eq!(v, U256 { l0: 1, l1: 0, l2: 3, l3: 0 });
    let v = UintStrategy::generate_random_values_uniformly(256, 2, 3);
    assert_eq!(v, U256 { l0: 3, l1: 0, l2: 2, l3: 0 });
}

#[test]
fn draws_pick_the_kind_of_start() {
    let s = UintStrategy::new(8, Some(vec![Fixture::Uint { value: w(9), bits: 8 }]), None, None, false);
    let d = UintDraw {
        bias: 5,
        is_min: true,
        offset: 2,
        fixture_index: 0,
        width: 8,
        higher: 0,
        lower: 77,
        exponent: 0,
        mantissa: 0,
        extra: 0,
    };
    assert_eq!(s.tree_for_draw(&d).curr, w(2));
    assert_eq!(s.tree_for_draw(&UintDraw { bias: 20, ..d }).curr, w(9));
    assert_eq!(s.tree_for_draw(&UintDraw { bias: 70, ..d }).curr, w(77));
    let r = UintStrategy::new(8, None, Some(w(10)), Some(w(19)), false);
    assert_eq!(r.uniform_start(&w(25)), w(15));
}

#[test]
fn log_samples_stay_in_bounds() {
    let s = UintStrategy::new(256, None, Some(w(10)), Some(w(1000)), true);
    for e in 0..=256usize {
        let v = s.generate_log_uniform(e, 12345, 678);
        assert!(w(10).le(&v) && v.le(&w(1000)));
    }
    let flat = UintStrategy::new(256, None, Some(w(10)), Some(w(10)), true);
    assert_eq!(flat.generate_log_uniform(3, 4, 5), w(10));
}

#[test]
fn log_samples_set_the_exponent_bit() {
    let s = UintStrategy::new(256, None, Some(w(0)), Some(w(1000)), true);
    assert_eq!(s.generate_log_uniform(0, 2, 0), w(3));
    assert_eq!(s.generate_log_uniform(2, 4, 0), w(20));
    assert_eq!(s.generate_log_uniform(20, 4, 0), w(1000));
}
