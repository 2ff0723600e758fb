use gyms::action_space::{action_from_draw, CategoricalActionSpace, MultiCategoricalActionSpace};
use rand::rngs::StdRng;
use rand::{Rng, SeedableRng};

#[test]
fn categorical_new_keeps_n() {
    let space = CategoricalActionSpace::new(6);
    assert_eq!(space.n, 6);
}

#[test]
fn categorical_sample_gives_the_drawn_action() {
    let space = CategoricalActionSpace::new(5);
    for draw in 1..=5usize {
        assert_eq!(space.sample(draw), draw as i32);
    }
}

#[test]
fn categorical_sample_from_a_seeded_generator_lies_in_one_to_n() {
    let space = CategoricalActionSpace::new(5);
    let mut rng = StdRng::seed_from_u64(7);
    let mut seen = [false; 6];
    for _ in 0..2000 {
        let a = space.sample(rng.gen_range(1..space.n + 1));
        assert!((1..=5).contains(&a), "sampled {}", a);
        seen[a as usize] = true;
    }
    assert!(seen[1..].iter().all(|&s| s));
}

#[test]
fn categorical_sample_is_reproducible_with_a_seed() {
    let space = CategoricalActionSpace::new(100);
    let mut a = StdRng::seed_from_u64(42);
    let mut b = StdRng::seed_from_u64(42);
    for _ in 0..50 {
        assert_eq!(
            space.sample(a.gen_range(1..space.n + 1)),
            space.sample(b.gen_range(1..space.n + 1))
        );
    }
}

#[test]
fn categorical_with_one_action_always_gives_it() {
    let space = CategoricalActionSpace::new(1);
    assert_eq!(space.sample(1), 1);
}

#[test]
fn action_from_a_large_draw_wraps_as_the_cast_does() {
    assert_eq!(action_from_draw(7), 7);
    assert_eq!(action_from_draw(i32::MAX as usize), i32::MAX);
    assert_eq!(action_from_draw(i32::MAX as usize + 1), i32::MIN);
}

#[test]
fn multi_categorical_new_keeps_n() {
    let space = MultiCategoricalActionSpace::new(vec![2, 3]);
    assert_eq!(space.n, vec![2, 3]);
}

#[test]
fn multi_categorical_sample_per_dimension() {
    let space = MultiCategoricalActionSpace::new(vec![1, 3, 7]);
    assert_eq!(space.sample(&vec![1, 2, 7]), vec![1, 2, 7]);
    let mut rng = StdRng::seed_from_u64(1);
    for _ in 0..500 {
        let draws: Vec<usize> = space.n.iter().map(|n| rng.gen_range(1..n + 1)).collect();
        let a = space.sample(&draws);
        assert_eq!(a.len(), 3);
        assert_eq!(a[0], 1);
        assert!((1..=3).contains(&a[1]));
        assert!((1..=7).contains(&a[2]));
    }
}

#[test]
fn multi_categorical_with_no_dimension_gives_nothing() {
    let space = MultiCategoricalActionSpace::new(vec![]);
    assert!(space.sample(&vec![]).is_empty());
}
