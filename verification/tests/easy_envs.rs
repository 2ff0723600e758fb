use gyms::easy_env::{EasyEnv1, EasyEnv2};

#[test]
fn easy1_state_lies_in_range() {
    for _ in 0..200 {
        let env = EasyEnv1::new(4);
        assert!(env.state() < 4);
    }
}

#[test]
fn easy1_mirror_action_earns_one() {
    let mut env = EasyEnv1::new(7);
    for _ in 0..200 {
        let goal = 7 - env.state() - 1;
        assert_eq!(env.step(goal), 1);
        assert!(env.state() < 7);
    }
}

#[test]
fn easy1_reward_falls_with_distance() {
    let mut env = EasyEnv1::new(10);
    for action in 0..10usize {
        let goal = 10 - env.state() - 1;
        let expected = 1 - (goal as i32 - action as i32).abs();
        assert_eq!(env.step(action), expected);
        assert!(expected <= 1);
    }
}

#[test]
fn easy1_single_cell() {
    let mut env = EasyEnv1::new(1);
    assert_eq!(env.state(), 0);
    assert_eq!(env.step(0), 1);
    assert_eq!(env.state(), 0);
}

#[test]
fn easy1_far_action_exact_value() {
    // n = 5: the worst action is 4 cells away, reward 1 - 4 = -3, unless it is
    // the mirror; check against the formula for the state drawn
    let mut env = EasyEnv1::new(5);
    let s = env.state();
    let goal = 5 - s - 1;
    let far = if goal < 3 { 4 } else { 0 };
    let expected = 1 - (goal as i32 - far as i32).abs();
    assert_eq!(env.step(far), expected);
}

#[test]
fn easy2_state_lies_in_range() {
    for _ in 0..200 {
        let env = EasyEnv2::new(3);
        let (a, b) = env.state();
        assert!(a < 3 && b < 3);
    }
}

#[test]
fn easy2_mirror_cell_earns_one() {
    let mut env = EasyEnv2::new(4);
    for _ in 0..200 {
        let (s0, s1) = env.state();
        let g0 = 4 - s0 - 1;
        let g1 = 4 - s1 - 1;
        assert_eq!(env.step(g1 * 4 + g0), 1);
    }
}

#[test]
fn easy2_reward_of_every_action() {
    let mut env = EasyEnv2::new(3);
    for action in 0..9usize {
        let (s0, s1) = env.state();
        let g0 = (3 - s0 - 1) as i32;
        let g1 = (3 - s1 - 1) as i32;
        let ax = (action % 3) as i32;
        let ay = (action / 3) as i32;
        let expected = 1 - (g0 - ax).abs() - (g1 - ay).abs();
        let reward = env.step(action);
        assert_eq!(reward, expected);
        assert_eq!(reward == 1, ax == g0 && ay == g1);
    }
}

#[test]
fn easy2_single_cell() {
    let mut env = EasyEnv2::new(1);
    assert_eq!(env.state(), (0, 0));
    assert_eq!(env.step(0), 1);
}

#[test]
fn easy1_long_run_keeps_size_and_range() {
    let mut env = EasyEnv1::new(6);
    for i in 0..1000usize {
        env.step(i % 6);
        assert!(env.state() < 6);
    }
}

#[test]
fn easy2_long_run_keeps_size_and_range() {
    let mut env = EasyEnv2::new(5);
    for i in 0..1000usize {
        env.step(i % 25);
        let (a, b) = env.state();
        assert!(a < 5 && b < 5);
    }
}
