use term_prep_plus::order::{
    next_state, seed_presenting, shuffle, INCREMENT, INVERSE, MULTIPLIER,
};

fn is_permutation(order: &[usize]) -> bool {
    let mut seen = vec![false; order.len()];
    for &i in order {
        if i >= order.len() || seen[i] {
            return false;
        }
        seen[i] = true;
    }
    true
}

#[test]
fn the_generator_has_the_constants_of_its_formula() {
    assert_eq!(MULTIPLIER, 6364136223846793005);
    assert_eq!(INCREMENT, 1442695040888963407);
    assert_eq!(MULTIPLIER.wrapping_mul(INVERSE), 1);
    for state in [0, 1, 42, u64::MAX] {
        assert_eq!(next_state(state), state.wrapping_mul(MULTIPLIER).wrapping_add(INCREMENT));
    }
}

#[test]
fn the_generator_steps_by_its_formula() {
    assert_eq!(next_state(0), 1442695040888963407);
    assert_eq!(next_state(1), 7806831264735756412);
    assert_eq!(next_state(u64::MAX), 13525302890751722018);
}

#[test]
fn a_seed_stands_for_one_order() {
    assert_eq!(shuffle(5, 42), (vec![4, 2, 1, 0, 3], 11628791489956661374));
    assert_eq!(shuffle(3, 0), (vec![1, 2, 0], 1876011003808476466));
    assert_eq!(shuffle(4, 7), (vec![0, 3, 2, 1], 16723372171710603212));
    assert_eq!(shuffle(6, 2024), (vec![0, 4, 2, 1, 5, 3], 16809741774991030843));
}

#[test]
fn the_same_seed_gives_the_same_order_again() {
    for seed in [0, 1, 99, u64::MAX] {
        assert_eq!(shuffle(20, seed), shuffle(20, seed));
    }
}

#[test]
fn every_order_is_a_permutation() {
    for n in 0..40 {
        for seed in [0, 1, 2, 3, 1234567, u64::MAX, seed_presenting(0), seed_presenting(7)] {
            let (order, _) = shuffle(n, seed);
            assert_eq!(order.len(), n);
            assert!(is_permutation(&order));
        }
    }
}

#[test]
fn nothing_and_one_thing_have_one_order() {
    assert_eq!(shuffle(0, 9), (Vec::new(), 9));
    assert_eq!(shuffle(1, 9), (vec![0], 9));
}

#[test]
fn the_order_depends_on_the_seed() {
    assert_eq!(seed_presenting(0), 11066951453180645397);
    assert_eq!(seed_presenting(1), 14714348890532040725);
    for n in 2..30 {
        let (first, _) = shuffle(n, seed_presenting(0));
        let (second, _) = shuffle(n, seed_presenting(1));
        assert_eq!(first[0], 0);
        assert_eq!(second[0], 1);
        assert_ne!(first, second);
    }
    assert_eq!(shuffle(2, seed_presenting(0)).0, vec![0, 1]);
    assert_eq!(shuffle(2, seed_presenting(1)).0, vec![1, 0]);
}

#[test]
fn every_question_can_come_first() {
    for n in 1..25usize {
        for k in 0..n {
            let (order, _) = shuffle(n, seed_presenting(k as u32));
            assert_eq!(order[0], k);
        }
    }
    assert_eq!(next_state(seed_presenting(5)), 5 << 32);
    assert_eq!(next_state(seed_presenting(u32::MAX)), (u32::MAX as u64) << 32);
}

#[test]
fn the_order_is_not_always_the_order_of_declaration() {
    let declared: Vec<usize> = (0..10).collect();
    let moved = (0..50u64).filter(|&seed| shuffle(10, seed).0 != declared).count();
    assert!(moved >= 49);
}

#[test]
fn the_state_left_behind_draws_another_order() {
    let (first, state) = shuffle(8, 5);
    let (second, _) = shuffle(8, state);
    assert_ne!(first, second);
}
