use sweep_engine::shuffle::{lcg_step, shuffle_once, Shuffle};

#[test]
fn shuffle_10_vec() {
    let mut input = vec![1, 2, 3, 4, 5, 6, 7, 8, 9, 10];
    input.shuffle(123, 1000);
    assert_eq!(input.len(), 10)
}

#[test]
fn shuffle_9_vec() {
    let mut input = vec![1, 2, 3, 4, 5, 6, 7, 8, 9];
    input.shuffle(123, 1000);
    assert_eq!(input.len(), 9)
}

#[test]
fn generator_step_follows_the_formula() {
    assert_eq!(lcg_step(123), 3692523112);
    assert_eq!(lcg_step(3692523112), 346212361);
    assert_eq!(lcg_step(0), 1);
}

#[test]
fn generator_step_reduces_large_states() {
    assert_eq!(lcg_step(u64::MAX), 4160191484);
    assert_eq!(lcg_step(4294967295), 4160191484);
    assert_eq!(lcg_step(4294967296), 1);
}

#[test]
fn one_round_exchanges_chunks_and_rotates() {
    let mut input = vec![1, 2, 3, 4, 5, 6, 7, 8, 9, 10];
    let next = shuffle_once(&mut input, 123);
    assert_eq!(input, vec![10, 5, 6, 7, 8, 1, 2, 3, 4, 9]);
    assert_eq!(next, 1104610965);
}

#[test]
fn one_iteration_is_one_round() {
    let mut input = vec![1, 2, 3, 4, 5, 6, 7, 8, 9, 10];
    input.shuffle(123, 1);
    assert_eq!(input, vec![10, 5, 6, 7, 8, 1, 2, 3, 4, 9]);
}

#[test]
fn two_iterations_carry_the_generator_on() {
    let mut input = vec![1, 2, 3, 4, 5, 6, 7, 8, 9, 10];
    input.shuffle(123, 2);
    assert_eq!(input, vec![9, 2, 3, 6, 7, 8, 1, 10, 5, 4]);
}

#[test]
fn thousand_iterations_give_the_expected_order() {
    let mut ten = vec![1, 2, 3, 4, 5, 6, 7, 8, 9, 10];
    ten.shuffle(123, 1000);
    assert_eq!(ten, vec![9, 4, 5, 10, 1, 6, 3, 8, 7, 2]);
    let mut nine = vec![1, 2, 3, 4, 5, 6, 7, 8, 9];
    nine.shuffle(123, 1000);
    assert_eq!(nine, vec![5, 7, 3, 8, 9, 1, 4, 2, 6]);
}

#[test]
fn the_last_chunk_takes_the_remainder() {
    let mut input = vec![1, 2, 3, 4, 5, 6, 7];
    input.shuffle(7, 3);
    assert_eq!(input, vec![1, 5, 6, 3, 7, 4, 2]);
}

#[test]
fn a_round_on_fifty_two_elements() {
    let mut input: Vec<u32> = (0..52).collect();
    input.shuffle(1, 1);
    let expected: Vec<u32> = vec![
        11, 12, 13, 14, 15, 16, 17, 18, 19, 20, 21, 22, 23, 24, 25, 26, 27, 28, 29, 40, 41, 42,
        43, 44, 45, 46, 47, 48, 49, 50, 51, 0, 1, 2, 3, 4, 5, 6, 7, 8, 9, 30, 31, 32, 33, 34, 35,
        36, 37, 38, 39, 10,
    ];
    assert_eq!(input, expected);
}

#[test]
fn zero_iterations_change_nothing() {
    let mut input = vec![4, 8, 15, 16, 23, 42];
    input.shuffle(99, 0);
    assert_eq!(input, vec![4, 8, 15, 16, 23, 42]);
}

#[test]
fn empty_sequence_is_shuffled_without_failure() {
    for seed in [0u64, 1, 123, u64::MAX] {
        for iterations in [0usize, 1, 2, 1000] {
            let mut input: Vec<u8> = Vec::new();
            input.shuffle(seed, iterations);
            assert!(input.is_empty());
        }
    }
}

#[test]
fn single_element_is_shuffled_without_failure() {
    for seed in [0u64, 1, 123, u64::MAX] {
        for iterations in [0usize, 1, 2, 1000] {
            let mut input = vec![7];
            input.shuffle(seed, iterations);
            assert_eq!(input, vec![7]);
        }
    }
}

#[test]
fn fewer_than_five_elements_are_only_rotated() {
    let mut three = vec![1, 2, 3];
    three.shuffle(99, 4);
    assert_eq!(three, vec![2, 3, 1]);
    let mut two = vec![1, 2];
    two.shuffle(5, 3);
    assert_eq!(two, vec![2, 1]);
    let mut four = vec![1, 2, 3, 4];
    four.shuffle(5, 1);
    assert_eq!(four, vec![2, 3, 4, 1]);
}

#[test]
fn same_seed_and_iterations_give_the_same_order() {
    let mut first: Vec<u32> = (0..52).collect();
    let mut second: Vec<u32> = (0..52).collect();
    first.shuffle(2024, 9128);
    second.shuffle(2024, 9128);
    assert_eq!(first, second);
}

#[test]
fn another_seed_gives_another_order() {
    let mut first: Vec<u32> = (0..52).collect();
    let mut second: Vec<u32> = (0..52).collect();
    first.shuffle(123, 9128);
    second.shuffle(0, 9128);
    assert_ne!(first, second);
}

#[test]
fn shuffling_keeps_every_element() {
    for length in 0..60usize {
        let mut input: Vec<usize> = (0..length).map(|value| value % 7).collect();
        let mut before = input.clone();
        input.shuffle(length as u64 * 31 + 5, 17);
        assert_eq!(input.len(), length);
        let mut after = input.clone();
        before.sort();
        after.sort();
        assert_eq!(before, after);
    }
}

#[test]
fn elements_need_not_be_copied() {
    let mut words: Vec<String> = vec![
        String::from("a"),
        String::from("b"),
        String::from("c"),
        String::from("d"),
        String::from("e"),
        String::from("f"),
        String::from("g"),
        String::from("h"),
        String::from("i"),
        String::from("j"),
    ];
    words.shuffle(123, 1);
    let joined: String = words.concat();
    assert_eq!(joined, "jefghabcdi");
}
