use spacetimedb::rand::rngs::StdRng;
use spacetimedb::rand::SeedableRng;
use trigram_game::play::choose_trigram;
use trigram_game::random::{draws_for_positions, shuffle_by_draws, shuffle_vec, shuffled_indices};

#[test]
fn draws_of_zero_rotate_the_first_entry_to_the_end() {
    let mut v = vec!['a', 'b', 'c', 'd'];
    shuffle_by_draws(&mut v, &vec![0, 0, 0, 0]);
    assert_eq!(v, vec!['b', 'c', 'd', 'a']);
}

#[test]
fn draws_selecting_each_position_itself_keep_the_order() {
    let mut v = vec![10, 20, 30, 40];
    shuffle_by_draws(&mut v, &vec![0, 1, 2, 3]);
    assert_eq!(v, vec![10, 20, 30, 40]);
}

#[test]
fn draws_are_reduced_modulo_the_position() {
    let mut v = vec!['a', 'b', 'c'];
    shuffle_by_draws(&mut v, &vec![9, 5, 4]);
    assert_eq!(v, vec!['a', 'c', 'b']);
}

#[test]
fn shuffle_follows_the_drawn_numbers() {
    let mut rng = StdRng::seed_from_u64(43);
    let draws = draws_for_positions(&mut rng, 6);
    assert_eq!(draws.len(), 6);
    assert_eq!(draws[0], 0);
    let mut expected: Vec<u32> = (0..6).collect();
    shuffle_by_draws(&mut expected, &draws);
    let mut rng = StdRng::seed_from_u64(43);
    let mut v: Vec<u32> = (0..6).collect();
    shuffle_vec(&mut v, &mut rng);
    assert_eq!(v, expected);
    let mut rng = StdRng::seed_from_u64(43);
    let order = shuffled_indices(&mut rng, 6);
    let as_u32: Vec<u32> = order.iter().map(|&k| k as u32).collect();
    assert_eq!(as_u32, expected);
    let mut sorted = order.clone();
    sorted.sort();
    assert_eq!(sorted, vec![0, 1, 2, 3, 4, 5]);
}

#[test]
fn trigram_choice_follows_the_draw() {
    let available = vec!["NAT".to_string(), "TER".to_string(), "ION".to_string()];
    assert_eq!(choose_trigram(&available, 7), "TER");
    assert_eq!(choose_trigram(&available, 9), "NAT");
}
