use daily_set::state::game_board::{
    generate_set, generate_set_with_card, init_game_board, initialize_cards, sort_set,
};
use daily_set::state::{init, Card, Color, Fill, Quantity, Shape};

fn aspect_ok<T: PartialEq>(a: T, b: T, c: T) -> bool {
    (a == b && b == c) || (a != b && b != c && a != c)
}

fn is_set(a: Card, b: Card, c: Card) -> bool {
    a != b
        && aspect_ok(a.shape, b.shape, c.shape)
        && aspect_ok(a.quantity, b.quantity, c.quantity)
        && aspect_ok(a.fill, b.fill, c.fill)
        && aspect_ok(a.color, b.color, c.color)
}

/// Checks that the board has twelve distinct cards and that `sets` is exactly
/// the sorted sets among them.
fn check_board(cards: &[Card; 12], sets: &[[Card; 3]; 6]) {
    for i in 0..12 {
        for j in 0..12 {
            if i != j {
                assert!(cards[i] != cards[j]);
            }
        }
    }
    let mut all_sets = Vec::new();
    for i in 0..12 {
        for j in (i + 1)..12 {
            for k in (j + 1)..12 {
                if is_set(cards[i], cards[j], cards[k]) {
                    let mut set = [cards[i], cards[j], cards[k]];
                    set.sort();
                    all_sets.push(set);
                }
            }
        }
    }
    all_sets.sort();
    let mut answer_key = sets.to_vec();
    answer_key.sort();
    assert_eq!(all_sets, answer_key);
    for set in sets {
        assert!(set[0] < set[1] && set[1] < set[2]);
    }
}

#[test]
fn generated_boards_hold_exactly_six_sets() {
    for day in 1..=40u64 {
        let seed = bytemuck::cast::<[u64; 2], [u8; 16]>([2026, day << 1]);
        let (cards, sets) = initialize_cards(seed).expect("a board");
        check_board(&cards, &sets);
    }
}

#[test]
fn first_generator_boards_hold_exactly_six_sets() {
    for day in 1..=40u64 {
        let seed = bytemuck::cast::<[u64; 2], [u8; 16]>([2025, day << 1]);
        let (cards, sets) = init::initialize_cards(seed).expect("a board");
        check_board(&cards, &sets);
    }
}

#[test]
fn same_day_gives_same_board() {
    let first = init_game_board("2026/03/01".to_string(), 2026, 60).unwrap();
    let second = init_game_board("2026/03/01".to_string(), 2026, 60).unwrap();
    assert_eq!(first.cards, second.cards);
    assert_eq!(first.sets(), second.sets());
    assert_eq!(first.date, "2026/03/01");
}

#[test]
fn different_days_give_different_boards() {
    let first = init_game_board("2026/03/01".to_string(), 2026, 60).unwrap();
    let second = init_game_board("2026/03/02".to_string(), 2026, 61).unwrap();
    assert!(first.cards != second.cards);
    check_board(&second.cards, second.sets());
}

#[test]
fn first_generator_board_of_a_day() {
    let board = init::initialize_game_board("2026/01/05".to_string(), 2026, 5).unwrap();
    check_board(&board.cards, board.sets());
    assert_eq!(board.date(), "2026/01/05");
}

#[test]
fn contains_guess_finds_exactly_the_answer_key() {
    let board = init_game_board("2026/06/30".to_string(), 2026, 181).unwrap();
    let mut found = 0;
    for i in 0..12 {
        for j in (i + 1)..12 {
            for k in (j + 1)..12 {
                let guess = sort_set([board.cards[i], board.cards[j], board.cards[k]]);
                let in_key = board.contains_guess(&guess);
                assert_eq!(in_key, is_set(guess[0], guess[1], guess[2]));
                if in_key {
                    found += 1;
                }
            }
        }
    }
    assert_eq!(found, 6);
}

#[test]
fn card_at_reads_the_board() {
    let board = init_game_board("2026/06/30".to_string(), 2026, 181).unwrap();
    for i in 0..12 {
        assert_eq!(board.card_at(i), board.cards[i]);
    }
}

#[test]
fn generated_sets_are_sets() {
    let mut rng = daily_set::rng::SeededRng::from_seed([3; 16]);
    for _ in 0..100 {
        let set = generate_set(&mut rng);
        assert!(is_set(set[0], set[1], set[2]));
        let set = init::generate_set(&mut rng);
        assert!(is_set(set[0], set[1], set[2]));
    }
    let card = Card { shape: Shape::Oval, quantity: Quantity::Two, fill: Fill::Filled, color: Color::Pink };
    let set = generate_set_with_card(&mut rng, card);
    assert_eq!(set[0], card);
    assert!(is_set(set[0], set[1], set[2]));
    let set = init::generate_set_with_card(&mut rng, card);
    assert_eq!(set[0], card);
    assert!(is_set(set[0], set[1], set[2]));
}

#[test]
fn board_of_a_day_is_the_board_of_its_seed() {
    let board = init_game_board("2026/06/30".to_string(), 2026, 181).unwrap();
    let seed = bytemuck::cast::<[u64; 2], [u8; 16]>([2026, 181 << 1]);
    let (cards, sets) = initialize_cards(seed).unwrap();
    assert_eq!(board.cards, cards);
    assert_eq!(board.sets(), &sets);
}

#[test]
fn aspects_different_from_the_draws() {
    assert_eq!(daily_set::state::game_board::num_aspects_from_draws(true, true), 3);
    assert_eq!(daily_set::state::game_board::num_aspects_from_draws(true, false), 2);
    assert_eq!(daily_set::state::game_board::num_aspects_from_draws(false, true), 1);
    assert_eq!(daily_set::state::game_board::num_aspects_from_draws(false, false), 4);
}

#[test]
fn set_completed_from_chosen_aspects() {
    let card = Card { shape: Shape::Diamond, quantity: Quantity::One, fill: Fill::Empty, color: Color::Blue };
    let set = daily_set::state::game_board::complete_set_with_card(
        card,
        [true, false, true, false],
        (Shape::Diamond, Shape::Diamond),
        (Quantity::Three, Quantity::Two),
        (Fill::Empty, Fill::Empty),
        (Color::Gold, Color::Pink),
    );
    assert_eq!(set[0], card);
    assert_eq!(set[1], Card { shape: Shape::Diamond, quantity: Quantity::Three, fill: Fill::Empty, color: Color::Gold });
    assert_eq!(set[2], Card { shape: Shape::Diamond, quantity: Quantity::Two, fill: Fill::Empty, color: Color::Pink });
    assert!(is_set(set[0], set[1], set[2]));
}

#[test]
fn seed_words_shift_the_day() {
    assert_eq!(daily_set::state::seed_words(2026, 181), [2026, 362]);
    assert_eq!(daily_set::state::seed_words(7, 0), [7, 0]);
}

#[test]
fn board_from_seed_is_the_board_of_the_day() {
    let seed = bytemuck::cast::<[u64; 2], [u8; 16]>([2026, 181 << 1]);
    let from_seed = daily_set::state::game_board::board_from_seed("2026/06/30".to_string(), seed)
        .unwrap();
    let of_the_day = init_game_board("2026/06/30".to_string(), 2026, 181).unwrap();
    assert_eq!(from_seed.cards, of_the_day.cards);
    assert_eq!(from_seed.sets(), of_the_day.sets());
    let (cards, sets) = initialize_cards(seed).unwrap();
    assert_eq!(cards, from_seed.cards);
    assert_eq!(&sets, from_seed.sets());
}

#[test]
fn same_aspects_follow_the_draws() {
    // three aspects differ: only the first index stays
    assert_eq!(daily_set::state::game_board::same_aspects_from_draws(true, true, 2, 0), [false, false, true, false]);
    // two aspects differ: the two indices
    assert_eq!(daily_set::state::game_board::same_aspects_from_draws(true, false, 0, 3), [false, true, true, false]);
    // one aspect differs
    assert_eq!(daily_set::state::game_board::same_aspects_from_draws(false, true, 1, 1), [true, false, true, true]);
    // all four differ
    assert_eq!(daily_set::state::game_board::same_aspects_from_draws(false, false, 0, 0), [false, false, false, false]);
}

#[test]
fn generated_sets_differ_in_two_or_three_aspects_mostly() {
    let mut rng = daily_set::rng::SeededRng::from_seed([9; 16]);
    let mut two_or_three = 0;
    for _ in 0..300 {
        let set = generate_set(&mut rng);
        let differing = [
            set[0].shape != set[1].shape,
            set[0].quantity != set[1].quantity,
            set[0].fill != set[1].fill,
            set[0].color != set[1].color,
        ]
        .iter()
        .filter(|d| **d)
        .count();
        assert!((1..=4).contains(&differing));
        if differing == 2 || differing == 3 {
            two_or_three += 1;
        }
    }
    // two chances in three
    assert!(two_or_three > 150 && two_or_three < 250, "{}", two_or_three);
}

#[test]
fn same_seed_same_draws() {
    let mut first = daily_set::rng::SeededRng::from_seed([4; 16]);
    let mut second = daily_set::rng::SeededRng::from_seed([4; 16]);
    for _ in 0..20 {
        assert_eq!(Card::sample(&mut first), Card::sample(&mut second));
    }
}
