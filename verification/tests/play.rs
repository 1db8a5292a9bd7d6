use daily_set::game::{
    check_current_guess, end_game, found_sets_rows, increment_elapsed, minutes_and_seconds,
    next_frame, toggle_card_selection, update_current_game_if_already_solved, GuessOutcome,
};
use daily_set::modal::results::{
    banner_from_draws, flawlessness, get_result_banner, time_badge, Flawlessness, TimeBadge,
};
use daily_set::modal::results_banner::ResultsBanner;
use daily_set::state::game_board::{init_game_board, sort_set, GameBoard};
use daily_set::state::{Color, CurrentGame, Fill, GameDuration, GameStats, Quantity, Shape};

fn board() -> GameBoard {
    init_game_board("2026/06/30".to_string(), 2026, 181).unwrap()
}

/// Positions on the board of the cards of the answer key's first set, and of
/// three cards that do not form a set.
fn set_and_non_set(board: &GameBoard) -> ([usize; 3], [usize; 3]) {
    let set = board.sets()[0];
    let position = |card| (0..12).find(|&i| board.cards[i] == card).unwrap();
    let mut in_set = [position(set[0]), position(set[1]), position(set[2])];
    in_set.sort();
    for i in 0..12 {
        for j in (i + 1)..12 {
            for k in (j + 1)..12 {
                let guess = sort_set([board.cards[i], board.cards[j], board.cards[k]]);
                if !board.contains_guess(&guess) {
                    return (in_set, [i, j, k]);
                }
            }
        }
    }
    unreachable!()
}

fn select(game: &mut CurrentGame, positions: [usize; 3]) {
    for p in positions {
        toggle_card_selection(game, p);
    }
}

#[test]
fn selecting_keeps_positions_sorted_and_toggles() {
    let mut game = CurrentGame::new();
    toggle_card_selection(&mut game, 7);
    toggle_card_selection(&mut game, 2);
    toggle_card_selection(&mut game, 9);
    assert_eq!(game.current_guess, vec![2, 7, 9]);
    toggle_card_selection(&mut game, 7);
    assert_eq!(game.current_guess, vec![2, 9]);
    toggle_card_selection(&mut game, 5);
    assert_eq!(game.current_guess, vec![2, 5, 9]);
}

#[test]
fn new_game_is_active_and_empty() {
    let game = CurrentGame::new();
    assert!(game.active);
    assert!(!game.started);
    assert_eq!(game.found_sets.len(), 0);
    assert_eq!(game.elapsed, GameDuration::zero());
}

#[test]
fn a_set_is_found_then_guessed_again_and_a_non_set_is_a_mistake() {
    let board = board();
    let (set, non_set) = set_and_non_set(&board);
    let mut game = CurrentGame::new();
    game.elapsed = GameDuration::new(12, 5);

    select(&mut game, set);
    assert_eq!(check_current_guess(&board, &mut game), GuessOutcome::Found);
    assert_eq!(game.found_sets.len(), 1);
    assert_eq!(game.found_sets[0].cards, board.sets()[0]);
    assert_eq!(game.found_sets[0].elapsed, GameDuration::new(12, 5));
    assert_eq!(game.current_guess.len(), 0);

    select(&mut game, set);
    assert_eq!(check_current_guess(&board, &mut game), GuessOutcome::AlreadyFound);
    assert_eq!(game.already_guessed_counter, 1);
    assert_eq!(game.mistake_counter, 0);
    assert_eq!(game.found_sets.len(), 1);

    select(&mut game, non_set);
    assert_eq!(check_current_guess(&board, &mut game), GuessOutcome::NotASet);
    assert_eq!(game.mistake_counter, 1);
    assert_eq!(game.already_guessed_counter, 1);
    assert_eq!(game.found_sets.len(), 1);
}

#[test]
fn finding_all_six_sets_and_ending_records_the_game_once() {
    let board = board();
    let mut game = CurrentGame::new();
    for set in board.sets().clone() {
        let mut positions = [0; 3];
        for (n, card) in set.iter().enumerate() {
            positions[n] = (0..12).find(|&i| board.cards[i] == *card).unwrap();
        }
        positions.sort();
        select(&mut game, positions);
        assert_eq!(check_current_guess(&board, &mut game), GuessOutcome::Found);
        increment_elapsed(&mut game, GameDuration::new(10, 0));
    }
    assert_eq!(game.found_sets.len(), 6);
    let mut stats = GameStats::new();
    assert!(end_game(&board, &mut game, &mut stats));
    assert!(!game.active);
    assert_eq!(stats.summaries.len(), 1);
    assert_eq!(stats.summaries[0].date_of_board, "2026/06/30");
    assert_eq!(stats.summaries[0].sets[5].cards, board.sets()[5]);

    // Ending again records nothing more.
    assert!(!end_game(&board, &mut game, &mut stats));
    assert_eq!(stats.summaries.len(), 1);

    // A new session of the same day is restored from the stats.
    let mut restored = CurrentGame::new();
    update_current_game_if_already_solved(&mut restored, &stats, &board);
    assert!(restored.started);
    assert_eq!(restored.found_sets.len(), 6);
    assert_eq!(restored.elapsed, GameDuration::new(50, 0));

    // Another day's board is not.
    let other = init_game_board("2026/07/01".to_string(), 2026, 182).unwrap();
    let mut fresh = CurrentGame::new();
    update_current_game_if_already_solved(&mut fresh, &stats, &other);
    assert!(!fresh.started);
    assert_eq!(fresh.found_sets.len(), 0);
}

#[test]
fn an_active_game_of_a_recorded_day_is_not_recorded_twice() {
    let board = board();
    let mut game = CurrentGame::new();
    let mut stats = GameStats::new();
    for set in board.sets().clone() {
        let mut positions = [0; 3];
        for (n, card) in set.iter().enumerate() {
            positions[n] = (0..12).find(|&i| board.cards[i] == *card).unwrap();
        }
        positions.sort();
        select(&mut game, positions);
        check_current_guess(&board, &mut game);
    }
    let mut again = game.clone();
    end_game(&board, &mut game, &mut stats);
    assert!(end_game(&board, &mut again, &mut stats));
    assert_eq!(stats.summaries.len(), 1);
}

#[test]
fn durations_add_and_carry() {
    let sum = GameDuration::new(1, 600_000_000).add(GameDuration::new(2, 500_000_000));
    assert_eq!(sum, GameDuration { secs: 4, nanos: 100_000_000 });
    assert_eq!(GameDuration::new(3, 2_500_000_000), GameDuration { secs: 5, nanos: 500_000_000 });
    assert_eq!(sum.as_secs(), 4);
    assert_eq!(sum.subsec_millis(), 100);
    assert_eq!(minutes_and_seconds(&GameDuration::new(185, 0)), (3, 5));
}

#[test]
fn frames_cycle() {
    assert_eq!(next_frame(0, 4), 1);
    assert_eq!(next_frame(3, 4), 0);
    assert_eq!(next_frame(2, 28), 3);
}

#[test]
fn found_sets_rows_pad_to_six() {
    let board = board();
    let (set, _) = set_and_non_set(&board);
    let mut game = CurrentGame::new();
    select(&mut game, set);
    check_current_guess(&board, &mut game);
    let rows = found_sets_rows(&game.found_sets);
    assert_eq!(rows.len(), 6);
    assert_eq!(rows[0], Some(board.sets()[0]));
    assert!(rows[1..].iter().all(|r| r.is_none()));
}

#[test]
fn flawlessness_from_counters() {
    let mut game = CurrentGame::new();
    assert_eq!(flawlessness(&game), Flawlessness::NoMistakes);
    game.already_guessed_counter = 2;
    assert_eq!(flawlessness(&game), Flawlessness::NoIncorrectGuesses);
    game.mistake_counter = 1;
    assert_eq!(flawlessness(&game), Flawlessness::WithMistakes);
}

#[test]
fn time_badges_at_their_limits() {
    let badge = |secs: u64, millis: u32| time_badge(&GameDuration::new(secs, millis * 1_000_000));
    assert_eq!(badge(9, 999), TimeBadge::BowingToTheCrown);
    assert_eq!(badge(10, 0), TimeBadge::BowingToTheCrown);
    assert_eq!(badge(10, 1), TimeBadge::CrownAndBow);
    assert_eq!(badge(30, 0), TimeBadge::CrownAndBow);
    assert_eq!(badge(30, 1), TimeBadge::Medal);
    assert_eq!(badge(60, 500), TimeBadge::Medal);
    assert_eq!(badge(61, 0), TimeBadge::RaceCar);
    assert_eq!(badge(120, 0), TimeBadge::RaceCar);
    assert_eq!(badge(120, 1), TimeBadge::GreenHeart);
    assert_eq!(badge(300, 0), TimeBadge::GreenHeart);
    assert_eq!(badge(300, 1), TimeBadge::NoBadge);
}

#[test]
fn banners_by_time_and_day() {
    let date = "2026/06/30".to_string();
    for secs in [0u64, 45, 179] {
        let banner = get_result_banner(&date, secs, 181, false);
        assert!(banner.layout().is_some(), "{:?}", banner);
    }
    for secs in [180u64, 400, 1000] {
        let banner = get_result_banner(&date, secs, 181, false);
        assert!(matches!(
            banner,
            ResultsBanner::Congratulations | ResultsBanner::WellDone | ResultsBanner::YoureADiamond
        ));
        let banner = get_result_banner(&date, secs, 181, true);
        assert!(matches!(
            banner,
            ResultsBanner::Congratulations
                | ResultsBanner::WellDone
                | ResultsBanner::YoureADiamond
                | ResultsBanner::HappyCaturday
        ));
    }
}

#[test]
fn banner_for_given_draws() {
    assert_eq!(banner_from_draws(30, false, false, 2), ResultsBanner::NiceWork);
    assert_eq!(banner_from_draws(200, true, true, 0), ResultsBanner::HappyCaturday);
    assert_eq!(banner_from_draws(200, true, false, 1), ResultsBanner::WellDone);
    assert_eq!(ResultsBanner::Goal.asset_name(), "goal.png");
    assert_eq!(ResultsBanner::HappyCaturday.asset_name(), "happy_caturday_perched.png");
    assert_eq!(ResultsBanner::NiceWork.layout().unwrap().rows, 28);
    assert!(ResultsBanner::WellDone.layout().is_none());
}

#[test]
fn selecting_a_card_twice_leaves_the_selection_as_it_was() {
    let mut game = CurrentGame::new();
    toggle_card_selection(&mut game, 4);
    toggle_card_selection(&mut game, 1);
    let before = game.current_guess.clone();
    toggle_card_selection(&mut game, 8);
    toggle_card_selection(&mut game, 8);
    assert_eq!(game.current_guess, before);
    toggle_card_selection(&mut game, 4);
    toggle_card_selection(&mut game, 4);
    assert_eq!(game.current_guess, before);
}

#[test]
fn defaults_match_a_new_game() {
    let game = CurrentGame::default();
    assert!(game.active && !game.started);
    assert_eq!(game.mistake_counter, 0);
    assert_eq!(GameStats::default().summaries.len(), 0);
    let card = daily_set::state::Card::default();
    assert_eq!(card.shape, Shape::Diamond);
    assert_eq!(card.color, Color::Blue);
}

#[test]
fn card_image_names() {
    assert_eq!(Shape::Squiggle.asset_name(), "squiggle");
    assert_eq!(Quantity::Three.asset_name(), "3");
    assert_eq!(Fill::Dashed.asset_name(), "D");
    assert_eq!(Color::Gold.asset_name(), "oigold");
}

#[test]
fn image_paths() {
    let card = daily_set::state::Card {
        shape: Shape::Oval,
        quantity: Quantity::Two,
        fill: Fill::Filled,
        color: Color::Pink,
    };
    assert_eq!(daily_set::game::card_to_asset_path(&card), "card/oval/oval_2_F_oipink.png");
    assert_eq!(daily_set::game::score_image_path(0), "score/0_of_6.png");
    assert_eq!(daily_set::game::score_image_path(6), "score/6_of_6.png");
}

#[test]
fn banner_layouts_are_fixed() {
    assert_eq!(
        ResultsBanner::Goal.layout(),
        Some(daily_set::modal::results_banner::BannerLayout { frame_width: 128, frame_height: 32, rows: 4, animated_frames: Some(4) })
    );
    assert_eq!(
        ResultsBanner::NiceWork.layout(),
        Some(daily_set::modal::results_banner::BannerLayout { frame_width: 96, frame_height: 64, rows: 28, animated_frames: Some(28) })
    );
    assert_eq!(ResultsBanner::NiceTry.layout(), None);
}

#[test]
fn banner_for_one_seed_is_fixed() {
    let seed = bytemuck::cast::<[u64; 2], [u8; 16]>([100, 181 << 1]);
    assert_eq!(daily_set::modal::results::banner_for_seed(seed, 100, false), daily_set::modal::results::banner_for_seed(seed, 100, false));
    let date = "2026/06/30".to_string();
    assert_eq!(get_result_banner(&date, 100, 181, false), daily_set::modal::results::banner_for_seed(seed, 100, false));
    assert_eq!(get_result_banner(&date, 500, 181, true), daily_set::modal::results::banner_for_seed(
        bytemuck::cast::<[u64; 2], [u8; 16]>([500, 181 << 1]),
        500,
        true
    ));
}

#[test]
fn score_paths_for_any_count() {
    assert_eq!(daily_set::game::score_image_path(3), "score/3_of_6.png");
    assert_eq!(daily_set::game::score_image_path(12), "score/12_of_6.png");
    assert_eq!(daily_set::game::decimal_string(305), "305");
    assert_eq!(daily_set::game::decimal_string(0), "0");
}

#[test]
fn precise_time_pads_each_part() {
    let elapsed = daily_set::state::GameDuration { secs: 65, nanos: 7_000_000 };
    assert_eq!(daily_set::modal::results::precise_time(&elapsed), "01:05.007");
    let long = daily_set::state::GameDuration { secs: 6000, nanos: 999_999_999 };
    assert_eq!(daily_set::modal::results::precise_time(&long), "100:00.999");
}

#[test]
fn share_text_of_a_quick_flawless_game() {
    let mut game = CurrentGame::new();
    game.elapsed = daily_set::state::GameDuration { secs: 25, nanos: 0 };
    let text = daily_set::modal::results::share_text(&"2026/06/30".to_string(), &game);
    assert_eq!(
        text,
        "#DailySet - 2026/06/30\n0:25 👑🙇\n💎 No Mistakes\nhttps://kfc35.github.io/daily_set/"
    );
    game.elapsed = daily_set::state::GameDuration { secs: 400, nanos: 0 };
    game.mistake_counter = 2;
    let text = daily_set::modal::results::share_text(&"2026/07/01".to_string(), &game);
    assert_eq!(text, "#DailySet - 2026/07/01\n6:40\nhttps://kfc35.github.io/daily_set/");
}

#[test]
fn finish_text_names_date_time_and_note() {
    let mut game = CurrentGame::new();
    game.elapsed = daily_set::state::GameDuration { secs: 125, nanos: 40_000_000 };
    game.already_guessed_counter = 1;
    assert_eq!(
        daily_set::modal::results::finish_text(&"2026/06/30".to_string(), &game),
        "You finished the Daily Set for 2026/06/30: 02:05.040 - No Incorrect Guesses!"
    );
}

#[test]
fn game_over_text_shows_once_six_sets_are_found() {
    let mut game = CurrentGame::new();
    game.elapsed = daily_set::state::GameDuration { secs: 125, nanos: 0 };
    assert_eq!(daily_set::game::game_over_text(&game), None);
    let board = board();
    for set in board.sets().iter() {
        game.found_sets.push(daily_set::state::FoundSet {
            cards: *set,
            elapsed: game.elapsed,
            mistake_counter: 0,
            already_guessed_counter: 0,
        });
    }
    assert_eq!(daily_set::game::game_over_text(&game), Some("02:05".to_string()));
}

#[test]
fn session_time_adds_up_over_steps() {
    let mut game = CurrentGame::new();
    let steps = [
        GameDuration { secs: 0, nanos: 600_000_000 },
        GameDuration { secs: 1, nanos: 500_000_000 },
        GameDuration { secs: 2, nanos: 0 },
    ];
    for step in steps {
        daily_set::game::increment_elapsed(&mut game, step);
    }
    assert_eq!(game.elapsed, GameDuration { secs: 4, nanos: 100_000_000 });
    assert!(game.active);
    assert!(game.found_sets.is_empty());
}
