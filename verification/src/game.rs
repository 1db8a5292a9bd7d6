//! The rules of play: selecting cards, checking a guess of three cards,
//! keeping time, finishing a game and recording it.
use vstd::prelude::*;

use crate::modal::results::{padded_decimal, zero_padded};
use crate::state::game_board::{sort3, sort_set, GameBoard};
use crate::state::{
    spec_color_name, Color, Fill, Quantity, Shape, spec_fill_name, spec_quantity_name, spec_shape_name, Card, CurrentGame,
    FoundSet, GameDuration, GameStats, GameSummary,
};

verus! {

/// The positions are in strictly increasing order.
pub open spec fn strictly_increasing(positions: Seq<usize>) -> bool {
    forall|i: int, j: int| 0 <= i < j < positions.len() ==> positions[i] < positions[j]
}

/// Selects the card at `position` when it is not selected, and unselects it
/// when it is: the selection keeps its increasing order.
pub fn toggle_card_selection(game: &mut CurrentGame, position: usize)
    requires
        strictly_increasing(old(game).current_guess@),
    ensures
        strictly_increasing(final(game).current_guess@),
        forall|p: usize|
            #[trigger] final(game).current_guess@.contains(p) <==> (old(game).current_guess@.contains(p)
                != (p == position)),
        final(game).found_sets == old(game).found_sets,
        final(game).elapsed == old(game).elapsed,
        final(game).started == old(game).started,
        final(game).mistake_counter == old(game).mistake_counter,
        final(game).already_guessed_counter == old(game).already_guessed_counter,
        final(game).active == old(game).active,
        final(game).current_guess@.len() == (if old(game).current_guess@.contains(position) {
            old(game).current_guess@.len() - 1
        } else {
            old(game).current_guess@.len() + 1int
        }),
        old(game).current_guess@.len() < 3 ==> final(game).current_guess@.len() <= 3,
{
    let ghost before = game.current_guess@;
    // The index of the first selected position that is not below `position`.
    let mut index: usize = 0;
    while index < game.current_guess.len() && game.current_guess[index] < position
        invariant
            index <= game.current_guess@.len(),
            game.current_guess@ == before,
            forall|k: int| 0 <= k < index ==> before[k] < position,
        decreases game.current_guess@.len() - index,
    {
        index += 1;
    }
    if index < game.current_guess.len() && game.current_guess[index] == position {
        game.current_guess.remove(index);
        proof {
            let after = game.current_guess@;
            assert forall|p: usize| #[trigger] after.contains(p) <==> (before.contains(p) != (p
                == position)) by {
                if after.contains(p) {
                    let q = choose|q: int| 0 <= q < after.len() && after[q] == p;
                    if q < index {
                        assert(before[q] == p);
                    } else {
                        assert(before[q + 1] == p);
                    }
                }
                if before.contains(p) && p != position {
                    let q = choose|q: int| 0 <= q < before.len() && before[q] == p;
                    if q < index {
                        assert(after[q] == p);
                    } else {
                        assert(after[q - 1] == p);
                    }
                }
            }
        }
    } else {
        proof {
            if before.contains(position) {
                let q = choose|q: int| 0 <= q < before.len() && before[q] == position;
                if q > index {
                    assert(before[index as int] < before[q]);
                }
            }
        }
        game.current_guess.insert(index, position);
        proof {
            let after = game.current_guess@;
            assert(after[index as int] == position);
            assert forall|p: usize| #[trigger] after.contains(p) <==> (before.contains(p) != (p
                == position)) by {
                if after.contains(p) && p != position {
                    let q = choose|q: int| 0 <= q < after.len() && after[q] == p;
                    if q < index {
                        assert(before[q] == p);
                    } else {
                        assert(before[q - 1] == p);
                    }
                }
                if before.contains(p) {
                    let q = choose|q: int| 0 <= q < before.len() && before[q] == p;
                    if q < index {
                        assert(after[q] == p);
                    } else {
                        assert(after[q + 1] == p);
                    }
                }
            }
        }
    }
}

/// What a guess of three cards turned out to be.
#[derive(Clone, Copy, Debug, PartialEq, Eq, Structural)]
pub enum GuessOutcome {
    /// A set of the board that had not been found yet; it is now found.
    Found,
    /// A set that had already been found.
    AlreadyFound,
    /// Not a set of the board.
    NotASet,
}

/// Every found set is one of the board's sets, and no set is found twice.
pub open spec fn found_sets_valid(board: &GameBoard, found_sets: Seq<FoundSet>) -> bool {
    &&& forall|k: int|
        0 <= k < found_sets.len() ==> board.spec_sets().contains(#[trigger] found_sets[k].cards)
    &&& forall|i: int, j: int|
        0 <= i < j < found_sets.len() ==> (#[trigger] found_sets[i]).cards != (
        #[trigger] found_sets[j]).cards
}

/// The sorted cards of the current guess.
pub open spec fn spec_guess_cards(board: &GameBoard, positions: Seq<usize>) -> [Card; 3] {
    sort3(
        board.spec_cards()[positions[0] as int],
        board.spec_cards()[positions[1] as int],
        board.spec_cards()[positions[2] as int],
    )
}

/// Some found set holds exactly `cards`.
pub open spec fn already_found(found_sets: Seq<FoundSet>, cards: [Card; 3]) -> bool {
    exists|k: int| 0 <= k < found_sets.len() && (#[trigger] found_sets[k]).cards == cards
}

/// Whether some found set holds exactly `cards`.
fn is_already_found(found_sets: &Vec<FoundSet>, cards: &[Card; 3]) -> (found: bool)
    ensures
        found == already_found(found_sets@, *cards),
{
    let mut k: usize = 0;
    while k < found_sets.len()
        invariant
            k <= found_sets@.len(),
            forall|j: int| 0 <= j < k ==> (#[trigger] found_sets@[j]).cards != *cards,
        decreases found_sets@.len() - k,
    {
        let found_set = found_sets[k];
        if crate::state::game_board::same_triple(&found_set.cards, cards) {
            return true;
        }
        k += 1;
    }
    false
}

/// Checks the three selected cards and clears the selection.
///
/// A set of the board that was not found yet is recorded as found, with the
/// elapsed time and the counters at this moment. A set that was already found
/// counts as guessed again; anything else is a mistake.
pub fn check_current_guess(board: &GameBoard, game: &mut CurrentGame) -> (outcome: GuessOutcome)
    requires
        old(game).current_guess@.len() == 3,
        forall|k: int| 0 <= k < 3 ==> #[trigger] old(game).current_guess@[k] < 12,
        already_found(old(game).found_sets@, spec_guess_cards(board, old(game).current_guess@))
            ==> old(game).already_guessed_counter < u16::MAX,
        !already_found(old(game).found_sets@, spec_guess_cards(board, old(game).current_guess@))
            && !board.spec_sets().contains(spec_guess_cards(board, old(game).current_guess@))
            ==> old(game).mistake_counter < u16::MAX,
    ensures
        ({
            let guess = spec_guess_cards(board, old(game).current_guess@);
            &&& outcome == GuessOutcome::Found <==> (board.spec_sets().contains(guess)
                && !already_found(old(game).found_sets@, guess))
            &&& outcome == GuessOutcome::AlreadyFound <==> already_found(
                old(game).found_sets@,
                guess,
            )
            &&& outcome == GuessOutcome::Found ==> final(game).found_sets@ == old(
                game,
            ).found_sets@.push(
                FoundSet {
                    cards: guess,
                    elapsed: old(game).elapsed,
                    mistake_counter: old(game).mistake_counter,
                    already_guessed_counter: old(game).already_guessed_counter,
                },
            )
            &&& outcome != GuessOutcome::Found ==> final(game).found_sets@ == old(
                game,
            ).found_sets@
            &&& final(game).mistake_counter == old(game).mistake_counter + (if outcome
                == GuessOutcome::NotASet {
                1int
            } else {
                0int
            })
            &&& final(game).already_guessed_counter == old(game).already_guessed_counter + (
            if outcome == GuessOutcome::AlreadyFound {
                1int
            } else {
                0int
            })
        }),
        final(game).current_guess@.len() == 0,
        final(game).elapsed == old(game).elapsed,
        final(game).started == old(game).started,
        final(game).active == old(game).active,
        found_sets_valid(board, old(game).found_sets@) ==> found_sets_valid(
            board,
            final(game).found_sets@,
        ),
        found_sets_valid(board, old(game).found_sets@) ==> final(game).found_sets@.len() <= 6,
{
    let first = board.card_at(game.current_guess[0]);
    let second = board.card_at(game.current_guess[1]);
    let third = board.card_at(game.current_guess[2]);
    let guess = sort_set([first, second, third]);
    proof {
        crate::state::game_board::lemma_sort3_facts(first, second, third);
    }
    let found_before = is_already_found(&game.found_sets, &guess);
    let outcome = if !found_before && board.contains_guess(&guess) {
        let found_set = FoundSet {
            cards: guess,
            elapsed: game.elapsed,
            mistake_counter: game.mistake_counter,
            already_guessed_counter: game.already_guessed_counter,
        };
        game.found_sets.push(found_set);
        GuessOutcome::Found
    } else if found_before {
        game.already_guessed_counter += 1;
        GuessOutcome::AlreadyFound
    } else {
        game.mistake_counter += 1;
        GuessOutcome::NotASet
    };
    game.current_guess.clear();
    proof {
        if found_sets_valid(board, old(game).found_sets@) {
            lemma_found_sets_at_most_six(board, game.found_sets@);
        }
    }
    outcome
}

/// Adds the time that passed to the duration of active gameplay.
pub fn increment_elapsed(game: &mut CurrentGame, delta: GameDuration)
    requires
        old(game).elapsed.wf(),
        delta.wf(),
        old(game).elapsed.secs + delta.secs + (old(game).elapsed.nanos + delta.nanos)
            / 1_000_000_000 <= u64::MAX,
    ensures
        elapsed_added(*old(game), delta, *final(game)),
{
    game.elapsed = game.elapsed.add(delta);
}

/// What `increment_elapsed` does: `after` is `before` with `delta` added to the
/// duration of active gameplay, and nothing else changed.
pub open spec fn elapsed_added(before: CurrentGame, delta: GameDuration, after: CurrentGame) -> bool {
    &&& after.elapsed.wf()
    &&& after.elapsed.total_nanos() == before.elapsed.total_nanos() + delta.total_nanos()
    &&& after.current_guess == before.current_guess
    &&& after.found_sets == before.found_sets
    &&& after.started == before.started
    &&& after.mistake_counter == before.mistake_counter
    &&& after.already_guessed_counter == before.already_guessed_counter
    &&& after.active == before.active
}

/// The time of all the steps, in nanoseconds.
pub open spec fn total_time(deltas: Seq<GameDuration>) -> int
    decreases deltas.len(),
{
    if deltas.len() == 0 {
        0
    } else {
        total_time(deltas.drop_last()) + deltas.last().total_nanos()
    }
}

/// While a game runs, its time adds up: after a run of steps, each adding its
/// delta as `increment_elapsed` does, the duration of active gameplay is the
/// first one plus every delta, and the game is as active, as found, as counted
/// and as selected as it was.
pub proof fn lemma_session_time_adds_up(games: Seq<CurrentGame>, deltas: Seq<GameDuration>)
    requires
        games.len() == deltas.len() + 1,
        forall|i: int| 0 <= i < deltas.len() ==> elapsed_added(games[i], deltas[i], #[trigger] games[i + 1]),
    ensures
        games.last().elapsed.total_nanos() == games[0].elapsed.total_nanos() + total_time(deltas),
        games.last().active == games[0].active,
        games.last().started == games[0].started,
        games.last().found_sets == games[0].found_sets,
        games.last().current_guess == games[0].current_guess,
        games.last().mistake_counter == games[0].mistake_counter,
        games.last().already_guessed_counter == games[0].already_guessed_counter,
    decreases deltas.len(),
{
    if deltas.len() > 0 {
        let n = deltas.len() - 1;
        lemma_session_time_adds_up(games.drop_last(), deltas.drop_last());
        assert(elapsed_added(games[n], deltas[n], games[n + 1]));
        assert(games.drop_last().last() == games[n]);
    }
}

/// The six found sets as an array.
fn found_set_array(found_sets: &Vec<FoundSet>) -> (array: [FoundSet; 6])
    requires
        found_sets@.len() == 6,
    ensures
        array@ == found_sets@,
{
    let array = [
        found_sets[0],
        found_sets[1],
        found_sets[2],
        found_sets[3],
        found_sets[4],
        found_sets[5],
    ];
    assert(array@ =~= found_sets@);
    array
}

/// Ends the game once all six sets are found.
///
/// An active game is recorded in the stats, unless the last recorded game is of
/// the same board; the game is no longer active afterwards. Returns whether the
/// game was active, that is whether the game-over section is to be shown and
/// the stats saved.
pub fn end_game(board: &GameBoard, game: &mut CurrentGame, stats: &mut GameStats) -> (was_active:
    bool)
    requires
        old(game).found_sets@.len() == 6,
    ensures
        was_active == old(game).active,
        !final(game).active,
        final(game).current_guess == old(game).current_guess,
        final(game).found_sets == old(game).found_sets,
        final(game).elapsed == old(game).elapsed,
        final(game).started == old(game).started,
        final(game).mistake_counter == old(game).mistake_counter,
        final(game).already_guessed_counter == old(game).already_guessed_counter,
        (old(game).active && (old(stats).summaries@.len() == 0 || old(
            stats,
        ).summaries@.last().date_of_board@ != board.spec_date())) ==> {
            &&& final(stats).summaries@.len() == old(stats).summaries@.len() + 1
            &&& final(stats).summaries@.drop_last() == old(stats).summaries@
            &&& final(stats).summaries@.last().date_of_board@ == board.spec_date()
            &&& final(stats).summaries@.last().sets@ == old(game).found_sets@
        },
        !(old(game).active && (old(stats).summaries@.len() == 0 || old(
            stats,
        ).summaries@.last().date_of_board@ != board.spec_date())) ==> final(stats).summaries@
            == old(stats).summaries@,
{
    let was_active = game.active;
    if game.active {
        let record = if stats.summaries.len() == 0 {
            true
        } else {
            let last = stats.summaries.len() - 1;
            !(stats.summaries[last].date_of_board == *board.date())
        };
        if record {
            let date_of_board = board.date().clone();
            let sets = found_set_array(&game.found_sets);
            let ghost before = stats.summaries@;
            stats.summaries.push(GameSummary { date_of_board, sets });
            proof {
                assert(stats.summaries@.drop_last() =~= before);
            }
        }
    }
    game.active = false;
    was_active
}

/// If the user has already solved today's game, it should not prompt them to
/// play again: when the last recorded game is of this board, its found sets and
/// time are restored and the game counts as started.
pub fn update_current_game_if_already_solved(
    game: &mut CurrentGame,
    stats: &GameStats,
    board: &GameBoard,
)
    ensures
        ({
            let solved = stats.summaries@.len() > 0 && stats.summaries@.last().date_of_board@
                == board.spec_date();
            &&& solved ==> final(game).found_sets@ == stats.summaries@.last().sets@
                && final(game).elapsed == stats.summaries@.last().sets[5].elapsed
                && final(game).started
            &&& !solved ==> final(game).found_sets == old(game).found_sets && final(game).elapsed
                == old(game).elapsed && final(game).started == old(game).started
        }),
        final(game).current_guess == old(game).current_guess,
        final(game).mistake_counter == old(game).mistake_counter,
        final(game).already_guessed_counter == old(game).already_guessed_counter,
        final(game).active == old(game).active,
{
    if stats.summaries.len() == 0 {
        return;
    }
    let summary = &stats.summaries[stats.summaries.len() - 1];
    if summary.date_of_board == *board.date() {
        let mut found_sets: Vec<FoundSet> = Vec::new();
        let mut k: usize = 0;
        while k < 6
            invariant
                k <= 6,
                found_sets@ == summary.sets@.take(k as int),
            decreases 6 - k,
        {
            found_sets.push(summary.sets[k]);
            proof {
                assert(summary.sets@.take(k + 1) =~= summary.sets@.take(k as int).push(
                    summary.sets@[k as int],
                ));
            }
            k += 1;
        }
        proof {
            assert(summary.sets@.take(6) =~= summary.sets@);
        }
        game.found_sets = found_sets;
        game.elapsed = summary.sets[5].elapsed;
        game.started = true;
    }
}

/// The rows of found sets shown beside the board: one per found set, in the
/// order found, and empty rows up to six.
pub fn found_sets_rows(found_sets: &Vec<FoundSet>) -> (rows: Vec<Option<[Card; 3]>>)
    ensures
        rows@.len() == 6,
        forall|i: int|
            0 <= i < 6 ==> #[trigger] rows@[i] == if i < found_sets@.len() {
                Some(found_sets@[i].cards)
            } else {
                None
            },
{
    let mut rows: Vec<Option<[Card; 3]>> = Vec::new();
    let mut i: usize = 0;
    while i < 6
        invariant
            i <= 6,
            rows@.len() == i,
            forall|j: int|
                0 <= j < i ==> #[trigger] rows@[j] == if j < found_sets@.len() {
                    Some(found_sets@[j].cards)
                } else {
                    None
                },
        decreases 6 - i,
    {
        if i < found_sets.len() {
            rows.push(Some(found_sets[i].cards));
        } else {
            rows.push(None);
        }
        i += 1;
    }
    rows
}

/// The frame that an animated image shows next: the frames cycle through
/// `0..length`.
pub fn next_frame(index: usize, length: usize) -> (next: usize)
    requires
        index < usize::MAX,
    ensures
        next == if index + 1 == length {
            0
        } else {
            index + 1
        },
{
    if index + 1 == length {
        0
    } else {
        index + 1
    }
}

/// The elapsed time split into whole minutes and the seconds of the unfinished minute.
pub fn minutes_and_seconds(elapsed: &GameDuration) -> (parts: (u64, u64))
    ensures
        parts.0 == elapsed.secs / 60,
        parts.1 == elapsed.secs % 60,
{
    let secs = elapsed.as_secs();
    (secs / 60, secs % 60)
}

/// The cards of the found sets.
pub open spec fn found_cards(found_sets: Seq<FoundSet>) -> Seq<[Card; 3]> {
    found_sets.map_values(|found_set: FoundSet| found_set.cards)
}

/// Valid found sets are at most six, and when there
/// are six of them every set of the board is found: the score runs from 0 to 6
/// and reaches 6 exactly when the answer key is complete.
pub proof fn lemma_found_sets_at_most_six(board: &GameBoard, found_sets: Seq<FoundSet>)
    requires
        found_sets_valid(board, found_sets),
    ensures
        found_sets.len() <= 6,
        found_sets.len() == 6 ==> forall|i: int|
            0 <= i < 6 ==> already_found(found_sets, #[trigger] board.spec_sets()[i]),
{
    board.lemma_board_sizes();
    let cards = found_cards(found_sets);
    let key = board.spec_sets();
    assert(cards.no_duplicates()) by {
        assert forall|i: int, j: int|
            0 <= i < cards.len() && 0 <= j < cards.len() && i != j implies cards[i] != cards[j] by {
            if i < j {
                assert(found_sets[i].cards != found_sets[j].cards);
            } else {
                assert(found_sets[j].cards != found_sets[i].cards);
            }
        }
    }
    cards.unique_seq_to_set();
    key.lemma_cardinality_of_set();
    vstd::seq_lib::seq_to_set_is_finite(key);
    assert(cards.to_set().subset_of(key.to_set())) by {
        assert forall|x: [Card; 3]| cards.to_set().contains(x) implies key.to_set().contains(x) by {
            let k = choose|k: int| 0 <= k < cards.len() && cards[k] == x;
            assert(key.contains(found_sets[k].cards));
        }
    }
    vstd::set_lib::lemma_len_subset(cards.to_set(), key.to_set());
    if found_sets.len() == 6 {
        assert forall|i: int| 0 <= i < 6 implies already_found(found_sets, #[trigger] key[i]) by {
            if !already_found(found_sets, key[i]) {
                let rest = key.to_set().remove(key[i]);
                assert(key.to_set().contains(key[i]));
                vstd::set::axiom_set_remove_len(key.to_set(), key[i]);
                assert forall|x: [Card; 3]| cards.to_set().contains(x) implies rest.contains(x) by {
                    let k = choose|k: int| 0 <= k < cards.len() && cards[k] == x;
                    assert(key.contains(found_sets[k].cards));
                    assert(found_sets[k].cards != key[i]);
                }
                vstd::set::axiom_set_remove_finite(key.to_set(), key[i]);
                vstd::set_lib::lemma_len_subset(cards.to_set(), rest);
            }
        }
    }
}

/// A selection relates to the one before it as `toggle_card_selection` leaves it.
pub open spec fn toggled(before: Seq<usize>, after: Seq<usize>, position: usize) -> bool {
    &&& strictly_increasing(after)
    &&& forall|p: usize| #[trigger] after.contains(p) <==> (before.contains(p) != (p == position))
}

/// Two strictly increasing selections that hold the same positions are equal.
pub proof fn lemma_selection_determined(first: Seq<usize>, second: Seq<usize>)
    requires
        strictly_increasing(first),
        strictly_increasing(second),
        forall|p: usize| #[trigger] first.contains(p) <==> second.contains(p),
    ensures
        first == second,
    decreases first.len() + second.len(),
{
    if first.len() > 0 && second.len() > 0 {
        // The first positions are the smallest of the same positions.
        assert(first[0] == first[0] && second[0] == second[0]);
        assert(first.contains(first[0]));
        assert(second.contains(second[0]));
        assert(second.contains(first[0]));
        assert(first.contains(second[0]));
        let i = choose|i: int| 0 <= i < second.len() && second[i] == first[0];
        let j = choose|j: int| 0 <= j < first.len() && first[j] == second[0];
        assert(first[0] == second[0]);
        let first_rest = first.drop_first();
        let second_rest = second.drop_first();
        assert forall|p: usize| #[trigger] first_rest.contains(p) <==> second_rest.contains(p) by {
            if first_rest.contains(p) {
                let k = choose|k: int| 0 <= k < first_rest.len() && first_rest[k] == p;
                assert(first[k + 1] == p);
                assert(first.contains(p));
                assert(second.contains(p));
                let l = choose|l: int| 0 <= l < second.len() && second[l] == p;
                assert(l != 0);
                assert(second_rest[l - 1] == p);
            }
            if second_rest.contains(p) {
                let k = choose|k: int| 0 <= k < second_rest.len() && second_rest[k] == p;
                assert(second[k + 1] == p);
                assert(second.contains(p));
                assert(first.contains(p));
                let l = choose|l: int| 0 <= l < first.len() && first[l] == p;
                assert(l != 0);
                assert(first_rest[l - 1] == p);
            }
        }
        lemma_selection_determined(first_rest, second_rest);
        assert(first.len() == second.len());
        assert forall|k: int| 0 <= k < first.len() implies first[k] == second[k] by {
            if k > 0 {
                assert(first[k] == first_rest[k - 1]);
                assert(second[k] == second_rest[k - 1]);
            }
        }
        assert(first =~= second);
    } else if first.len() > 0 {
        assert(first[0] == first[0]);
        assert(first.contains(first[0]));
        assert(second.contains(first[0]));
    } else if second.len() > 0 {
        assert(second[0] == second[0]);
        assert(second.contains(second[0]));
        assert(first.contains(second[0]));
    } else {
        assert(first =~= second);
    }
}

/// Selecting a card and selecting it again leaves the selection as it was.
pub proof fn lemma_toggle_twice(
    before: Seq<usize>,
    middle: Seq<usize>,
    after: Seq<usize>,
    position: usize,
)
    requires
        strictly_increasing(before),
        toggled(before, middle, position),
        toggled(middle, after, position),
    ensures
        after == before,
{
    assert forall|p: usize| #[trigger] after.contains(p) <==> before.contains(p) by {
        assert(middle.contains(p) <==> (before.contains(p) != (p == position)));
    }
    lemma_selection_determined(after, before);
}

/// The path of the image of a card:
/// `card/{shape}/{shape}_{quantity}_{fill}_{color}.png`.
pub open spec fn spec_card_asset_path(card: Card) -> Seq<char> {
    "card/"@ + spec_shape_name(card.shape) + "/"@ + spec_shape_name(card.shape) + "_"@
        + spec_quantity_name(card.quantity) + "_"@ + spec_fill_name(card.fill) + "_"@
        + spec_color_name(card.color) + ".png"@
}

/// The path of the image of a card.
pub fn card_to_asset_path(card: &Card) -> (path: String)
    ensures
        path@ == spec_card_asset_path(*card),
{
    let shape = card.shape.asset_name();
    let quantity = card.quantity.asset_name();
    let fill = card.fill.asset_name();
    let color = card.color.asset_name();
    let mut path = String::from_str("card/");
    path.append(shape);
    path.append("/");
    path.append(shape);
    path.append("_");
    path.append(quantity);
    path.append("_");
    path.append(fill);
    path.append("_");
    path.append(color);
    path.append(".png");
    path
}

/// Where the parts of a card's image path stand: `card/`, the shape, `/`, the
/// shape, `_`, the quantity, `_`, the fill, `_`, the color and `.png`.
pub proof fn lemma_card_asset_path_parts(card: Card)
    ensures
        ({
            let path = spec_card_asset_path(card);
            let n = spec_shape_name(card.shape).len() as int;
            &&& path.len() == 2 * n + 21
            &&& path.subrange(5, 5 + n) == spec_shape_name(card.shape)
            &&& path[2 * n + 7] == spec_quantity_name(card.quantity)[0]
            &&& path[2 * n + 9] == spec_fill_name(card.fill)[0]
            &&& path.subrange(2 * n + 10, 2 * n + 21) == "_"@ + spec_color_name(card.color)
                + ".png"@
        }),
{
    reveal_strlit("card/");
    reveal_strlit("/");
    reveal_strlit("_");
    reveal_strlit(".png");
    reveal_strlit("diamond");
    reveal_strlit("oval");
    reveal_strlit("squiggle");
    reveal_strlit("1");
    reveal_strlit("2");
    reveal_strlit("3");
    reveal_strlit("E");
    reveal_strlit("D");
    reveal_strlit("F");
    reveal_strlit("oiblue");
    reveal_strlit("oigold");
    reveal_strlit("oipink");
    let path = spec_card_asset_path(card);
    let s = spec_shape_name(card.shape);
    let n = s.len() as int;
    let q = spec_quantity_name(card.quantity);
    let f = spec_fill_name(card.fill);
    let c = spec_color_name(card.color);
    assert(q.len() == 1 && f.len() == 1 && c.len() == 6);
    let head = "card/"@ + s + "/"@ + s + "_"@;
    assert(head.len() == 2 * n + 7);
    let tail = "_"@ + c + ".png"@;
    assert(path =~= head + q + "_"@ + f + tail);
    assert(path.subrange(5, 5 + n) =~= s);
    assert(path.subrange(2 * n + 10, 2 * n + 21) =~= tail);
}

/// The image path of a card names each of its aspects where it stands: the
/// shape as a directory and as the start of the file name (`diamond`, `oval`,
/// `squiggle`), then the quantity (`1`, `2`, `3`) and the fill (`E`, `D`, `F`),
/// each after an underscore.
pub proof fn lemma_card_asset_path_names(card: Card)
    ensures
        ({
            let path = spec_card_asset_path(card);
            &&& card.shape == Shape::Diamond ==> path.take(21) == "card/diamond/diamond_"@
            &&& card.shape == Shape::Oval ==> path.take(15) == "card/oval/oval_"@
            &&& card.shape == Shape::Squiggle ==> path.take(23) == "card/squiggle/squiggle_"@
            &&& card.quantity == Quantity::One ==> path[path.len() - 14] == '1'
            &&& card.quantity == Quantity::Two ==> path[path.len() - 14] == '2'
            &&& card.quantity == Quantity::Three ==> path[path.len() - 14] == '3'
            &&& card.fill == Fill::Empty ==> path[path.len() - 12] == 'E'
            &&& card.fill == Fill::Dashed ==> path[path.len() - 12] == 'D'
            &&& card.fill == Fill::Filled ==> path[path.len() - 12] == 'F'
        }),
{
    reveal_strlit("card/");
    reveal_strlit("/");
    reveal_strlit("_");
    reveal_strlit("diamond");
    reveal_strlit("oval");
    reveal_strlit("squiggle");
    reveal_strlit("card/diamond/diamond_");
    reveal_strlit("card/oval/oval_");
    reveal_strlit("card/squiggle/squiggle_");
    reveal_strlit("1");
    reveal_strlit("2");
    reveal_strlit("3");
    reveal_strlit("E");
    reveal_strlit("D");
    reveal_strlit("F");
    lemma_card_asset_path_parts(card);
    let path = spec_card_asset_path(card);
    let s = spec_shape_name(card.shape);
    let head = "card/"@ + s + "/"@ + s + "_"@;
    let rest = spec_quantity_name(card.quantity) + "_"@ + spec_fill_name(card.fill) + "_"@
        + spec_color_name(card.color) + ".png"@;
    assert(path =~= head + rest);
    assert(path.take(head.len() as int) =~= head);
    if card.shape == Shape::Diamond {
        assert(head =~= "card/diamond/diamond_"@);
    }
    if card.shape == Shape::Oval {
        assert(head =~= "card/oval/oval_"@);
    }
    if card.shape == Shape::Squiggle {
        assert(head =~= "card/squiggle/squiggle_"@);
    }
}

/// Every card has an image of its own: two different cards never share an
/// image path, and the path of a card ends with `_`, the name of its color
/// (`oiblue`, `oigold` or `oipink`) and `.png`.
pub proof fn lemma_card_asset_paths_distinct(card: Card, other: Card)
    ensures
        card != other ==> spec_card_asset_path(card) != spec_card_asset_path(other),
        card.color == Color::Blue ==> spec_card_asset_path(card).subrange(
            spec_card_asset_path(card).len() - 11,
            spec_card_asset_path(card).len() as int,
        ) == "_oiblue.png"@,
        card.color == Color::Gold ==> spec_card_asset_path(card).subrange(
            spec_card_asset_path(card).len() - 11,
            spec_card_asset_path(card).len() as int,
        ) == "_oigold.png"@,
        card.color == Color::Pink ==> spec_card_asset_path(card).subrange(
            spec_card_asset_path(card).len() - 11,
            spec_card_asset_path(card).len() as int,
        ) == "_oipink.png"@,
{
    reveal_strlit("_");
    reveal_strlit(".png");
    reveal_strlit("_oiblue.png");
    reveal_strlit("_oigold.png");
    reveal_strlit("_oipink.png");
    reveal_strlit("diamond");
    reveal_strlit("oval");
    reveal_strlit("squiggle");
    reveal_strlit("1");
    reveal_strlit("2");
    reveal_strlit("3");
    reveal_strlit("E");
    reveal_strlit("D");
    reveal_strlit("F");
    reveal_strlit("oiblue");
    reveal_strlit("oigold");
    reveal_strlit("oipink");
    lemma_card_asset_path_parts(card);
    lemma_card_asset_path_parts(other);
    let path = spec_card_asset_path(card);
    let n = spec_shape_name(card.shape).len() as int;
    assert(path.subrange(2 * n + 10, 2 * n + 21) =~= "_"@ + spec_color_name(card.color) + ".png"@);
    if card.color == Color::Blue {
        assert("_"@ + spec_color_name(card.color) + ".png"@ =~= "_oiblue.png"@);
    }
    if card.color == Color::Gold {
        assert("_"@ + spec_color_name(card.color) + ".png"@ =~= "_oigold.png"@);
    }
    if card.color == Color::Pink {
        assert("_"@ + spec_color_name(card.color) + ".png"@ =~= "_oipink.png"@);
    }
    if card != other && path == spec_card_asset_path(other) {
        let m = spec_shape_name(other.shape).len() as int;
        assert(n == m);
        assert(card.shape == other.shape);
        assert(card.quantity == other.quantity);
        assert(card.fill == other.fill);
        let cs = "_"@ + spec_color_name(card.color) + ".png"@;
        let os = "_"@ + spec_color_name(other.color) + ".png"@;
        assert(cs == os);
        assert(cs[1] == os[1] && cs[3] == os[3] && cs[4] == os[4]);
        assert(card.color == other.color);
    }
}

/// The character of the decimal digit `d`.
pub open spec fn digit_char(d: nat) -> char {
    (48 + d) as char
}

/// `n` written in decimal, without leading zeros.
pub open spec fn decimal(n: nat) -> Seq<char>
    decreases n,
{
    if n < 10 {
        seq![digit_char(n)]
    } else {
        decimal(n / 10).push(digit_char(n % 10))
    }
}

/// The character of a digit is that digit past `'0'`.
pub proof fn lemma_digit_char(d: nat)
    requires
        d < 10,
    ensures
        digit_char(d) as int == ('0' as int) + d,
        '0' <= digit_char(d) <= '9',
{
    assert(('0' as int) == 48);
    assert(('9' as int) == 57);
    assert(((48 + d) as char) as int == 48 + d);
}

/// The number that a string of decimal digits reads as.
pub open spec fn digits_value(digits: Seq<char>) -> int
    decreases digits.len(),
{
    if digits.len() == 0 {
        0
    } else {
        digits_value(digits.drop_last()) * 10 + ((digits.last() as int) - ('0' as int))
    }
}

/// `n` in decimal is a string of digits, without a leading zero unless `n` is
/// zero, that reads back as `n`.
pub proof fn lemma_decimal_reads_back(n: nat)
    ensures
        decimal(n).len() >= 1,
        forall|i: int| 0 <= i < decimal(n).len() ==> '0' <= #[trigger] decimal(n)[i] <= '9',
        digits_value(decimal(n)) == n,
        decimal(n).len() > 1 ==> decimal(n)[0] != '0',
    decreases n,
{
    if n < 10 {
        lemma_digit_char(n);
        assert(decimal(n) == seq![digit_char(n)]);
        assert(decimal(n).drop_last() =~= Seq::<char>::empty());
        assert(digits_value(decimal(n).drop_last()) == 0);
        assert(digits_value(decimal(n)) == digits_value(decimal(n).drop_last()) * 10 + ((
        decimal(n).last() as int) - ('0' as int)));
    } else {
        lemma_digit_char(n % 10);
        lemma_decimal_reads_back(n / 10);
        let d = decimal(n);
        assert(d == decimal(n / 10).push(digit_char(n % 10)));
        assert(d.drop_last() =~= decimal(n / 10));
        assert(d[0] == decimal(n / 10)[0]);
        assert(forall|i: int| 0 <= i < d.len() - 1 ==> d[i] == decimal(n / 10)[i]);
        assert(d.last() == digit_char(n % 10));
        assert(digits_value(d) == digits_value(d.drop_last()) * 10 + ((d.last() as int) - ('0'
            as int)));
        assert((n / 10) * 10 + n % 10 == n);
        if decimal(n / 10).len() == 1 {
            assert(decimal(n / 10)[0] != '0') by {
                assert(decimal(n / 10).drop_last() =~= Seq::<char>::empty());
                assert(digits_value(decimal(n / 10).drop_last()) == 0);
            }
        }
    }
}

/// The decimal digit `d` as a string.
fn digit_str(d: usize) -> (digit: &'static str)
    requires
        d < 10,
    ensures
        digit@ == seq![digit_char(d as nat)],
{
    proof {
        reveal_strlit("0");
        reveal_strlit("1");
        reveal_strlit("2");
        reveal_strlit("3");
        reveal_strlit("4");
        reveal_strlit("5");
        reveal_strlit("6");
        reveal_strlit("7");
        reveal_strlit("8");
        reveal_strlit("9");
    }
    match d {
        0 => "0",
        1 => "1",
        2 => "2",
        3 => "3",
        4 => "4",
        5 => "5",
        6 => "6",
        7 => "7",
        8 => "8",
        _ => "9",
    }
}

/// `n` written in decimal.
pub fn decimal_string(n: u64) -> (text: String)
    ensures
        text@ == decimal(n as nat),
    decreases n,
{
    if n < 10 {
        String::from_str(digit_str(n as usize))
    } else {
        let mut text = decimal_string(n / 10);
        text.append(digit_str((n % 10) as usize));
        text
    }
}

/// A number below ten has one digit, one below a hundred two, and a larger one
/// at least three.
pub proof fn lemma_decimal_len(n: nat)
    ensures
        n < 10 ==> decimal(n).len() == 1,
        10 <= n < 100 ==> decimal(n).len() == 2,
        100 <= n ==> decimal(n).len() >= 3,
    decreases n,
{
    reveal_with_fuel(decimal, 3);
    if n >= 100 {
        lemma_decimal_len(n / 10);
    }
}

/// The path of the score image for `score` found sets: `score/{score}_of_6.png`.
pub fn score_image_path(score: usize) -> (path: String)
    ensures
        path@ == "score/"@ + decimal(score as nat) + "_of_6.png"@,
{
    let mut path = String::from_str("score/");
    let digits = decimal_string(score as u64);
    path.append(digits.as_str());
    path.append("_of_6.png");
    path
}

/// The short time that the game-over section shows: minutes and seconds of
/// two digits at least, `mm:ss`.
pub open spec fn spec_short_time(elapsed: GameDuration) -> Seq<char> {
    zero_padded(decimal((elapsed.secs / 60) as nat), 2) + ":"@ + zero_padded(
        decimal((elapsed.secs % 60) as nat),
        2,
    )
}

/// The text of the game-over section: hidden (`None`) until all six sets are
/// found, then the short time of the game.
pub fn game_over_text(game: &CurrentGame) -> (text: Option<String>)
    ensures
        game.found_sets@.len() < 6 <==> text is None,
        text matches Some(t) ==> t@ == spec_short_time(game.elapsed),
{
    if game.found_sets.len() < 6 {
        return None;
    }
    proof {
        reveal_strlit(":");
    }
    let (mins, secs) = minutes_and_seconds(&game.elapsed);
    let mut text = padded_decimal(mins, 2);
    text.append(":");
    let seconds = padded_decimal(secs, 2);
    text.append(seconds.as_str());
    Some(text)
}

} // verus!
