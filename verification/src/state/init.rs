//! The first way of generating the board of the day: a random set, a fourth
//! card, then cards that either complete a pair on the board or are random.
use vstd::prelude::*;

use crate::rng::{
    is_seed_of, pcg32_bool, pcg32_i32_inclusive, random_bool, random_usize_below, shuffle_cards,
    words_to_seed, Draw, SeededRng,
};
use crate::state::board_proofs::{
    board_valid, building_inv, entry_valid, lemma_add_card, lemma_building_inv_one_set,
    lemma_building_inv_permuted, lemma_no_new_sets, lemma_pairs_unique_no_duplicates,
};
use crate::state::dealing::{
    add_completing_card_from_back, after_draws, completing_choice, deal_first_way_unshuffled,
    deal_first_way_until_six_sets, dealt_board_first_way, first_set_dealt, four_cards_dealt,
    pad_to_twelve, picked_card, redraw_until_new, spec_remove_completed_from_back,
};
use crate::state::game_board::{
    add_new_almost_complete_sets_with_new_card, card_array, complete_set_with_card,
    completes_some_entry, contains_card, dealing_of, get_new_sets, lemma_sort3_facts,
    lemma_swap_remove_count, pad_one, set_array, set_from_aspects, sort_set, GameBoard,
    MAX_REJECTED_DRAWS,
};
use crate::state::{
    aspect_draws, day_word, is_set, spec_sample_card, Card, Color, Fill, Quantity, Shape,
};

verus! {

/// The draws of `n` coins made after `draws`.
pub open spec fn coin_draws(draws: Seq<Draw>, n: nat) -> Seq<Draw>
    decreases n,
{
    if n == 0 {
        draws
    } else {
        coin_draws(draws, (n - 1) as nat).push(Draw::Bool)
    }
}

/// Four coins drawn after `draws`: per aspect, whether it stays the same.
pub open spec fn four_coins(seed: [u8; 16], draws: Seq<Draw>) -> Seq<bool> {
    seq![
        pcg32_bool(seed, coin_draws(draws, 0)),
        pcg32_bool(seed, coin_draws(draws, 1)),
        pcg32_bool(seed, coin_draws(draws, 2)),
        pcg32_bool(seed, coin_draws(draws, 3)),
    ]
}

/// Whether all four aspects stay the same.
pub open spec fn all_same(same: Seq<bool>) -> bool {
    same[0] && same[1] && same[2] && same[3]
}

/// The aspects that the redrawing gives, and the draws after it: while all four
/// stay the same and redraws are `left`, four coins are drawn again.
pub open spec fn redrawn_coins(seed: [u8; 16], draws: Seq<Draw>, same: Seq<bool>, left: nat) -> (Seq<
    bool,
>, Seq<Draw>)
    decreases left,
{
    if all_same(same) && left > 0 {
        redrawn_coins(seed, coin_draws(draws, 4), four_coins(seed, draws), (left - 1) as nat)
    } else {
        (same, draws)
    }
}

/// What `draw_same_aspects_until_different` gives from a generator seeded with
/// `seed` after `draws`, and the draws after it.
pub open spec fn spec_draw_same_aspects_until_different(seed: [u8; 16], draws: Seq<Draw>) -> (Seq<
    bool,
>, Seq<Draw>) {
    let redrawn = redrawn_coins(seed, draws, seq![true, true, true, true], MAX_REJECTED_DRAWS as nat);
    if all_same(redrawn.0) {
        (redrawn.0.update(0, false), redrawn.1)
    } else {
        redrawn
    }
}

/// Draws, per aspect, whether the second and third cards of a set keep the
/// first card's value, until not all four aspects stay the same. Should all
/// `MAX_REJECTED_DRAWS` redraws keep all four, the shape is made to differ.
fn draw_same_aspects_until_different(rng: &mut SeededRng) -> (same: [bool; 4])
    ensures
        same@ == spec_draw_same_aspects_until_different(old(rng).seed(), old(rng).draws()).0,
        final(rng).seed() == old(rng).seed(),
        final(rng).draws() == spec_draw_same_aspects_until_different(
            old(rng).seed(),
            old(rng).draws(),
        ).1,
        !(same[0] && same[1] && same[2] && same[3]),
{
    let ghost seed = rng.seed();
    let ghost start = rng.draws();
    let (mut same_shape, mut same_quantity, mut same_fill, mut same_color) = (
        true,
        true,
        true,
        true,
    );
    let mut draws_left: u64 = MAX_REJECTED_DRAWS;
    proof {
        assert(seq![true, true, true, true] =~= seq![same_shape, same_quantity, same_fill, same_color]);
    }
    // The set cannot be one where all of its qualities are equal.
    while same_shape && same_quantity && same_fill && same_color && draws_left > 0
        invariant
            rng.seed() == seed,
            redrawn_coins(
                seed,
                rng.draws(),
                seq![same_shape, same_quantity, same_fill, same_color],
                draws_left as nat,
            ) == redrawn_coins(seed, start, seq![true, true, true, true], MAX_REJECTED_DRAWS as nat),
        decreases draws_left,
    {
        let ghost before = rng.draws();
        proof {
            reveal_with_fuel(coin_draws, 5);
        }
        draws_left -= 1;
        same_shape = random_bool(rng);
        same_quantity = random_bool(rng);
        same_fill = random_bool(rng);
        same_color = random_bool(rng);
        proof {
            assert(four_coins(seed, before) =~= seq![same_shape, same_quantity, same_fill, same_color]);
        }
    }
    let ghost redrawn = seq![same_shape, same_quantity, same_fill, same_color];
    if same_shape && same_quantity && same_fill && same_color {
        same_shape = false;
    }
    let same = [same_shape, same_quantity, same_fill, same_color];
    proof {
        if all_same(redrawn) {
            assert(same@ =~= redrawn.update(0, false));
        } else {
            assert(same@ =~= redrawn);
        }
    }
    same
}

/// The set that `generate_set_with_card` draws with `card` from a generator
/// seeded with `seed` after `draws`, and the draws after it: which aspects stay
/// the same, then the other values of the aspects that do not, in the order
/// shape, quantity, fill, color.
pub open spec fn spec_set_with_card(seed: [u8; 16], draws: Seq<Draw>, card: Card) -> (Seq<Card>, Seq<Draw>) {
    let same = spec_draw_same_aspects_until_different(seed, draws);
    set_from_aspects(seed, same.1, card, same.0)
}

/// The set that `generate_set` draws, and the draws after it: a card, then a
/// set with it.
pub open spec fn spec_generate_set(seed: [u8; 16], draws: Seq<Draw>) -> (Seq<Card>, Seq<Draw>) {
    spec_set_with_card(seed, aspect_draws(draws, 4), spec_sample_card(seed, draws))
}

/// Randomly generates a Set of cards containing the provided `card`: each aspect
/// stays the same with an even chance, redrawn until some aspect differs. The
/// set starts with `card`.
pub fn generate_set_with_card(rng: &mut SeededRng, card: Card) -> (set: [Card; 3])
    ensures
        set[0] == card,
        is_set(set[0], set[1], set[2]),
        (set[1].shape == card.shape) == spec_draw_same_aspects_until_different(
            old(rng).seed(),
            old(rng).draws(),
        ).0[0],
        (set[1].quantity == card.quantity) == spec_draw_same_aspects_until_different(
            old(rng).seed(),
            old(rng).draws(),
        ).0[1],
        (set[1].fill == card.fill) == spec_draw_same_aspects_until_different(
            old(rng).seed(),
            old(rng).draws(),
        ).0[2],
        (set[1].color == card.color) == spec_draw_same_aspects_until_different(
            old(rng).seed(),
            old(rng).draws(),
        ).0[3],
        set@ == spec_set_with_card(old(rng).seed(), old(rng).draws(), card).0,
        final(rng).seed() == old(rng).seed(),
        final(rng).draws() == spec_set_with_card(old(rng).seed(), old(rng).draws(), card).1,
{
    let same = draw_same_aspects_until_different(rng);
    // For each aspect, the cards have to either be all the same or all different in that given aspect.
    let shapes = if same[0] {
        (card.shape, card.shape)
    } else {
        Shape::sample_std_uniform_excluding(rng, card.shape)
    };
    let quantities = if same[1] {
        (card.quantity, card.quantity)
    } else {
        Quantity::sample_std_uniform_excluding(rng, card.quantity)
    };
    let fills = if same[2] {
        (card.fill, card.fill)
    } else {
        Fill::sample_std_uniform_excluding(rng, card.fill)
    };
    let colors = if same[3] {
        (card.color, card.color)
    } else {
        Color::sample_std_uniform_excluding(rng, card.color)
    };
    let set = complete_set_with_card(card, same, shapes, quantities, fills, colors);
    assert(set@ =~= spec_set_with_card(old(rng).seed(), old(rng).draws(), card).0);
    set
}

/// Randomly generates a Set of cards.
pub fn generate_set(rng: &mut SeededRng) -> (set: [Card; 3])
    ensures
        set[0] == spec_sample_card(old(rng).seed(), old(rng).draws()),
        is_set(set[0], set[1], set[2]),
        set@ == spec_generate_set(old(rng).seed(), old(rng).draws()).0,
        final(rng).seed() == old(rng).seed(),
        final(rng).draws() == spec_generate_set(old(rng).seed(), old(rng).draws()).1,
{
    // The first card is randomly generated.
    let card = Card::sample(rng);
    generate_set_with_card(rng, card)
}

/// Removes the pairs that `new_card` completes, from the last one down: each
/// removed pair takes the last pair into its place. Every pair whose third card
/// is `new_card` goes, and every other pair stays as often as it was there.
fn remove_completed_sets_from_back(almost_complete_sets: &mut Vec<([Card; 2], Card)>, new_card: &Card)
    ensures
        final(almost_complete_sets)@ == spec_remove_completed_from_back(
            old(almost_complete_sets)@,
            *new_card,
            old(almost_complete_sets)@.len(),
        ),
        forall|entry: ([Card; 2], Card)|
            #[trigger] final(almost_complete_sets)@.to_multiset().count(entry) == (if entry.1
                == *new_card {
                0
            } else {
                old(almost_complete_sets)@.to_multiset().count(entry)
            }),
        old(almost_complete_sets)@.no_duplicates() ==> final(almost_complete_sets)@.no_duplicates(),
        forall|entry: ([Card; 2], Card)|
            #[trigger] final(almost_complete_sets)@.contains(entry) <==> (old(
                almost_complete_sets,
            )@.contains(entry) && entry.1 != *new_card),
{
    broadcast use vstd::seq_lib::group_to_multiset_ensures;

    let ghost entries = almost_complete_sets@;
    let mut j: usize = almost_complete_sets.len();
    while j > 0
        invariant
            j <= almost_complete_sets@.len(),
            forall|k: int|
                j <= k < almost_complete_sets@.len() ==> (#[trigger] almost_complete_sets@[k]).1
                    != *new_card,
            forall|entry: ([Card; 2], Card)|
                entry.1 != *new_card ==> #[trigger] almost_complete_sets@.to_multiset().count(entry)
                    == entries.to_multiset().count(entry),
            forall|entry: ([Card; 2], Card)|
                #[trigger] almost_complete_sets@.to_multiset().count(entry)
                    <= entries.to_multiset().count(entry),
            spec_remove_completed_from_back(almost_complete_sets@, *new_card, j as nat)
                == spec_remove_completed_from_back(entries, *new_card, entries.len()),
        decreases j,
    {
        if almost_complete_sets[j - 1].1 == *new_card {
            let ghost before = almost_complete_sets@;
            proof {
                lemma_swap_remove_count(before, j - 1);
            }
            almost_complete_sets.swap_remove(j - 1);
        }
        j -= 1;
    }
    let ghost result = almost_complete_sets@;
    assert forall|entry: ([Card; 2], Card)|
        #[trigger] result.to_multiset().count(entry) == (if entry.1 == *new_card {
            0
        } else {
            entries.to_multiset().count(entry)
        }) by {
        if entry.1 == *new_card && result.to_multiset().count(entry) > 0 {
            assert(result.contains(entry));
            let k = choose|k: int| 0 <= k < result.len() && result[k] == entry;
            assert(result[k].1 != *new_card);
        }
    }
    assert forall|entry: ([Card; 2], Card)|
        #[trigger] result.contains(entry) <==> (entries.contains(entry) && entry.1 != *new_card) by {
        assert(result.contains(entry) <==> result.to_multiset().count(entry) > 0);
        assert(entries.contains(entry) <==> entries.to_multiset().count(entry) > 0);
    }
    proof {
        if entries.no_duplicates() {
            entries.lemma_multiset_has_no_duplicates();
            assert forall|x: ([Card; 2], Card)|
                result.to_multiset().contains(x) implies result.to_multiset().count(x) == 1 by {
                assert(entries.to_multiset().count(x) == 1);
            }
            result.lemma_multiset_has_no_duplicates_conv();
        }
    }
}

/// Adds a card in the first way while the board has fewer than six sets, or
/// turns it down. `false` comes back where `deal_first_way_until_six_sets`
/// gives `None`.
#[verifier::loop_isolation(false)]
fn deal_first_way_round(
    rng: &mut SeededRng,
    cards: &mut Vec<Card>,
    sets: &mut Vec<[Card; 3]>,
    almost_complete_sets: &mut Vec<([Card; 2], Card)>,
    draws_left: &mut u64,
) -> (dealt: bool)
    requires
        1 <= old(cards)@.len() <= 12,
        old(cards)@.len() + 6 <= 12 + old(sets)@.len(),
        old(sets)@.len() < 6,
        building_inv(old(cards)@, old(sets)@, old(almost_complete_sets)@),
    ensures
        final(rng).seed() == old(rng).seed(),
        dealt ==> 1 <= final(cards)@.len() <= 12,
        dealt ==> final(cards)@.len() + 6 <= 12 + final(sets)@.len(),
        dealt ==> building_inv(final(cards)@, final(sets)@, final(almost_complete_sets)@),
        dealt ==> final(cards)@.len() > old(cards)@.len() || (final(cards)@.len() == old(
            cards,
        )@.len() && *final(draws_left) < *old(draws_left)),
        dealt ==> deal_first_way_until_six_sets(
            old(rng).seed(),
            dealing_of(final(cards), final(sets), final(almost_complete_sets), final(rng), *final(draws_left)),
        ) == deal_first_way_until_six_sets(
            old(rng).seed(),
            dealing_of(old(cards), old(sets), old(almost_complete_sets), old(rng), *old(draws_left)),
        ),
        !dealt ==> deal_first_way_until_six_sets(
            old(rng).seed(),
            dealing_of(old(cards), old(sets), old(almost_complete_sets), old(rng), *old(draws_left)),
        ) is None,
{
    let ghost seed = rng.seed();
    let ghost st = dealing_of(cards, sets, almost_complete_sets, rng, *draws_left);
    let must_create_set = 12 - cards.len() == 6 - sets.len();
    let complete_a_set = if must_create_set {
        true
    } else {
        random_bool(rng)
    };
    let ghost choice = (complete_a_set, rng.draws());
    assert(completing_choice(seed, st) == choice);
    let new_card = if complete_a_set {
        // The number of cards left to add is equal to the number of sets we have to create.
        // Or, we randomly decided to add a card that completes a set.
        if almost_complete_sets.len() == 0 {
            return false;
        }
        let index = random_usize_below(rng, 0, almost_complete_sets.len());
        proof {
            assert(entry_valid(cards@, almost_complete_sets@[index as int]));
        }
        almost_complete_sets[index].1
    } else {
        // Add any random card. It most likely will not complete a set.
        // If it does, it is not a problem!
        let mut card = cards[0];
        let mut tries: u64 = MAX_REJECTED_DRAWS;
        while contains_card(cards, &card)
            invariant
                rng.seed() == seed,
                cards@ == st.cards,
                redraw_until_new(seed, st.cards, rng.draws(), tries as nat, card) == redraw_until_new(
                    seed,
                    st.cards,
                    choice.1,
                    MAX_REJECTED_DRAWS as nat,
                    st.cards[0],
                ),
            decreases tries,
        {
            if tries == 0 {
                return false;
            }
            tries -= 1;
            card = Card::sample(rng);
        }
        card
    };
    assert(picked_card(seed, st, choice) == Some((new_card, rng.draws())));

    // Gather the new set(s) that this new_card completes.
    let mut new_sets = get_new_sets(&new_card, sets, almost_complete_sets);

    if new_sets.len() > 6 - sets.len() || (must_create_set && new_sets.len() == 0) {
        // re-roll. This card either completes more sets than we need or
        // does not complete a set we need.
        if *draws_left == 0 {
            return false;
        }
        *draws_left = *draws_left - 1;
        assert(dealing_of(cards, sets, almost_complete_sets, rng, *draws_left) == after_draws(
            st,
            rng.draws(),
            (st.left - 1) as nat,
        ));
        return true;
    }
    let ghost cards_before = cards@;
    let ghost sets_before = sets@;
    let ghost entries_before = almost_complete_sets@;
    proof {
        lemma_pairs_unique_no_duplicates(almost_complete_sets@);
    }
    // Update almost_complete_sets:
    // - Remove the sets that we just completed.
    // - Add the new combinations of cards that can be made with the new card.
    remove_completed_sets_from_back(almost_complete_sets, &new_card);
    let ghost remaining = almost_complete_sets@;
    add_new_almost_complete_sets_with_new_card(almost_complete_sets, &new_card, cards, &new_sets);
    // Update cards and sets with the new additions.
    cards.push(new_card);
    sets.append(&mut new_sets);
    proof {
        lemma_add_card(cards_before, sets_before, entries_before, new_card, remaining);
        assert(dealing_of(cards, sets, almost_complete_sets, rng, *draws_left)
            == add_completing_card_from_back(after_draws(st, rng.draws(), st.left), new_card));
    }
    true
}

/// Generates the cards and the answer key of a board from `seed`: a random set
/// first, then a fourth card, then cards that complete a pair on the board or
/// random cards, and last random cards that complete nothing. The board has
/// twelve cards and exactly six sets. What comes back is
/// `dealt_board_first_way(seed)`: one seed always deals one board.
///
/// `None` comes back where a loop redrew `MAX_REJECTED_DRAWS` times in a row,
/// or cards were turned down that many times in all, and where a card must be
/// picked among the pairs on the board while there is none, as there is no pair
/// to pick from then.
#[verifier::loop_isolation(false)]
pub fn initialize_cards(seed: [u8; 16]) -> (board: Option<([Card; 12], [[Card; 3]; 6])>)
    ensures
        board is Some <==> dealt_board_first_way(seed) is Some,
        board matches Some(b) ==> dealt_board_first_way(seed) == Some((b.0@, b.1@)),
        board matches Some(b) ==> board_valid(b.0@, b.1@),
{
    let mut rng = SeededRng::from_seed(seed);
    let mut draws_left: u64 = MAX_REJECTED_DRAWS;
    let mut cards: Vec<Card> = Vec::new();
    let mut sets: Vec<[Card; 3]> = Vec::new();

    // Randomly generate the first set.
    let drawn_set = generate_set(&mut rng);
    // Sets must be sorted before they are pushed so that sets.contains() works correctly.
    let first_set = sort_set(drawn_set);
    proof {
        lemma_sort3_facts(drawn_set[0], drawn_set[1], drawn_set[2]);
    }
    sets.push(first_set);
    cards.push(first_set[0]);
    cards.push(first_set[1]);
    cards.push(first_set[2]);
    let mut almost_complete_sets: Vec<([Card; 2], Card)> = Vec::new();
    proof {
        lemma_building_inv_one_set(first_set);
        assert(cards@ =~= seq![first_set[0], first_set[1], first_set[2]]);
        assert(sets@ =~= seq![first_set]);
        assert(almost_complete_sets@ =~= Seq::<([Card; 2], Card)>::empty());
        assert(dealing_of(&cards, &sets, &almost_complete_sets, &rng, draws_left)
            == first_set_dealt(seed));
    }
    let ghost st = first_set_dealt(seed);

    // Add a random fourth card and set up potential sets that can be created.
    let mut fourth_card = first_set[0];
    let mut tries: u64 = MAX_REJECTED_DRAWS;
    while contains_card(&cards, &fourth_card)
        invariant
            rng.seed() == seed,
            cards@ == st.cards,
            redraw_until_new(seed, st.cards, rng.draws(), tries as nat, fourth_card)
                == redraw_until_new(seed, st.cards, st.draws, MAX_REJECTED_DRAWS as nat, st.cards[0]),
        decreases tries,
    {
        if tries == 0 {
            return None;
        }
        tries -= 1;
        fourth_card = Card::sample(&mut rng);
    }
    let ghost cards_of_set = cards@;
    let ghost first_sets = sets@;
    let ghost no_entries = almost_complete_sets@;
    let no_sets: Vec<[Card; 3]> = Vec::new();
    proof {
        lemma_no_new_sets(almost_complete_sets@, fourth_card, sets@);
        assert(no_sets@ =~= Seq::<[Card; 3]>::empty());
    }
    add_new_almost_complete_sets_with_new_card(
        &mut almost_complete_sets,
        &fourth_card,
        &cards,
        &no_sets,
    );
    cards.push(fourth_card);
    proof {
        lemma_add_card(cards_of_set, first_sets, no_entries, fourth_card, no_entries);
        assert(first_sets + Seq::<[Card; 3]>::empty() =~= first_sets);
    }
    let ghost four = dealing_of(&cards, &sets, &almost_complete_sets, &rng, draws_left);
    assert(four_cards_dealt(seed) == Some(four));

    while sets.len() < 6
        invariant
            1 <= cards@.len() <= 12,
            cards@.len() + 6 <= 12 + sets@.len(),
            building_inv(cards@, sets@, almost_complete_sets@),
            rng.seed() == seed,
            deal_first_way_until_six_sets(
                seed,
                dealing_of(&cards, &sets, &almost_complete_sets, &rng, draws_left),
            ) == deal_first_way_until_six_sets(seed, four),
        decreases 12 - cards@.len(), draws_left,
    {
        if !deal_first_way_round(
            &mut rng,
            &mut cards,
            &mut sets,
            &mut almost_complete_sets,
            &mut draws_left,
        ) {
            return None;
        }
    }
    let ghost six_sets = dealing_of(&cards, &sets, &almost_complete_sets, &rng, draws_left);
    assert(deal_first_way_until_six_sets(seed, four) == Some(six_sets));

    // The while loop ensures that we will have 6 sets by this point, but
    // it will not ensure that we have enough cards.
    // Have to pad with new cards that are:
    // - Not duplicates
    // - Won't complete any set inadvertently
    while cards.len() < 12
        invariant
            cards@.len() <= 12,
            building_inv(cards@, sets@, almost_complete_sets@),
            rng.seed() == seed,
            pad_to_twelve(seed, dealing_of(&cards, &sets, &almost_complete_sets, &rng, draws_left))
                == pad_to_twelve(seed, six_sets),
        decreases 12 - cards@.len(), draws_left,
    {
        if !pad_one(&mut rng, &mut cards, &sets, &mut almost_complete_sets, &mut draws_left) {
            return None;
        }
    }
    let ghost unshuffled = dealing_of(&cards, &sets, &almost_complete_sets, &rng, draws_left);
    assert(pad_to_twelve(seed, six_sets) == Some(unshuffled));
    assert(deal_first_way_unshuffled(seed) == Some(unshuffled));
    shuffle_cards(&mut cards, &mut rng);
    proof {
        lemma_building_inv_permuted(unshuffled.cards, cards@, sets@, almost_complete_sets@);
    }
    if cards.len() != 12 || sets.len() != 6 {
        return None;
    }
    Some((card_array(&cards), set_array(&sets)))
}

/// Initializes the game board with this way of generating it.
///
/// The game changes seeds every day: the seed is made of the year and the day
/// of the year, the latter shifted left by one bit since Pcg32 drops the last
/// bit from the seed (`seed_words`). The words become the seed's bytes in the
/// machine's byte order, and the board is the one that seed deals.
pub fn initialize_game_board(date: String, year: u64, day_of_year: u64) -> (board: Option<
    GameBoard,
>)
    ensures
        exists|seed: [u8; 16]|
            is_seed_of(seed, year, day_word(day_of_year)) && (board is Some
                <==> #[trigger] dealt_board_first_way(seed) is Some) && (board matches Some(b)
                ==> dealt_board_first_way(seed) == Some((b.spec_cards(), b.spec_sets()))),
        board matches Some(b) ==> b.wf() && b.spec_date() == date@,
{
    let seed = words_to_seed(crate::state::seed_words(year, day_of_year));
    let board = match initialize_cards(seed) {
        Some((cards, sets)) => Some(GameBoard::from_parts(cards, sets, date)),
        None => None,
    };
    assert(is_seed_of(seed, year, day_word(day_of_year)) && (board is Some
        <==> dealt_board_first_way(seed) is Some) && (board matches Some(b)
        ==> dealt_board_first_way(seed) == Some((b.spec_cards(), b.spec_sets()))));
    board
}

/// Whether this way deals a board, and which, depends on the seed alone: two
/// boards dealt from one seed hold the same cards in the same order and the
/// same answer key.
pub proof fn lemma_one_seed_one_board_first_way(seed: [u8; 16], first: GameBoard, second: GameBoard)
    requires
        dealt_board_first_way(seed) == Some((first.spec_cards(), first.spec_sets())),
        dealt_board_first_way(seed) == Some((second.spec_cards(), second.spec_sets())),
    ensures
        first.spec_cards() == second.spec_cards(),
        first.spec_sets() == second.spec_sets(),
{
}

} // verus!
