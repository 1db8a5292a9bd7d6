//! What `game_board::initialize_cards` and `init::initialize_cards` deal from a
//! seed, draw by draw: the cards, the answer key and the pairs waiting for a
//! third card, as a function of the seed alone.
use vstd::prelude::*;

use crate::rng::{pcg32_bool, pcg32_ratio, pcg32_shuffle, pcg32_usize_below, Draw};
use crate::state::game_board::{
    spec_entries_with_aspects, spec_new_sets, spec_num_all_different_aspects, spec_num_aspects,
    spec_other_cards, spec_pairs_with, spec_remove_completed, MAX_REJECTED_DRAWS,
};
use crate::state::game_board::sort3;
use crate::state::init::spec_generate_set;
use crate::state::{aspect_draws, spec_sample_card, Card};

verus! {

/// The state of a board being dealt: its cards, its sets, the pairs on it with
/// the card that would complete each, the draws made so far, and how many
/// rejected draws the running stage may still make.
pub struct Dealing {
    pub cards: Seq<Card>,
    pub sets: Seq<[Card; 3]>,
    pub entries: Seq<([Card; 2], Card)>,
    pub draws: Seq<Draw>,
    pub left: nat,
}

/// The state made of these parts.
pub open spec fn dealing(
    cards: Seq<Card>,
    sets: Seq<[Card; 3]>,
    entries: Seq<([Card; 2], Card)>,
    draws: Seq<Draw>,
    left: nat,
) -> Dealing {
    Dealing { cards, sets, entries, draws, left }
}

/// The same state, after the draws `draws`, with `left` rejected draws left.
pub open spec fn after_draws(st: Dealing, draws: Seq<Draw>, left: nat) -> Dealing {
    Dealing { cards: st.cards, sets: st.sets, entries: st.entries, draws, left }
}

/// The state once `card` is added: the sets it completes join the answer key,
/// the pairs it completes leave, and it forms a pair with every card outside
/// those sets.
pub open spec fn add_completing_card(st: Dealing, card: Card) -> Dealing {
    let new_sets = spec_new_sets(st.entries, card, st.sets);
    Dealing {
        cards: st.cards.push(card),
        sets: st.sets + new_sets,
        entries: spec_remove_completed(st.entries, card, 0) + spec_pairs_with(
            card,
            spec_other_cards(st.cards, new_sets),
        ),
        draws: st.draws,
        left: st.left,
    }
}

/// The entries left by removing, from index `j - 1` down to the first, every
/// entry completed by `card`: each removed entry takes the last one into its
/// place, which was looked at already and stays.
pub open spec fn spec_remove_completed_from_back(
    entries: Seq<([Card; 2], Card)>,
    card: Card,
    j: nat,
) -> Seq<([Card; 2], Card)>
    decreases j,
{
    if j == 0 || j > entries.len() {
        entries
    } else if entries[j - 1].1 == card {
        spec_remove_completed_from_back(
            entries.update(j - 1, entries.last()).drop_last(),
            card,
            (j - 1) as nat,
        )
    } else {
        spec_remove_completed_from_back(entries, card, (j - 1) as nat)
    }
}

/// The state once `card` is added in the first way: as `add_completing_card`
/// does, but the completed pairs are removed from the last one down.
pub open spec fn add_completing_card_from_back(st: Dealing, card: Card) -> Dealing {
    let new_sets = spec_new_sets(st.entries, card, st.sets);
    Dealing {
        cards: st.cards.push(card),
        sets: st.sets + new_sets,
        entries: spec_remove_completed_from_back(st.entries, card, st.entries.len()) + spec_pairs_with(
            card,
            spec_other_cards(st.cards, new_sets),
        ),
        draws: st.draws,
        left: st.left,
    }
}

/// The state once `card`, which completes nothing, is added: it forms a pair
/// with every card.
pub open spec fn add_free_card(st: Dealing, card: Card) -> Dealing {
    Dealing {
        cards: st.cards.push(card),
        sets: st.sets,
        entries: st.entries + spec_pairs_with(card, spec_other_cards(st.cards, Seq::empty())),
        draws: st.draws,
        left: st.left,
    }
}

/// Some pair would complete a set with `count` aspects all different.
pub open spec fn has_aspects(entries: Seq<([Card; 2], Card)>, count: usize) -> bool {
    exists|i: int|
        0 <= i < entries.len() && spec_num_all_different_aspects(
            (#[trigger] entries[i]).0,
            entries[i].1,
        ) == count
}

/// `card` completes some pair.
pub open spec fn completes_some(entries: Seq<([Card; 2], Card)>, card: Card) -> bool {
    exists|i: int| 0 <= i < entries.len() && (#[trigger] entries[i]).1 == card
}

/// Redraws a card while it is among `cards`, at most `left` times: the card, the
/// draws after it and the redraws left, or `None` when none are left.
pub open spec fn redraw_until_new(
    seed: [u8; 16],
    cards: Seq<Card>,
    draws: Seq<Draw>,
    left: nat,
    card: Card,
) -> Option<(Card, Seq<Draw>, nat)>
    decreases left,
{
    if !cards.contains(card) {
        Some((card, draws, left))
    } else if left == 0 {
        None
    } else {
        redraw_until_new(
            seed,
            cards,
            aspect_draws(draws, 4),
            (left - 1) as nat,
            spec_sample_card(seed, draws),
        )
    }
}

/// Redraws a card while it is among `cards` or completes a pair, at most `left`
/// times.
pub open spec fn redraw_until_free(
    seed: [u8; 16],
    cards: Seq<Card>,
    entries: Seq<([Card; 2], Card)>,
    draws: Seq<Draw>,
    left: nat,
    card: Card,
) -> Option<(Card, Seq<Draw>, nat)>
    decreases left,
{
    if !cards.contains(card) && !completes_some(entries, card) {
        Some((card, draws, left))
    } else if left == 0 {
        None
    } else {
        redraw_until_free(
            seed,
            cards,
            entries,
            aspect_draws(draws, 4),
            (left - 1) as nat,
            spec_sample_card(seed, draws),
        )
    }
}

/// The draws that pick how many aspects differ: a ratio of two in three, then a coin.
pub open spec fn aspect_count_draws(draws: Seq<Draw>) -> Seq<Draw> {
    draws.push(Draw::Ratio(2, 3)).push(Draw::Bool)
}

/// The number of aspects all different that those draws pick.
pub open spec fn drawn_aspect_count(seed: [u8; 16], draws: Seq<Draw>) -> usize {
    spec_num_aspects(
        pcg32_ratio(seed, draws, 2, 3),
        pcg32_bool(seed, draws.push(Draw::Ratio(2, 3))),
    )
}

/// Redraws the number of aspects all different while no pair would complete a
/// set with that many, at most `left` times.
pub open spec fn redraw_until_present(
    seed: [u8; 16],
    entries: Seq<([Card; 2], Card)>,
    draws: Seq<Draw>,
    left: nat,
    count: usize,
) -> Option<(usize, Seq<Draw>, nat)>
    decreases left,
{
    if has_aspects(entries, count) {
        Some((count, draws, left))
    } else if left == 0 {
        None
    } else {
        redraw_until_present(
            seed,
            entries,
            aspect_count_draws(draws),
            (left - 1) as nat,
            drawn_aspect_count(seed, draws),
        )
    }
}

/// The first six cards: each new card is redrawn until it is not on the board.
pub open spec fn deal_first_six(seed: [u8; 16], st: Dealing) -> Option<Dealing>
    decreases 6 - st.cards.len(),
{
    if st.cards.len() >= 6 || st.cards.len() == 0 {
        Some(st)
    } else {
        let drawn = redraw_until_new(seed, st.cards, st.draws, MAX_REJECTED_DRAWS as nat, st.cards[0]);
        if drawn is Some {
            deal_first_six(
                seed,
                add_completing_card(
                    after_draws(st, drawn.unwrap().1, st.left),
                    drawn.unwrap().0,
                ),
            )
        } else {
            None
        }
    }
}

/// Whether the next card must complete a set: as many cards are left to add as
/// sets to make.
pub open spec fn must_complete(st: Dealing) -> bool {
    12 - st.cards.len() == 6 - st.sets.len()
}

/// Whether the next card completes a set, and the draws after that choice.
pub open spec fn completing_choice(seed: [u8; 16], st: Dealing) -> (bool, Seq<Draw>) {
    if must_complete(st) {
        (true, st.draws)
    } else {
        (pcg32_bool(seed, st.draws), st.draws.push(Draw::Bool))
    }
}

/// The pairs that the card completing a set is picked among, once `count`
/// aspects all different were drawn.
pub open spec fn candidates(st: Dealing, count: usize) -> Seq<([Card; 2], Card)> {
    spec_entries_with_aspects(st.entries, count)
}

/// Whether a candidate card is turned down: it completes more sets than are
/// needed, or none where one must be.
pub open spec fn turned_down(st: Dealing, card: Card) -> bool {
    let new_sets = spec_new_sets(st.entries, card, st.sets);
    st.sets.len() + new_sets.len() > 6 || (must_complete(st) && new_sets.len() == 0)
}

/// One round of adding a card while the board has fewer than six sets, then the
/// rounds after it, until six sets are on the board.
pub open spec fn deal_until_six_sets(seed: [u8; 16], st: Dealing) -> Option<Dealing>
    decreases 12 - st.cards.len(), st.left,
{
    if st.sets.len() >= 6 || st.cards.len() >= 12 || st.cards.len() == 0 {
        Some(st)
    } else {
        let choice = completing_choice(seed, st);
        if choice.0 {
            let counted = redraw_until_present(
                seed,
                st.entries,
                aspect_count_draws(choice.1),
                MAX_REJECTED_DRAWS as nat,
                drawn_aspect_count(seed, choice.1),
            );
            if counted is Some {
                let count = counted.unwrap().0;
                let picks = candidates(st, count);
                let index = pcg32_usize_below(seed, counted.unwrap().1, 0, picks.len() as usize);
                let draws = counted.unwrap().1.push(Draw::UsizeBelow(0, picks.len() as usize));
                let card = picks[index as int].1;
                if turned_down(st, card) {
                    if st.left == 0 {
                        None
                    } else {
                        deal_until_six_sets(seed, after_draws(st, draws, (st.left - 1) as nat))
                    }
                } else {
                    deal_until_six_sets(seed, add_completing_card(after_draws(st, draws, st.left), card))
                }
            } else {
                None
            }
        } else {
            let drawn = redraw_until_free(
                seed,
                st.cards,
                st.entries,
                choice.1,
                MAX_REJECTED_DRAWS as nat,
                st.cards[0],
            );
            if drawn is Some {
                deal_until_six_sets(
                    seed,
                    add_free_card(after_draws(st, drawn.unwrap().1, st.left), drawn.unwrap().0),
                )
            } else {
                None
            }
        }
    }
}

/// Cards that complete nothing are added until the board has twelve.
pub open spec fn pad_to_twelve(seed: [u8; 16], st: Dealing) -> Option<Dealing>
    decreases 12 - st.cards.len(), st.left,
{
    if st.cards.len() >= 12 {
        Some(st)
    } else {
        let card = spec_sample_card(seed, st.draws);
        let draws = aspect_draws(st.draws, 4);
        if !st.cards.contains(card) && !completes_some(st.entries, card) {
            pad_to_twelve(seed, add_free_card(after_draws(st, draws, st.left), card))
        } else if st.left == 0 {
            None
        } else {
            pad_to_twelve(seed, after_draws(st, draws, (st.left - 1) as nat))
        }
    }
}

/// The state before the second card: the first card drawn, nothing else.
pub open spec fn first_card_dealt(seed: [u8; 16]) -> Dealing {
    Dealing {
        cards: seq![spec_sample_card(seed, Seq::empty())],
        sets: Seq::empty(),
        entries: Seq::empty(),
        draws: aspect_draws(Seq::empty(), 4),
        left: MAX_REJECTED_DRAWS as nat,
    }
}

/// The board before its cards are shuffled: six random cards, then cards until
/// six sets are there, then cards that complete nothing until there are twelve.
pub open spec fn deal_unshuffled(seed: [u8; 16]) -> Option<Dealing> {
    let six = deal_first_six(seed, first_card_dealt(seed));
    if six is Some {
        let sets = deal_until_six_sets(seed, six.unwrap());
        if sets is Some {
            pad_to_twelve(seed, sets.unwrap())
        } else {
            None
        }
    } else {
        None
    }
}

/// A dealt board, its cards shuffled by the next draw; `None` where it was not
/// dealt, or is not twelve cards and six sets.
pub open spec fn shuffled_board(seed: [u8; 16], board: Option<Dealing>) -> Option<(Seq<Card>, Seq<[Card; 3]>)> {
    if board is Some {
        let cards = pcg32_shuffle(seed, board.unwrap().draws, board.unwrap().cards);
        if cards.len() == 12 && board.unwrap().sets.len() == 6 {
            Some((cards, board.unwrap().sets))
        } else {
            None
        }
    } else {
        None
    }
}

/// The cards and the answer key that `game_board::initialize_cards` deals from
/// `seed`: the board before shuffling, its cards shuffled by the next draw;
/// `None` where a stage ran out of redraws, or the board is not twelve cards and
/// six sets.
pub open spec fn dealt_board(seed: [u8; 16]) -> Option<(Seq<Card>, Seq<[Card; 3]>)> {
    shuffled_board(seed, deal_unshuffled(seed))
}

// ---------------------------------------------------------------------------
// The first way of dealing (`init::initialize_cards`)
// ---------------------------------------------------------------------------

/// The board after its first set: a set drawn and sorted, its three cards.
pub open spec fn first_set_dealt(seed: [u8; 16]) -> Dealing {
    let drawn = spec_generate_set(seed, Seq::empty());
    let sorted = sort3(drawn.0[0], drawn.0[1], drawn.0[2]);
    Dealing {
        cards: seq![sorted[0], sorted[1], sorted[2]],
        sets: seq![sorted],
        entries: Seq::empty(),
        draws: drawn.1,
        left: MAX_REJECTED_DRAWS as nat,
    }
}

/// The board after a fourth card, drawn until it is not one of the first three.
pub open spec fn four_cards_dealt(seed: [u8; 16]) -> Option<Dealing> {
    let st = first_set_dealt(seed);
    let drawn = redraw_until_new(seed, st.cards, st.draws, MAX_REJECTED_DRAWS as nat, st.cards[0]);
    if drawn is Some {
        Some(add_free_card(after_draws(st, drawn.unwrap().1, st.left), drawn.unwrap().0))
    } else {
        None
    }
}

/// The next card and the draws after it: where a set is to be completed, the
/// card that completes a pair picked by a draw among all of them (`None` when
/// there is none); otherwise a card drawn until it is not on the board.
pub open spec fn picked_card(seed: [u8; 16], st: Dealing, choice: (bool, Seq<Draw>)) -> Option<
    (Card, Seq<Draw>),
> {
    if choice.0 {
        if st.entries.len() == 0 {
            None
        } else {
            let count = st.entries.len() as usize;
            let index = pcg32_usize_below(seed, choice.1, 0, count);
            Some((st.entries[index as int].1, choice.1.push(Draw::UsizeBelow(0, count))))
        }
    } else {
        let drawn = redraw_until_new(seed, st.cards, choice.1, MAX_REJECTED_DRAWS as nat, st.cards[0]);
        if drawn is Some {
            Some((drawn.unwrap().0, drawn.unwrap().1))
        } else {
            None
        }
    }
}

/// One round of adding a card in the first way while the board has fewer than
/// six sets, then the rounds after it.
pub open spec fn deal_first_way_until_six_sets(seed: [u8; 16], st: Dealing) -> Option<Dealing>
    decreases 12 - st.cards.len(), st.left,
{
    if st.sets.len() >= 6 || st.cards.len() >= 12 || st.cards.len() == 0 {
        Some(st)
    } else {
        let picked = picked_card(seed, st, completing_choice(seed, st));
        if picked is Some {
            let card = picked.unwrap().0;
            let draws = picked.unwrap().1;
            if turned_down(st, card) {
                if st.left == 0 {
                    None
                } else {
                    deal_first_way_until_six_sets(seed, after_draws(st, draws, (st.left - 1) as nat))
                }
            } else {
                deal_first_way_until_six_sets(
                    seed,
                    add_completing_card_from_back(after_draws(st, draws, st.left), card),
                )
            }
        } else {
            None
        }
    }
}

/// The board of the first way before its cards are shuffled.
pub open spec fn deal_first_way_unshuffled(seed: [u8; 16]) -> Option<Dealing> {
    let four = four_cards_dealt(seed);
    if four is Some {
        let sets = deal_first_way_until_six_sets(seed, four.unwrap());
        if sets is Some {
            pad_to_twelve(seed, sets.unwrap())
        } else {
            None
        }
    } else {
        None
    }
}

/// The cards and the answer key that `init::initialize_cards` deals from `seed`.
pub open spec fn dealt_board_first_way(seed: [u8; 16]) -> Option<(Seq<Card>, Seq<[Card; 3]>)> {
    shuffled_board(seed, deal_first_way_unshuffled(seed))
}

} // verus!
