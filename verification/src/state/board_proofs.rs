//! What holds of the cards, the sets and the almost complete sets while a board
//! is built, and why adding a card keeps it.
use vstd::prelude::*;

use crate::state::game_board::{
    in_set, lemma_sort3_facts, lemma_sort3_same_pair, lemma_sorted_sets_equal, same_pair, sort3, sorted_set, spec_new_sets, spec_other_cards,
    spec_pairs_with,
};
use crate::state::{is_set, lemma_is_set_symmetric, lemma_set_iff_third, lemma_third_card_facts,
    third_card, Card,
};

verus! {

/// `set` is sorted, is a set, and its three cards are among `cards`.
pub open spec fn valid_set_of(cards: Seq<Card>, set: [Card; 3]) -> bool {
    &&& sorted_set(set)
    &&& is_set(set[0], set[1], set[2])
    &&& cards.contains(set[0])
    &&& cards.contains(set[1])
    &&& cards.contains(set[2])
}

/// Every entry of `sets` is a sorted set of `cards`, and no set occurs twice.
pub open spec fn sets_valid(cards: Seq<Card>, sets: Seq<[Card; 3]>) -> bool {
    &&& sets.no_duplicates()
    &&& forall|i: int| 0 <= i < sets.len() ==> valid_set_of(cards, #[trigger] sets[i])
}

/// Every set among `cards` is in `sets`.
pub open spec fn sets_complete(cards: Seq<Card>, sets: Seq<[Card; 3]>) -> bool {
    forall|a: Card, b: Card, c: Card|
        cards.contains(a) && cards.contains(b) && cards.contains(c) && #[trigger] is_set(a, b, c)
            ==> sets.contains(sort3(a, b, c))
}

/// An entry of the almost complete sets: a pair of two different cards of
/// `cards` and the card that completes it, which is not among `cards`.
pub open spec fn entry_valid(cards: Seq<Card>, entry: ([Card; 2], Card)) -> bool {
    &&& entry.0[0] != entry.0[1]
    &&& cards.contains(entry.0[0])
    &&& cards.contains(entry.0[1])
    &&& entry.1 == third_card(entry.0[0], entry.0[1])
    &&& !cards.contains(entry.1)
}

/// No pair of cards occurs in two entries.
pub open spec fn pairs_unique(almost_complete_sets: Seq<([Card; 2], Card)>) -> bool {
    forall|i: int, j: int|
        0 <= i < almost_complete_sets.len() && 0 <= j < almost_complete_sets.len() && i != j
            ==> !same_pair(
            #[trigger] almost_complete_sets[i].0,
            (#[trigger] almost_complete_sets[j]).0[0],
            almost_complete_sets[j].0[1],
        )
}

/// Every pair of different cards of `cards` whose completing card is not among
/// `cards` has an entry.
pub open spec fn pairs_covered(cards: Seq<Card>, almost_complete_sets: Seq<([Card; 2], Card)>) -> bool {
    forall|x: Card, y: Card|
        cards.contains(x) && cards.contains(y) && x != y && !cards.contains(
            #[trigger] third_card(x, y),
        ) ==> exists|i: int|
            0 <= i < almost_complete_sets.len() && same_pair(
                #[trigger] almost_complete_sets[i].0,
                x,
                y,
            )
}

/// The almost complete sets are exactly the pairs of `cards` that a card not
/// yet among `cards` would complete, each once.
pub open spec fn almost_complete_sets_valid(
    cards: Seq<Card>,
    almost_complete_sets: Seq<([Card; 2], Card)>,
) -> bool {
    &&& forall|i: int|
        0 <= i < almost_complete_sets.len() ==> entry_valid(cards, #[trigger] almost_complete_sets[i])
    &&& pairs_unique(almost_complete_sets)
    &&& pairs_covered(cards, almost_complete_sets)
}

/// What holds while a board is built: the cards are distinct, `sets` holds
/// exactly the sets among them (each sorted, each once), and the almost complete
/// sets are exactly the pairs that a card not yet among them would complete.
pub open spec fn building_inv(
    cards: Seq<Card>,
    sets: Seq<[Card; 3]>,
    almost_complete_sets: Seq<([Card; 2], Card)>,
) -> bool {
    &&& cards.no_duplicates()
    &&& sets_valid(cards, sets)
    &&& sets_complete(cards, sets)
    &&& almost_complete_sets_valid(cards, almost_complete_sets)
}

/// Entries with unique pairs are distinct entries.
pub proof fn lemma_pairs_unique_no_duplicates(almost_complete_sets: Seq<([Card; 2], Card)>)
    requires
        pairs_unique(almost_complete_sets),
    ensures
        almost_complete_sets.no_duplicates(),
{
    assert forall|i: int, j: int|
        0 <= i < almost_complete_sets.len() && 0 <= j < almost_complete_sets.len() && i
            != j implies almost_complete_sets[i] != almost_complete_sets[j] by {
        assert(!same_pair(almost_complete_sets[i].0, almost_complete_sets[j].0[0], almost_complete_sets[j].0[1]));
    }
}

/// Each new set comes from an entry completed by `new_card` and is not among `sets`.
pub proof fn lemma_new_sets_sound(
    almost_complete_sets: Seq<([Card; 2], Card)>,
    new_card: Card,
    sets: Seq<[Card; 3]>,
)
    ensures
        forall|k: int|
            #![trigger spec_new_sets(almost_complete_sets, new_card, sets)[k]]
            0 <= k < spec_new_sets(almost_complete_sets, new_card, sets).len() ==> exists|i: int|
                0 <= i < almost_complete_sets.len() && (#[trigger] almost_complete_sets[i]).1
                    == new_card && spec_new_sets(almost_complete_sets, new_card, sets)[k] == sort3(
                    almost_complete_sets[i].0[0],
                    almost_complete_sets[i].0[1],
                    new_card,
                ) && !sets.contains(spec_new_sets(almost_complete_sets, new_card, sets)[k]),
    decreases almost_complete_sets.len(),
{
    let acs = almost_complete_sets;
    if acs.len() > 0 {
        let front = acs.drop_last();
        lemma_new_sets_sound(front, new_card, sets);
        let earlier = spec_new_sets(front, new_card, sets);
        let all = spec_new_sets(acs, new_card, sets);
        let entry = acs.last();
        assert forall|k: int| #![trigger all[k]] 0 <= k < all.len() implies exists|i: int|
            0 <= i < acs.len() && (#[trigger] acs[i]).1 == new_card && all[k] == sort3(
                acs[i].0[0],
                acs[i].0[1],
                new_card,
            ) && !sets.contains(all[k]) by {
            if k < earlier.len() {
                assert(all[k] == earlier[k]);
                let i = choose|i: int|
                    0 <= i < front.len() && (#[trigger] front[i]).1 == new_card && earlier[k]
                        == sort3(front[i].0[0], front[i].0[1], new_card) && !sets.contains(
                        earlier[k],
                    );
                assert(acs[i] == front[i]);
            } else {
                assert(acs[acs.len() - 1] == entry);
            }
        }
    }
}

/// Each entry completed by `new_card` whose set is not among `sets` gives a new set.
pub proof fn lemma_new_sets_complete(
    almost_complete_sets: Seq<([Card; 2], Card)>,
    new_card: Card,
    sets: Seq<[Card; 3]>,
)
    ensures
        forall|i: int|
            0 <= i < almost_complete_sets.len() && (#[trigger] almost_complete_sets[i]).1 == new_card
                && !sets.contains(
                sort3(almost_complete_sets[i].0[0], almost_complete_sets[i].0[1], new_card),
            ) ==> spec_new_sets(almost_complete_sets, new_card, sets).contains(
                sort3(almost_complete_sets[i].0[0], almost_complete_sets[i].0[1], new_card),
            ),
    decreases almost_complete_sets.len(),
{
    let acs = almost_complete_sets;
    if acs.len() > 0 {
        let front = acs.drop_last();
        lemma_new_sets_complete(front, new_card, sets);
        let earlier = spec_new_sets(front, new_card, sets);
        let all = spec_new_sets(acs, new_card, sets);
        let entry = acs.last();
        let set = sort3(entry.0[0], entry.0[1], new_card);
        assert forall|i: int|
            0 <= i < acs.len() && (#[trigger] acs[i]).1 == new_card && !sets.contains(
                sort3(acs[i].0[0], acs[i].0[1], new_card),
            ) implies all.contains(sort3(acs[i].0[0], acs[i].0[1], new_card)) by {
            if i < acs.len() - 1 {
                assert(front[i] == acs[i]);
                let x = sort3(acs[i].0[0], acs[i].0[1], new_card);
                assert(earlier.contains(x));
                let q = choose|q: int| 0 <= q < earlier.len() && earlier[q] == x;
                assert(all[q] == x);
            } else {
                assert(all[all.len() - 1] == set);
            }
        }
    }
}

/// When the pairs are unique, of two different cards, and do not hold
/// `new_card`, no new set occurs twice.
pub proof fn lemma_new_sets_no_duplicates(
    almost_complete_sets: Seq<([Card; 2], Card)>,
    new_card: Card,
    sets: Seq<[Card; 3]>,
)
    requires
        forall|i: int|
            0 <= i < almost_complete_sets.len() ==> (#[trigger] almost_complete_sets[i]).0[0]
                != new_card && almost_complete_sets[i].0[1] != new_card
                && almost_complete_sets[i].0[0] != almost_complete_sets[i].0[1],
        pairs_unique(almost_complete_sets),
    ensures
        spec_new_sets(almost_complete_sets, new_card, sets).no_duplicates(),
    decreases almost_complete_sets.len(),
{
    let acs = almost_complete_sets;
    if acs.len() > 0 {
        let front = acs.drop_last();
        assert forall|i: int, j: int|
            0 <= i < front.len() && 0 <= j < front.len() && i != j implies !same_pair(
            #[trigger] front[i].0,
            (#[trigger] front[j]).0[0],
            front[j].0[1],
        ) by {
            assert(front[i] == acs[i] && front[j] == acs[j]);
        }
        assert forall|i: int|
            0 <= i < front.len() implies (#[trigger] front[i]).0[0] != new_card && front[i].0[1]
            != new_card && front[i].0[0] != front[i].0[1] by {
            assert(front[i] == acs[i]);
        }
        lemma_new_sets_no_duplicates(front, new_card, sets);
        lemma_new_sets_sound(front, new_card, sets);
        let earlier = spec_new_sets(front, new_card, sets);
        let entry = acs.last();
        let set = sort3(entry.0[0], entry.0[1], new_card);
        if entry.1 == new_card && !sets.contains(set) {
            assert forall|q: int| 0 <= q < earlier.len() implies earlier[q] != set by {
                let i = choose|i: int|
                    0 <= i < front.len() && (#[trigger] front[i]).1 == new_card && earlier[q]
                        == sort3(front[i].0[0], front[i].0[1], new_card) && !sets.contains(
                        earlier[q],
                    );
                assert(acs[i] == front[i]);
                assert(acs[acs.len() - 1] == entry);
                assert(!same_pair(acs[acs.len() - 1].0, acs[i].0[0], acs[i].0[1]));
                if earlier[q] == set {
                    lemma_sort3_same_pair(front[i].0, entry.0, new_card);
                }
            }
        }
    }
}

/// What `spec_other_cards` holds: exactly the cards of `cards` in none of
/// `new_sets`, each once when `cards` has no duplicates.
pub proof fn lemma_other_cards_facts(cards: Seq<Card>, new_sets: Seq<[Card; 3]>)
    ensures
        forall|x: Card|
            #[trigger] spec_other_cards(cards, new_sets).contains(x) <==> (cards.contains(x) && forall|k: int|
                0 <= k < new_sets.len() ==> !in_set(#[trigger] new_sets[k], x)),
        cards.no_duplicates() ==> spec_other_cards(cards, new_sets).no_duplicates(),
    decreases cards.len(),
{
    if cards.len() > 0 {
        let front = cards.drop_last();
        lemma_other_cards_facts(front, new_sets);
        let earlier = spec_other_cards(front, new_sets);
        let all = spec_other_cards(cards, new_sets);
        let last = cards.last();
        assert forall|x: Card|
            all.contains(x) <==> (cards.contains(x) && forall|k: int|
                0 <= k < new_sets.len() ==> !in_set(#[trigger] new_sets[k], x)) by {
            if all.contains(x) {
                let q = choose|q: int| 0 <= q < all.len() && all[q] == x;
                if q < earlier.len() {
                    assert(earlier[q] == x);
                    assert(earlier.contains(x));
                    let r = choose|r: int| 0 <= r < front.len() && front[r] == x;
                    assert(cards[r] == x);
                } else {
                    assert(cards[cards.len() - 1] == x);
                }
            }
            if cards.contains(x) && forall|k: int|
                0 <= k < new_sets.len() ==> !in_set(#[trigger] new_sets[k], x) {
                let r = choose|r: int| 0 <= r < cards.len() && cards[r] == x;
                if r < cards.len() - 1 {
                    assert(front[r] == x);
                    assert(earlier.contains(x));
                    let q = choose|q: int| 0 <= q < earlier.len() && earlier[q] == x;
                    assert(all[q] == x);
                } else {
                    assert(all[all.len() - 1] == x);
                }
            }
        }
        if cards.no_duplicates() {
            assert(front.no_duplicates());
            if !earlier.contains(last) {
            } else {
                assert(front.contains(last));
                let r = choose|r: int| 0 <= r < front.len() && front[r] == last;
                assert(cards[r] == cards[cards.len() - 1]);
            }
        }
    }
}

/// With the invariant, `new_card` not among `cards`, and `x`, `y` cards that
/// form a set with `new_card`: the set is among the new sets.
pub proof fn lemma_set_with_new_card_is_new(
    cards: Seq<Card>,
    sets: Seq<[Card; 3]>,
    almost_complete_sets: Seq<([Card; 2], Card)>,
    new_card: Card,
    x: Card,
    y: Card,
)
    requires
        building_inv(cards, sets, almost_complete_sets),
        !cards.contains(new_card),
        cards.contains(x),
        cards.contains(y),
        is_set(x, y, new_card),
    ensures
        spec_new_sets(almost_complete_sets, new_card, sets).contains(sort3(x, y, new_card)),
{
    let acs = almost_complete_sets;
    lemma_set_iff_third(x, y, new_card);
    lemma_third_card_facts(x, y);
    assert(!cards.contains(third_card(x, y)));
    let i = choose|i: int| 0 <= i < acs.len() && same_pair(#[trigger] acs[i].0, x, y);
    assert(entry_valid(cards, acs[i]));
    lemma_third_card_facts(acs[i].0[0], acs[i].0[1]);
    lemma_sort3_facts(x, y, new_card);
    let set = sort3(x, y, new_card);
    assert(sort3(acs[i].0[0], acs[i].0[1], new_card) == set);
    assert(in_set(set, new_card));
    if sets.contains(set) {
        let k = choose|k: int| 0 <= k < sets.len() && sets[k] == set;
        assert(valid_set_of(cards, sets[k]));
    }
    lemma_new_sets_complete(acs, new_card, sets);
}

/// Each new set is a valid set of the cards with `new_card`, and holds `new_card`.
pub proof fn lemma_new_sets_valid(
    cards: Seq<Card>,
    sets: Seq<[Card; 3]>,
    almost_complete_sets: Seq<([Card; 2], Card)>,
    new_card: Card,
)
    requires
        building_inv(cards, sets, almost_complete_sets),
        !cards.contains(new_card),
    ensures
        forall|k: int|
            0 <= k < spec_new_sets(almost_complete_sets, new_card, sets).len() ==> valid_set_of(
                cards.push(new_card),
                #[trigger] spec_new_sets(almost_complete_sets, new_card, sets)[k],
            ) && in_set(spec_new_sets(almost_complete_sets, new_card, sets)[k], new_card),
{
    broadcast use vstd::seq_lib::lemma_seq_contains_after_push;

    let acs = almost_complete_sets;
    let new_sets = spec_new_sets(acs, new_card, sets);
    let grown = cards.push(new_card);
    lemma_new_sets_sound(acs, new_card, sets);
    assert forall|k: int|
        0 <= k < new_sets.len() implies valid_set_of(grown, #[trigger] new_sets[k]) && in_set(
        new_sets[k],
        new_card,
    ) by {
        let i = choose|i: int|
            0 <= i < acs.len() && (#[trigger] acs[i]).1 == new_card && new_sets[k] == sort3(
                acs[i].0[0],
                acs[i].0[1],
                new_card,
            ) && !sets.contains(new_sets[k]);
        let p = acs[i].0;
        assert(entry_valid(cards, acs[i]));
        lemma_third_card_facts(p[0], p[1]);
        lemma_sort3_facts(p[0], p[1], new_card);
        let s = new_sets[k];
        assert(in_set(s, s[0]) && in_set(s, s[1]) && in_set(s, s[2]));
    }
}

/// Adding `new_card` keeps every set valid and each set once.
pub proof fn lemma_step_sets_valid(
    cards: Seq<Card>,
    sets: Seq<[Card; 3]>,
    almost_complete_sets: Seq<([Card; 2], Card)>,
    new_card: Card,
)
    requires
        building_inv(cards, sets, almost_complete_sets),
        !cards.contains(new_card),
    ensures
        sets_valid(
            cards.push(new_card),
            sets + spec_new_sets(almost_complete_sets, new_card, sets),
        ),
{
    broadcast use vstd::seq_lib::lemma_seq_contains_after_push;

    let acs = almost_complete_sets;
    let new_sets = spec_new_sets(acs, new_card, sets);
    let all = sets + new_sets;
    let grown = cards.push(new_card);
    lemma_new_sets_valid(cards, sets, acs, new_card);
    assert forall|i: int| 0 <= i < all.len() implies valid_set_of(grown, #[trigger] all[i]) by {
        if i < sets.len() {
            assert(all[i] == sets[i]);
            assert(valid_set_of(cards, sets[i]));
        } else {
            assert(all[i] == new_sets[i - sets.len()]);
        }
    }
    assert forall|i: int| 0 <= i < acs.len() implies (#[trigger] acs[i]).0[0] != new_card
        && acs[i].0[1] != new_card && acs[i].0[0] != acs[i].0[1] by {
        assert(entry_valid(cards, acs[i]));
    }
    lemma_new_sets_no_duplicates(acs, new_card, sets);
    assert forall|i: int, j: int| 0 <= i < all.len() && 0 <= j < all.len() && i != j implies all[i]
        != all[j] by {
        if i < sets.len() && j < sets.len() {
        } else if i >= sets.len() && j >= sets.len() {
            assert(all[i] == new_sets[i - sets.len()]);
            assert(all[j] == new_sets[j - sets.len()]);
        } else if i < sets.len() {
            assert(valid_set_of(cards, sets[i]));
            assert(in_set(new_sets[j - sets.len()], new_card));
            assert(all[j] == new_sets[j - sets.len()]);
        } else {
            assert(valid_set_of(cards, sets[j]));
            assert(in_set(new_sets[i - sets.len()], new_card));
            assert(all[i] == new_sets[i - sets.len()]);
        }
    }
}

/// Adding `new_card` keeps every set among the cards in the sets.
pub proof fn lemma_step_sets_complete(
    cards: Seq<Card>,
    sets: Seq<[Card; 3]>,
    almost_complete_sets: Seq<([Card; 2], Card)>,
    new_card: Card,
)
    requires
        building_inv(cards, sets, almost_complete_sets),
        !cards.contains(new_card),
    ensures
        sets_complete(
            cards.push(new_card),
            sets + spec_new_sets(almost_complete_sets, new_card, sets),
        ),
{
    broadcast use vstd::seq_lib::lemma_seq_contains_after_push;
    broadcast use vstd::seq_lib::lemma_seq_concat_contains_all_elements;

    let acs = almost_complete_sets;
    let new_sets = spec_new_sets(acs, new_card, sets);
    let all = sets + new_sets;
    let grown = cards.push(new_card);
    assert forall|a: Card, b: Card, c: Card|
        grown.contains(a) && grown.contains(b) && grown.contains(c) && #[trigger] is_set(
            a,
            b,
            c,
        ) implies all.contains(sort3(a, b, c)) by {
        lemma_is_set_symmetric(a, b, c);
        lemma_sort3_facts(a, b, c);
        lemma_sort3_facts(b, c, a);
        if a != new_card && b != new_card && c != new_card {
            assert(sets.contains(sort3(a, b, c)));
        } else if c == new_card {
            lemma_set_with_new_card_is_new(cards, sets, acs, new_card, a, b);
        } else if a == new_card {
            lemma_set_with_new_card_is_new(cards, sets, acs, new_card, b, c);
            assert(sort3(b, c, a) == sort3(a, b, c));
        } else {
            lemma_set_with_new_card_is_new(cards, sets, acs, new_card, c, a);
            lemma_sort3_facts(c, a, b);
            assert(sort3(c, a, b) == sort3(a, b, c));
        }
    }
}

/// A card paired with `new_card` in the new entries has a completing card that
/// is neither among the cards nor `new_card`.
pub proof fn lemma_other_card_completion_free(
    cards: Seq<Card>,
    sets: Seq<[Card; 3]>,
    almost_complete_sets: Seq<([Card; 2], Card)>,
    new_card: Card,
    other: Card,
)
    requires
        building_inv(cards, sets, almost_complete_sets),
        !cards.contains(new_card),
        spec_other_cards(cards, spec_new_sets(almost_complete_sets, new_card, sets)).contains(other),
    ensures
        cards.contains(other),
        other != new_card,
        !cards.push(new_card).contains(third_card(new_card, other)),
{
    broadcast use vstd::seq_lib::lemma_seq_contains_after_push;

    let new_sets = spec_new_sets(almost_complete_sets, new_card, sets);
    lemma_other_cards_facts(cards, new_sets);
    let z = third_card(new_card, other);
    lemma_third_card_facts(new_card, other);
    if cards.contains(z) {
        lemma_set_iff_third(new_card, other, z);
        lemma_is_set_symmetric(new_card, other, z);
        lemma_set_with_new_card_is_new(cards, sets, almost_complete_sets, new_card, other, z);
        lemma_sort3_facts(other, z, new_card);
        let k = choose|k: int| 0 <= k < new_sets.len() && new_sets[k] == sort3(other, z, new_card);
        assert(in_set(new_sets[k], other));
    }
}

/// A card whose completing card with `new_card` is neither among the cards nor
/// `new_card` is in none of the new sets.
pub proof fn lemma_free_card_is_other(
    cards: Seq<Card>,
    sets: Seq<[Card; 3]>,
    almost_complete_sets: Seq<([Card; 2], Card)>,
    new_card: Card,
    card: Card,
)
    requires
        building_inv(cards, sets, almost_complete_sets),
        !cards.contains(new_card),
        cards.contains(card),
        !cards.push(new_card).contains(third_card(new_card, card)),
    ensures
        spec_other_cards(cards, spec_new_sets(almost_complete_sets, new_card, sets)).contains(card),
{
    broadcast use vstd::seq_lib::lemma_seq_contains_after_push;

    let acs = almost_complete_sets;
    let new_sets = spec_new_sets(acs, new_card, sets);
    lemma_other_cards_facts(cards, new_sets);
    lemma_new_sets_sound(acs, new_card, sets);
    assert forall|k: int| 0 <= k < new_sets.len() implies !in_set(#[trigger] new_sets[k], card) by {
        let i = choose|i: int|
            0 <= i < acs.len() && (#[trigger] acs[i]).1 == new_card && new_sets[k] == sort3(
                acs[i].0[0],
                acs[i].0[1],
                new_card,
            ) && !sets.contains(new_sets[k]);
        let p = acs[i].0;
        assert(entry_valid(cards, acs[i]));
        lemma_sort3_facts(p[0], p[1], new_card);
        lemma_third_card_facts(p[0], p[1]);
        lemma_third_card_facts(p[1], p[0]);
        lemma_third_card_facts(new_card, p[0]);
        lemma_third_card_facts(new_card, p[1]);
        if in_set(new_sets[k], card) {
            if card == p[0] {
                assert(third_card(new_card, card) == p[1]);
            } else {
                assert(card == p[1]);
                assert(third_card(new_card, card) == p[0]);
            }
        }
    }
}

/// The entries after adding `new_card` are all valid.
pub proof fn lemma_step_entries_valid(
    cards: Seq<Card>,
    sets: Seq<[Card; 3]>,
    almost_complete_sets: Seq<([Card; 2], Card)>,
    new_card: Card,
    remaining: Seq<([Card; 2], Card)>,
)
    requires
        building_inv(cards, sets, almost_complete_sets),
        !cards.contains(new_card),
        forall|entry: ([Card; 2], Card)|
            #[trigger] remaining.contains(entry) <==> (almost_complete_sets.contains(entry)
                && entry.1 != new_card),
    ensures
        forall|i: int|
            0 <= i < (remaining + spec_pairs_with(
                new_card,
                spec_other_cards(cards, spec_new_sets(almost_complete_sets, new_card, sets)),
            )).len() ==> entry_valid(
                cards.push(new_card),
                #[trigger] (remaining + spec_pairs_with(
                    new_card,
                    spec_other_cards(cards, spec_new_sets(almost_complete_sets, new_card, sets)),
                ))[i],
            ),
{
    broadcast use vstd::seq_lib::lemma_seq_contains_after_push;

    let acs = almost_complete_sets;
    let others = spec_other_cards(cards, spec_new_sets(acs, new_card, sets));
    let added = spec_pairs_with(new_card, others);
    let all = remaining + added;
    let grown = cards.push(new_card);
    assert forall|i: int| 0 <= i < all.len() implies entry_valid(grown, #[trigger] all[i]) by {
        if i < remaining.len() {
            let e = remaining[i];
            assert(all[i] == e);
            assert(remaining.contains(e));
            let j = choose|j: int| 0 <= j < acs.len() && acs[j] == e;
            assert(entry_valid(cards, acs[j]));
        } else {
            let t = i - remaining.len();
            let o = others[t];
            assert(all[i] == added[t]);
            assert(others.contains(o));
            lemma_other_card_completion_free(cards, sets, acs, new_card, o);
        }
    }
}

/// No pair occurs twice in the entries after adding `new_card`.
pub proof fn lemma_step_pairs_unique(
    cards: Seq<Card>,
    sets: Seq<[Card; 3]>,
    almost_complete_sets: Seq<([Card; 2], Card)>,
    new_card: Card,
    remaining: Seq<([Card; 2], Card)>,
)
    requires
        building_inv(cards, sets, almost_complete_sets),
        !cards.contains(new_card),
        remaining.no_duplicates(),
        forall|entry: ([Card; 2], Card)|
            #[trigger] remaining.contains(entry) <==> (almost_complete_sets.contains(entry)
                && entry.1 != new_card),
    ensures
        pairs_unique(
            remaining + spec_pairs_with(
                new_card,
                spec_other_cards(cards, spec_new_sets(almost_complete_sets, new_card, sets)),
            ),
        ),
{
    let acs = almost_complete_sets;
    let others = spec_other_cards(cards, spec_new_sets(acs, new_card, sets));
    let added = spec_pairs_with(new_card, others);
    let all = remaining + added;
    lemma_other_cards_facts(cards, spec_new_sets(acs, new_card, sets));
    assert forall|i: int, j: int|
        0 <= i < all.len() && 0 <= j < all.len() && i != j implies !same_pair(
        #[trigger] all[i].0,
        (#[trigger] all[j]).0[0],
        all[j].0[1],
    ) by {
        if i < remaining.len() && j < remaining.len() {
            assert(all[i] == remaining[i] && all[j] == remaining[j]);
            assert(remaining.contains(remaining[i]) && remaining.contains(remaining[j]));
            let a = choose|a: int| 0 <= a < acs.len() && acs[a] == remaining[i];
            let b = choose|b: int| 0 <= b < acs.len() && acs[b] == remaining[j];
            assert(!same_pair(acs[a].0, acs[b].0[0], acs[b].0[1]));
        } else if i < remaining.len() {
            assert(all[i] == remaining[i]);
            assert(remaining.contains(remaining[i]));
            let a = choose|a: int| 0 <= a < acs.len() && acs[a] == remaining[i];
            assert(entry_valid(cards, acs[a]));
            assert(all[j] == added[j - remaining.len()]);
        } else if j < remaining.len() {
            assert(all[j] == remaining[j]);
            assert(remaining.contains(remaining[j]));
            let b = choose|b: int| 0 <= b < acs.len() && acs[b] == remaining[j];
            assert(entry_valid(cards, acs[b]));
            assert(all[i] == added[i - remaining.len()]);
        } else {
            let s = i - remaining.len();
            let t = j - remaining.len();
            assert(all[i] == added[s] && all[j] == added[t]);
            assert(others.contains(others[s]) && others.contains(others[t]));
        }
    }
}

/// Every pair of cards that a card not yet among them would complete has an
/// entry after adding `new_card`.
pub proof fn lemma_step_pairs_covered(
    cards: Seq<Card>,
    sets: Seq<[Card; 3]>,
    almost_complete_sets: Seq<([Card; 2], Card)>,
    new_card: Card,
    remaining: Seq<([Card; 2], Card)>,
)
    requires
        building_inv(cards, sets, almost_complete_sets),
        !cards.contains(new_card),
        forall|entry: ([Card; 2], Card)|
            #[trigger] remaining.contains(entry) <==> (almost_complete_sets.contains(entry)
                && entry.1 != new_card),
    ensures
        pairs_covered(
            cards.push(new_card),
            remaining + spec_pairs_with(
                new_card,
                spec_other_cards(cards, spec_new_sets(almost_complete_sets, new_card, sets)),
            ),
        ),
{
    broadcast use vstd::seq_lib::lemma_seq_contains_after_push;

    let acs = almost_complete_sets;
    let others = spec_other_cards(cards, spec_new_sets(acs, new_card, sets));
    let added = spec_pairs_with(new_card, others);
    let all = remaining + added;
    let grown = cards.push(new_card);
    assert forall|x: Card, y: Card|
        grown.contains(x) && grown.contains(y) && x != y && !grown.contains(
            #[trigger] third_card(x, y),
        ) implies exists|i: int| 0 <= i < all.len() && same_pair(#[trigger] all[i].0, x, y) by {
        lemma_third_card_facts(x, y);
        if x != new_card && y != new_card {
            assert(!cards.contains(third_card(x, y)));
            let a = choose|a: int| 0 <= a < acs.len() && same_pair(#[trigger] acs[a].0, x, y);
            assert(entry_valid(cards, acs[a]));
            lemma_third_card_facts(acs[a].0[0], acs[a].0[1]);
            assert(acs.contains(acs[a]));
            assert(remaining.contains(acs[a]));
            let r = choose|r: int| 0 <= r < remaining.len() && remaining[r] == acs[a];
            assert(all[r] == acs[a]);
        } else if x == new_card {
            lemma_free_card_is_other(cards, sets, acs, new_card, y);
            let t = choose|t: int| 0 <= t < others.len() && others[t] == y;
            assert(all[remaining.len() + t] == added[t]);
        } else {
            lemma_third_card_facts(y, x);
            lemma_free_card_is_other(cards, sets, acs, new_card, x);
            let t = choose|t: int| 0 <= t < others.len() && others[t] == x;
            assert(all[remaining.len() + t] == added[t]);
        }
    }
}

/// Adding a card that is not yet among the cards keeps the invariant: the new
/// sets are those that `get_new_sets` finds, the entries completed by the card
/// are removed, and the card is paired with each card in none of the new sets.
pub proof fn lemma_add_card(
    cards: Seq<Card>,
    sets: Seq<[Card; 3]>,
    almost_complete_sets: Seq<([Card; 2], Card)>,
    new_card: Card,
    remaining: Seq<([Card; 2], Card)>,
)
    requires
        building_inv(cards, sets, almost_complete_sets),
        !cards.contains(new_card),
        remaining.no_duplicates(),
        forall|entry: ([Card; 2], Card)|
            #[trigger] remaining.contains(entry) <==> (almost_complete_sets.contains(entry)
                && entry.1 != new_card),
    ensures
        building_inv(
            cards.push(new_card),
            sets + spec_new_sets(almost_complete_sets, new_card, sets),
            remaining + spec_pairs_with(
                new_card,
                spec_other_cards(cards, spec_new_sets(almost_complete_sets, new_card, sets)),
            ),
        ),
{
    lemma_step_sets_valid(cards, sets, almost_complete_sets, new_card);
    lemma_step_sets_complete(cards, sets, almost_complete_sets, new_card);
    lemma_step_entries_valid(cards, sets, almost_complete_sets, new_card, remaining);
    lemma_step_pairs_unique(cards, sets, almost_complete_sets, new_card, remaining);
    lemma_step_pairs_covered(cards, sets, almost_complete_sets, new_card, remaining);
    assert(cards.push(new_card).no_duplicates());
}

/// A finished board: twelve distinct cards and exactly the six sets among them,
/// each sorted, each once.
pub open spec fn board_valid(cards: Seq<Card>, sets: Seq<[Card; 3]>) -> bool {
    &&& cards.len() == 12
    &&& cards.no_duplicates()
    &&& sets.len() == 6
    &&& sets_valid(cards, sets)
    &&& sets_complete(cards, sets)
}

/// A single card, no sets and no almost complete sets satisfy the invariant.
pub proof fn lemma_building_inv_one_card(card: Card)
    ensures
        building_inv(seq![card], Seq::empty(), Seq::empty()),
{
    assert forall|a: Card, b: Card, c: Card|
        seq![card].contains(a) && seq![card].contains(b) && seq![card].contains(c)
            && #[trigger] is_set(a, b, c) implies Seq::<[Card; 3]>::empty().contains(
        sort3(a, b, c),
    ) by {
        assert(seq![card][0] == card);
    }
    assert forall|x: Card, y: Card|
        seq![card].contains(x) && seq![card].contains(y) && x != y && !seq![card].contains(
            #[trigger] third_card(x, y),
        ) implies exists|i: int|
        0 <= i < Seq::<([Card; 2], Card)>::empty().len() && same_pair(
            #[trigger] Seq::<([Card; 2], Card)>::empty()[i].0,
            x,
            y,
        ) by {
        assert(seq![card][0] == card);
    }
}

/// When no entry is completed by `new_card`, there are no new sets.
pub proof fn lemma_no_new_sets(
    almost_complete_sets: Seq<([Card; 2], Card)>,
    new_card: Card,
    sets: Seq<[Card; 3]>,
)
    requires
        forall|i: int|
            0 <= i < almost_complete_sets.len() ==> (#[trigger] almost_complete_sets[i]).1
                != new_card,
    ensures
        spec_new_sets(almost_complete_sets, new_card, sets) == Seq::<[Card; 3]>::empty(),
{
    lemma_new_sets_sound(almost_complete_sets, new_card, sets);
    let new_sets = spec_new_sets(almost_complete_sets, new_card, sets);
    if new_sets.len() > 0 {
        assert(new_sets[0] == new_sets[0]);
    }
    assert(new_sets =~= Seq::<[Card; 3]>::empty());
}

/// Reordering the cards keeps the invariant.
pub proof fn lemma_building_inv_permuted(
    cards: Seq<Card>,
    permuted: Seq<Card>,
    sets: Seq<[Card; 3]>,
    almost_complete_sets: Seq<([Card; 2], Card)>,
)
    requires
        building_inv(cards, sets, almost_complete_sets),
        permuted.to_multiset() == cards.to_multiset(),
    ensures
        building_inv(permuted, sets, almost_complete_sets),
        permuted.len() == cards.len(),
{
    vstd::seq_lib::to_multiset_len(permuted);
    vstd::seq_lib::to_multiset_len(cards);
    assert forall|x: Card| #[trigger] permuted.contains(x) <==> cards.contains(x) by {
        vstd::seq_lib::to_multiset_contains(permuted, x);
        vstd::seq_lib::to_multiset_contains(cards, x);
    }
    cards.lemma_multiset_has_no_duplicates();
    permuted.lemma_multiset_has_no_duplicates_conv();
    assert forall|i: int| 0 <= i < sets.len() implies valid_set_of(permuted, #[trigger] sets[i]) by {
        assert(valid_set_of(cards, sets[i]));
        assert(permuted.contains(sets[i][0]));
        assert(permuted.contains(sets[i][1]));
        assert(permuted.contains(sets[i][2]));
    }
    assert forall|a: Card, b: Card, c: Card|
        permuted.contains(a) && permuted.contains(b) && permuted.contains(c) && #[trigger] is_set(
            a,
            b,
            c,
        ) implies sets.contains(sort3(a, b, c)) by {
        assert(cards.contains(a) && cards.contains(b) && cards.contains(c));
    }
    assert forall|i: int|
        0 <= i < almost_complete_sets.len() implies entry_valid(
        permuted,
        #[trigger] almost_complete_sets[i],
    ) by {
        assert(entry_valid(cards, almost_complete_sets[i]));
        assert(permuted.contains(almost_complete_sets[i].0[0]));
        assert(permuted.contains(almost_complete_sets[i].0[1]));
        assert(!permuted.contains(almost_complete_sets[i].1));
    }
    assert forall|x: Card, y: Card|
        permuted.contains(x) && permuted.contains(y) && x != y && !permuted.contains(
            #[trigger] third_card(x, y),
        ) implies exists|i: int|
        0 <= i < almost_complete_sets.len() && same_pair(
            #[trigger] almost_complete_sets[i].0,
            x,
            y,
        ) by {
        assert(cards.contains(x) && cards.contains(y) && !cards.contains(third_card(x, y)));
    }
}

/// The three cards of one set, that set sorted, and no almost complete sets
/// satisfy the invariant.
pub proof fn lemma_building_inv_one_set(set: [Card; 3])
    requires
        is_set(set[0], set[1], set[2]),
        sorted_set(set),
    ensures
        building_inv(seq![set[0], set[1], set[2]], seq![set], Seq::empty()),
{
    let cards = seq![set[0], set[1], set[2]];
    lemma_is_set_symmetric(set[0], set[1], set[2]);
    lemma_sort3_facts(set[0], set[1], set[2]);
    assert(cards.contains(set[0]) && cards.contains(set[1]) && cards.contains(set[2])) by {
        assert(cards[0] == set[0] && cards[1] == set[1] && cards[2] == set[2]);
    }
    assert(sort3(set[0], set[1], set[2]) == set) by {
        assert(sort3(set[0], set[1], set[2]) =~= set);
    }
    assert(valid_set_of(cards, seq![set][0]));
    assert forall|a: Card, b: Card, c: Card|
        cards.contains(a) && cards.contains(b) && cards.contains(c) && #[trigger] is_set(a, b, c)
            implies seq![set].contains(sort3(a, b, c)) by {
        lemma_is_set_symmetric(a, b, c);
        lemma_sort3_facts(a, b, c);
        lemma_sorted_sets_equal(set, sort3(a, b, c));
        assert(seq![set][0] == set);
    }
    assert forall|x: Card, y: Card|
        cards.contains(x) && cards.contains(y) && x != y && !cards.contains(
            #[trigger] third_card(x, y),
        ) implies exists|i: int|
        0 <= i < Seq::<([Card; 2], Card)>::empty().len() && same_pair(
            #[trigger] Seq::<([Card; 2], Card)>::empty()[i].0,
            x,
            y,
        ) by {
        lemma_set_iff_third(set[0], set[1], set[2]);
        lemma_set_iff_third(set[1], set[0], set[2]);
        lemma_set_iff_third(set[0], set[2], set[1]);
        lemma_set_iff_third(set[2], set[0], set[1]);
        lemma_set_iff_third(set[1], set[2], set[0]);
        lemma_set_iff_third(set[2], set[1], set[0]);
        lemma_is_set_symmetric(set[0], set[1], set[2]);
    }
}

} // verus!
