//! The game board: twelve cards and the six sets among them, and the random
//! generation of a board from the seed of the day.
use vstd::prelude::*;

use crate::rng::{
    pcg32_bool, pcg32_i32_inclusive, pcg32_ratio, pcg32_usize_inclusive, random_bool, random_ratio, random_usize_below,
    random_usize_inclusive, is_seed_of, Draw, SeededRng,
    shuffle_cards, words_to_seed,
};
use crate::state::board_proofs::{
    board_valid, building_inv, entry_valid, lemma_add_card, lemma_building_inv_one_card,
    lemma_building_inv_permuted, lemma_no_new_sets, lemma_pairs_unique_no_duplicates,
};
use crate::state::dealing::{
    Dealing, add_completing_card, add_free_card, after_draws, aspect_count_draws, completing_choice,
    deal_first_six, deal_unshuffled, deal_until_six_sets, dealing, dealt_board, drawn_aspect_count,
    first_card_dealt, has_aspects, pad_to_twelve, redraw_until_free, redraw_until_new,
    redraw_until_present,
};
use crate::state::{
    aspect_draws, day_word, spec_sample_card,
    card_rank, is_set, lemma_card_rank_injective, lemma_is_set_symmetric, third_card, Card, Color,
    Fill, Quantity, Shape,
};

verus! {

// ---------------------------------------------------------------------------
// Sets of three cards as sorted arrays
// ---------------------------------------------------------------------------

/// `card` is one of the three cards of `set`.
pub open spec fn in_set(set: [Card; 3], card: Card) -> bool {
    set[0] == card || set[1] == card || set[2] == card
}

/// The three cards are in the order of the derived `Ord` of cards.
pub open spec fn sorted_set(set: [Card; 3]) -> bool {
    card_rank(set[0]) <= card_rank(set[1]) && card_rank(set[1]) <= card_rank(set[2])
}

/// The three cards sorted in the order of the derived `Ord` of cards.
#[verifier::opaque]
pub open spec fn sort3(a: Card, b: Card, c: Card) -> [Card; 3] {
    if card_rank(a) <= card_rank(b) {
        if card_rank(b) <= card_rank(c) {
            [a, b, c]
        } else if card_rank(a) <= card_rank(c) {
            [a, c, b]
        } else {
            [c, a, b]
        }
    } else {
        if card_rank(a) <= card_rank(c) {
            [b, a, c]
        } else if card_rank(b) <= card_rank(c) {
            [b, c, a]
        } else {
            [c, b, a]
        }
    }
}

/// `sort3` is sorted, holds exactly its three arguments, leaves a sorted triple
/// as it is, and does not depend on the order of its arguments.
pub proof fn lemma_sort3_facts(a: Card, b: Card, c: Card)
    ensures
        sorted_set(sort3(a, b, c)),
        forall|x: Card| in_set(sort3(a, b, c), x) <==> (x == a || x == b || x == c),
        card_rank(a) <= card_rank(b) <= card_rank(c) ==> sort3(a, b, c) == [a, b, c],
        sort3(a, b, c) == sort3(b, a, c),
        sort3(a, b, c) == sort3(a, c, b),
        sort3(a, b, c) == sort3(c, b, a),
        is_set(a, b, c) ==> is_set(sort3(a, b, c)[0], sort3(a, b, c)[1], sort3(a, b, c)[2]),
{
    reveal(sort3);
    lemma_card_rank_injective(a, b);
    lemma_card_rank_injective(a, c);
    lemma_card_rank_injective(b, c);
    lemma_is_set_symmetric(a, b, c);
    assert(sort3(a, b, c) =~= sort3(b, a, c));
    assert(sort3(a, b, c) =~= sort3(a, c, b));
    assert(sort3(a, b, c) =~= sort3(c, b, a));
    if card_rank(a) <= card_rank(b) <= card_rank(c) {
        assert(sort3(a, b, c) =~= [a, b, c]);
    }
}

/// Two triples sorted from a pair and the same third card, which is in neither
/// pair, are equal only when the pairs hold the same two cards.
pub proof fn lemma_sort3_same_pair(pair: [Card; 2], other: [Card; 2], card: Card)
    requires
        sort3(pair[0], pair[1], card) == sort3(other[0], other[1], card),
        pair[0] != card && pair[1] != card && other[0] != card && other[1] != card,
        pair[0] != pair[1],
    ensures
        same_pair(other, pair[0], pair[1]),
{
    lemma_sort3_facts(pair[0], pair[1], card);
    lemma_sort3_facts(other[0], other[1], card);
    let s = sort3(pair[0], pair[1], card);
    assert(in_set(s, pair[0]));
    assert(in_set(s, pair[1]));
    assert(in_set(s, other[0]));
    assert(in_set(s, other[1]));
}

/// Two sorted triples of distinct cards that hold the same cards are equal.
pub proof fn lemma_sorted_sets_equal(s: [Card; 3], t: [Card; 3])
    requires
        sorted_set(s),
        sorted_set(t),
        s[0] != s[1] && s[1] != s[2] && s[0] != s[2],
        forall|x: Card| in_set(s, x) <==> in_set(t, x),
    ensures
        s == t,
{
    lemma_card_rank_injective(s[0], s[1]);
    lemma_card_rank_injective(s[1], s[2]);
    lemma_card_rank_injective(s[0], s[2]);
    lemma_card_rank_injective(t[0], t[1]);
    lemma_card_rank_injective(t[1], t[2]);
    lemma_card_rank_injective(t[0], t[2]);
    assert(in_set(t, s[0]) && in_set(t, s[1]) && in_set(t, s[2]));
    assert(in_set(s, t[0]) && in_set(s, t[1]) && in_set(s, t[2]));
    assert(s =~= t);
}

/// The position of a card in the order of the derived `Ord` of cards.
pub fn card_rank_of(card: &Card) -> (rank: u8)
    ensures
        rank == card_rank(*card),
        rank < 81,
{
    let s: u8 = match card.shape {
        Shape::Diamond => 0,
        Shape::Oval => 1,
        Shape::Squiggle => 2,
    };
    let q: u8 = match card.quantity {
        Quantity::One => 0,
        Quantity::Two => 1,
        Quantity::Three => 2,
    };
    let f: u8 = match card.fill {
        Fill::Empty => 0,
        Fill::Dashed => 1,
        Fill::Filled => 2,
    };
    let c: u8 = match card.color {
        Color::Blue => 0,
        Color::Gold => 1,
        Color::Pink => 2,
    };
    27 * s + 9 * q + 3 * f + c
}

/// Sorts three cards in the order of the derived `Ord` of cards.
pub fn sort_set(set: [Card; 3]) -> (sorted: [Card; 3])
    ensures
        sorted == sort3(set[0], set[1], set[2]),
{
    reveal(sort3);
    let a = set[0];
    let b = set[1];
    let c = set[2];
    let ra = card_rank_of(&a);
    let rb = card_rank_of(&b);
    let rc = card_rank_of(&c);
    if ra <= rb {
        if rb <= rc {
            [a, b, c]
        } else if ra <= rc {
            [a, c, b]
        } else {
            [c, a, b]
        }
    } else {
        if ra <= rc {
            [b, a, c]
        } else if rb <= rc {
            [b, c, a]
        } else {
            [c, b, a]
        }
    }
}

/// Whether two triples hold the same cards in the same order.
pub fn same_triple(first: &[Card; 3], second: &[Card; 3]) -> (same: bool)
    ensures
        same == (*first == *second),
{
    let same = first[0] == second[0] && first[1] == second[1] && first[2] == second[2];
    proof {
        if same {
            assert(*first =~= *second);
        }
    }
    same
}

/// Whether `card` is among `cards`.
pub fn contains_card(cards: &Vec<Card>, card: &Card) -> (found: bool)
    ensures
        found == cards@.contains(*card),
{
    let mut i: usize = 0;
    while i < cards.len()
        invariant
            i <= cards.len(),
            forall|j: int| 0 <= j < i ==> cards@[j] != *card,
        decreases cards.len() - i,
    {
        if cards[i] == *card {
            return true;
        }
        i += 1;
    }
    false
}

/// Whether `set` is among `sets`.
pub fn contains_set(sets: &Vec<[Card; 3]>, set: &[Card; 3]) -> (found: bool)
    ensures
        found == sets@.contains(*set),
{
    let mut i: usize = 0;
    while i < sets.len()
        invariant
            i <= sets.len(),
            forall|j: int| 0 <= j < i ==> sets@[j] != *set,
        decreases sets.len() - i,
    {
        if same_triple(&sets[i], set) {
            return true;
        }
        i += 1;
    }
    false
}

// ---------------------------------------------------------------------------
// Almost complete sets: pairs of cards with the card that would complete them
// ---------------------------------------------------------------------------

/// The pair `pair` holds the two cards `x` and `y`, in either order.
pub open spec fn same_pair(pair: [Card; 2], x: Card, y: Card) -> bool {
    (pair[0] == x && pair[1] == y) || (pair[0] == y && pair[1] == x)
}

/// The new sets that `new_card` completes: for each entry of `almost_complete_sets`
/// whose completing card is `new_card`, in order, the sorted set of its pair and
/// `new_card`, unless that set is among `sets` already.
pub open spec fn spec_new_sets(
    almost_complete_sets: Seq<([Card; 2], Card)>,
    new_card: Card,
    sets: Seq<[Card; 3]>,
) -> Seq<[Card; 3]>
    decreases almost_complete_sets.len(),
{
    if almost_complete_sets.len() == 0 {
        Seq::empty()
    } else {
        let earlier = spec_new_sets(almost_complete_sets.drop_last(), new_card, sets);
        let entry = almost_complete_sets.last();
        let set = sort3(entry.0[0], entry.0[1], new_card);
        if entry.1 == new_card && !sets.contains(set) {
            earlier.push(set)
        } else {
            earlier
        }
    }
}

/// The cards of `cards`, in order, that are in none of `new_sets`.
pub open spec fn spec_other_cards(cards: Seq<Card>, new_sets: Seq<[Card; 3]>) -> Seq<Card>
    decreases cards.len(),
{
    if cards.len() == 0 {
        Seq::empty()
    } else {
        let earlier = spec_other_cards(cards.drop_last(), new_sets);
        if forall|k: int| 0 <= k < new_sets.len() ==> !in_set(#[trigger] new_sets[k], cards.last()) {
            earlier.push(cards.last())
        } else {
            earlier
        }
    }
}

/// The entries that pair `new_card` with each of `others`, with the card that
/// completes each pair.
pub open spec fn spec_pairs_with(new_card: Card, others: Seq<Card>) -> Seq<([Card; 2], Card)> {
    others.map_values(|other: Card| ([new_card, other], third_card(new_card, other)))
}

/// Returns the new sets that would be completed if `new_card` were to be added to the game board's cards.
/// These new sets should not be duplicates of ones we've already completed.
pub(crate) fn get_new_sets(
    new_card: &Card,
    sets: &Vec<[Card; 3]>,
    almost_complete_sets: &Vec<([Card; 2], Card)>,
) -> (new_sets: Vec<[Card; 3]>)
    ensures
        new_sets@ == spec_new_sets(almost_complete_sets@, *new_card, sets@),
{
    let mut new_sets: Vec<[Card; 3]> = Vec::new();
    let mut i: usize = 0;
    while i < almost_complete_sets.len()
        invariant
            i <= almost_complete_sets.len(),
            new_sets@ == spec_new_sets(almost_complete_sets@.take(i as int), *new_card, sets@),
        decreases almost_complete_sets.len() - i,
    {
        let (pair, needed) = almost_complete_sets[i];
        proof {
            assert(almost_complete_sets@.take(i + 1).drop_last() =~= almost_complete_sets@.take(
                i as int,
            ));
        }
        if needed == *new_card {
            let set = sort_set([pair[0], pair[1], *new_card]);
            // This check is redundant with how the board is built but it's better to be safe than sorry.
            if !contains_set(sets, &set) {
                new_sets.push(set);
            }
        }
        i += 1;
    }
    proof {
        assert(almost_complete_sets@.take(almost_complete_sets@.len() as int)
            =~= almost_complete_sets@);
    }
    new_sets
}

/// Removing the entry at `i` by swapping the last one into its place takes one
/// instance of `v[i]` away and leaves every other count as it was.
pub proof fn lemma_swap_remove_count<T>(v: Seq<T>, i: int)
    requires
        0 <= i < v.len(),
    ensures
        forall|e: T|
            #[trigger] v.update(i, v.last()).drop_last().to_multiset().count(e) == v.to_multiset().count(
                e,
            ) - (if v[i] == e {
                1int
            } else {
                0int
            }),
{
    broadcast use vstd::seq_lib::group_to_multiset_ensures;

    let u = v.drop_last();
    let l = v.last();
    assert(v =~= u.push(l));
    if i == v.len() - 1 {
        assert(v.update(i, l).drop_last() =~= u);
    } else {
        let w = u.update(i, l);
        assert(v.update(i, l).drop_last() =~= w);
        assert(w.remove(i) =~= u.remove(i));
        assert(w[i] == l);
    }
}

/// The entries left by scanning `entries` from index `i` on: an entry completed
/// by `card` takes the last entry into its place, which is looked at next.
pub open spec fn spec_remove_completed(entries: Seq<([Card; 2], Card)>, card: Card, i: nat) -> Seq<
    ([Card; 2], Card),
>
    decreases entries.len() - i,
{
    if i >= entries.len() {
        entries
    } else if entries[i as int].1 == card {
        spec_remove_completed(entries.update(i as int, entries.last()).drop_last(), card, i)
    } else {
        spec_remove_completed(entries, card, i + 1)
    }
}

/// Removes any sets that would be completed `almost_complete_sets` with
/// `new_card`: every entry whose third card is `new_card` goes, and every other
/// entry stays as often as it was there. The entries are scanned from the first:
/// a removed entry takes the last one into its place, which is looked at next.
pub(crate) fn remove_completed_sets_with_new_card(
    almost_complete_sets: &mut Vec<([Card; 2], Card)>,
    new_card: &Card,
)
    ensures
        final(almost_complete_sets)@ == spec_remove_completed(old(almost_complete_sets)@, *new_card, 0),
        forall|entry: ([Card; 2], Card)|
            #[trigger] final(almost_complete_sets)@.to_multiset().count(entry) == (if entry.1
                == *new_card {
                0
            } else {
                old(almost_complete_sets)@.to_multiset().count(entry)
            }),
        old(almost_complete_sets)@.no_duplicates() ==> final(almost_complete_sets)@.no_duplicates(),
        forall|entry: ([Card; 2], Card)|
            #[trigger] final(almost_complete_sets)@.contains(entry) <==> (old(
                almost_complete_sets,
            )@.contains(entry) && entry.1 != *new_card),
{
    broadcast use vstd::seq_lib::group_to_multiset_ensures;

    let ghost entries = almost_complete_sets@;
    let mut i: usize = 0;
    while i < almost_complete_sets.len()
        invariant
            i <= almost_complete_sets@.len(),
            forall|k: int| 0 <= k < i ==> (#[trigger] almost_complete_sets@[k]).1 != *new_card,
            forall|entry: ([Card; 2], Card)|
                entry.1 != *new_card ==> #[trigger] almost_complete_sets@.to_multiset().count(entry)
                    == entries.to_multiset().count(entry),
            forall|entry: ([Card; 2], Card)|
                #[trigger] almost_complete_sets@.to_multiset().count(entry)
                    <= entries.to_multiset().count(entry),
            spec_remove_completed(almost_complete_sets@, *new_card, i as nat)
                == spec_remove_completed(entries, *new_card, 0),
        decreases almost_complete_sets@.len() - i,
    {
        if almost_complete_sets[i].1 == *new_card {
            let ghost before = almost_complete_sets@;
            proof {
                lemma_swap_remove_count(before, i as int);
            }
            almost_complete_sets.swap_remove(i);
        } else {
            i += 1;
        }
    }
    let ghost result = almost_complete_sets@;
    assert forall|entry: ([Card; 2], Card)|
        #[trigger] result.to_multiset().count(entry) == (if entry.1 == *new_card {
            0
        } else {
            entries.to_multiset().count(entry)
        }) by {
        if entry.1 == *new_card && result.to_multiset().count(entry) > 0 {
            assert(result.contains(entry));
            let k = choose|k: int| 0 <= k < result.len() && result[k] == entry;
            assert(result[k].1 != *new_card);
        }
    }
    assert forall|entry: ([Card; 2], Card)|
        #[trigger] result.contains(entry) <==> (entries.contains(entry) && entry.1 != *new_card) by {
        assert(result.contains(entry) <==> result.to_multiset().count(entry) > 0);
        assert(entries.contains(entry) <==> entries.to_multiset().count(entry) > 0);
    }
    proof {
        if entries.no_duplicates() {
            entries.lemma_multiset_has_no_duplicates();
            assert forall|x: ([Card; 2], Card)|
                result.to_multiset().contains(x) implies result.to_multiset().count(x) == 1 by {
                assert(entries.to_multiset().count(x) == 1);
            }
            result.lemma_multiset_has_no_duplicates_conv();
        }
    }
}

/// Whether `card` is in none of `sets`.
fn in_no_set(sets: &Vec<[Card; 3]>, card: &Card) -> (none: bool)
    ensures
        none == forall|k: int| 0 <= k < sets@.len() ==> !in_set(#[trigger] sets@[k], *card),
{
    let mut k: usize = 0;
    while k < sets.len()
        invariant
            k <= sets.len(),
            forall|l: int| 0 <= l < k ==> !in_set(#[trigger] sets@[l], *card),
        decreases sets.len() - k,
    {
        let set = sets[k];
        if set[0] == *card || set[1] == *card || set[2] == *card {
            return false;
        }
        k += 1;
    }
    true
}

/// Creates any potential sets that could be completed with `new_card` and adds them
/// to `almost_complete_sets`.
///
/// `new_sets` are the sets that this `new_card` just completed, so the cards in those sets should not be considered.
pub(crate) fn add_new_almost_complete_sets_with_new_card(
    almost_complete_sets: &mut Vec<([Card; 2], Card)>,
    new_card: &Card,
    cards: &Vec<Card>,
    new_sets: &Vec<[Card; 3]>,
)
    ensures
        final(almost_complete_sets)@ == old(almost_complete_sets)@ + spec_pairs_with(
            *new_card,
            spec_other_cards(cards@, new_sets@),
        ),
{
    let mut other_cards: Vec<Card> = Vec::new();
    let mut i: usize = 0;
    while i < cards.len()
        invariant
            i <= cards.len(),
            other_cards@ == spec_other_cards(cards@.take(i as int), new_sets@),
        decreases cards.len() - i,
    {
        proof {
            assert(cards@.take(i + 1).drop_last() =~= cards@.take(i as int));
        }
        if in_no_set(new_sets, &cards[i]) {
            other_cards.push(cards[i]);
        }
        i += 1;
    }
    proof {
        assert(cards@.take(cards@.len() as int) =~= cards@);
    }
    let ghost start = almost_complete_sets@;
    let mut k: usize = 0;
    while k < other_cards.len()
        invariant
            k <= other_cards.len(),
            almost_complete_sets@ == start + spec_pairs_with(
                *new_card,
                other_cards@.take(k as int),
            ),
        decreases other_cards.len() - k,
    {
        let other = other_cards[k];
        let third = find_card_completing_set(*new_card, other);
        almost_complete_sets.push(([*new_card, other], third));
        proof {
            assert(other_cards@.take(k + 1) =~= other_cards@.take(k as int).push(other));
            assert(spec_pairs_with(*new_card, other_cards@.take(k + 1)) =~= spec_pairs_with(
                *new_card,
                other_cards@.take(k as int),
            ).push(([*new_card, other], third)));
        }
        k += 1;
    }
    proof {
        assert(other_cards@.take(other_cards@.len() as int) =~= other_cards@);
    }
}

/// Returns the third card that would complete the set given these two cards.
pub fn find_card_completing_set(first: Card, second: Card) -> (third: Card)
    ensures
        third == third_card(first, second),
        first != second ==> is_set(first, second, third),
{
    let shape = first.shape.get_third_to_complete_set(second.shape);
    let quantity = first.quantity.get_third_to_complete_set(second.quantity);
    let fill = first.fill.get_third_to_complete_set(second.fill);
    let color = first.color.get_third_to_complete_set(second.color);

    Card { shape, quantity, fill, color }
}

/// Number of aspects in which the first two cards differ and the second and
/// the third differ: for a set, the number of aspects that are all different.
pub open spec fn spec_num_all_different_aspects(first_two: [Card; 2], third: Card) -> int {
    (if first_two[0].shape != first_two[1].shape && first_two[1].shape != third.shape {
        1int
    } else {
        0int
    }) + (if first_two[0].quantity != first_two[1].quantity && first_two[1].quantity
        != third.quantity {
        1int
    } else {
        0int
    }) + (if first_two[0].fill != first_two[1].fill && first_two[1].fill != third.fill {
        1int
    } else {
        0int
    }) + (if first_two[0].color != first_two[1].color && first_two[1].color != third.color {
        1int
    } else {
        0int
    })
}

/// Given a set of three cards, it tells you how many of the aspects are all different.
/// Typically, the more aspects that are all different, the more difficult the set may be
/// to spot.
pub fn num_all_different_aspects(first_two: [Card; 2], third: Card) -> (count: usize)
    ensures
        count == spec_num_all_different_aspects(first_two, third),
        count <= 4,
{
    let mut count: usize = 0;

    if first_two[0].shape != first_two[1].shape && first_two[1].shape != third.shape {
        count += 1;
    }
    if first_two[0].quantity != first_two[1].quantity && first_two[1].quantity != third.quantity {
        count += 1;
    }
    if first_two[0].fill != first_two[1].fill && first_two[1].fill != third.fill {
        count += 1;
    }
    if first_two[0].color != first_two[1].color && first_two[1].color != third.color {
        count += 1;
    }
    count
}

// ---------------------------------------------------------------------------
// The game board
// ---------------------------------------------------------------------------

/// Contains the game board - the cards for the game, the sets it contains, and the date.
pub struct GameBoard {
    /// The cards the user tries to make Sets out of.
    pub cards: [Card; 12],
    /// The six sets that exist among the cards, i.e. the answer key.
    ///
    /// Each individual set is sorted.
    sets: [[Card; 3]; 6],
    /// The date of the game for this game board, formatted as "%Y/%m/%d" i.e. 2026/06/30.
    /// This uniquely identifies the game board.
    pub date: String,
}

impl GameBoard {
    /// The answer key of the board.
    pub closed spec fn spec_sets(&self) -> Seq<[Card; 3]> {
        self.sets@
    }

    /// The cards of the board.
    pub closed spec fn spec_cards(&self) -> Seq<Card> {
        self.cards@
    }

    /// The date of the board.
    pub closed spec fn spec_date(&self) -> Seq<char> {
        self.date@
    }

    /// A board from its parts.
    pub(crate) fn from_parts(cards: [Card; 12], sets: [[Card; 3]; 6], date: String) -> (board:
        GameBoard)
        ensures
            board.spec_cards() == cards@,
            board.spec_sets() == sets@,
            board.spec_date() == date@,
            board_valid(cards@, sets@) ==> board.wf(),
    {
        GameBoard { cards, sets, date }
    }

    /// The card at `position` on the board.
    pub fn card_at(&self, position: usize) -> (card: Card)
        requires
            position < 12,
        ensures
            card == self.spec_cards()[position as int],
    {
        self.cards[position]
    }

    /// The date of the board.
    pub fn date(&self) -> (date: &String)
        ensures
            date@ == self.spec_date(),
    {
        &self.date
    }

    /// The board holds twelve distinct cards and, as its answer key, exactly the
    /// six sets among them, each sorted, each once.
    pub closed spec fn wf(&self) -> bool {
        board_valid(self.cards@, self.sets@)
    }

    /// Every board has twelve cards and an answer key of six entries.
    pub proof fn lemma_board_sizes(&self)
        ensures
            self.spec_cards().len() == 12,
            self.spec_sets().len() == 6,
    {
    }

    /// What `wf` means, in terms of the public cards and the answer key.
    pub proof fn lemma_wf(&self)
        ensures
            self.wf() <==> board_valid(self.spec_cards(), self.spec_sets()),
    {
    }

    /// The six sets that exist among the cards, each sorted.
    pub fn sets(&self) -> (sets: &[[Card; 3]; 6])
        ensures
            sets@ == self.spec_sets(),
    {
        &self.sets
    }

    /// Check whether sets contains the guess.
    ///
    /// `guess` must be sorted.
    pub fn contains_guess(&self, guess: &[Card; 3]) -> (found: bool)
        requires
            sorted_set(*guess),
        ensures
            found == self.spec_sets().contains(*guess),
    {
        let mut i: usize = 0;
        while i < 6
            invariant
                i <= 6,
                forall|j: int| 0 <= j < i ==> self.sets@[j] != *guess,
            decreases 6 - i,
        {
            if same_triple(&self.sets[i], guess) {
                return true;
            }
            i += 1;
        }
        false
    }
}

/// Whether some entry of `almost_complete_sets` is completed by `card`.
pub(crate) fn completes_some_entry(almost_complete_sets: &Vec<([Card; 2], Card)>, card: &Card) -> (found:
    bool)
    ensures
        found == exists|i: int|
            0 <= i < almost_complete_sets@.len() && (#[trigger] almost_complete_sets@[i]).1
                == *card,
{
    let mut i: usize = 0;
    while i < almost_complete_sets.len()
        invariant
            i <= almost_complete_sets.len(),
            forall|j: int| 0 <= j < i ==> (#[trigger] almost_complete_sets@[j]).1 != *card,
        decreases almost_complete_sets.len() - i,
    {
        if almost_complete_sets[i].1 == *card {
            return true;
        }
        i += 1;
    }
    false
}

/// Whether some entry of `almost_complete_sets` would give a set in which
/// `count` aspects are all different.
fn has_entry_with_aspects(almost_complete_sets: &Vec<([Card; 2], Card)>, count: usize) -> (found:
    bool)
    ensures
        found == exists|i: int|
            0 <= i < almost_complete_sets@.len() && spec_num_all_different_aspects(
                (#[trigger] almost_complete_sets@[i]).0,
                almost_complete_sets@[i].1,
            ) == count,
{
    let mut i: usize = 0;
    while i < almost_complete_sets.len()
        invariant
            i <= almost_complete_sets.len(),
            forall|j: int|
                0 <= j < i ==> spec_num_all_different_aspects(
                    (#[trigger] almost_complete_sets@[j]).0,
                    almost_complete_sets@[j].1,
                ) != count,
        decreases almost_complete_sets.len() - i,
    {
        let (first_two, third) = almost_complete_sets[i];
        if num_all_different_aspects(first_two, third) == count {
            return true;
        }
        i += 1;
    }
    false
}

/// The entries, in order, whose set would have `count` aspects all different.
pub open spec fn spec_entries_with_aspects(entries: Seq<([Card; 2], Card)>, count: usize) -> Seq<
    ([Card; 2], Card),
>
    decreases entries.len(),
{
    if entries.len() == 0 {
        Seq::empty()
    } else {
        let earlier = spec_entries_with_aspects(entries.drop_last(), count);
        if spec_num_all_different_aspects(entries.last().0, entries.last().1) == count {
            earlier.push(entries.last())
        } else {
            earlier
        }
    }
}

/// The entries of `almost_complete_sets`, in order, that would give a set in
/// which `count` aspects are all different.
fn entries_with_aspects(almost_complete_sets: &Vec<([Card; 2], Card)>, count: usize) -> (picked:
    Vec<([Card; 2], Card)>)
    ensures
        picked@ == spec_entries_with_aspects(almost_complete_sets@, count),
        forall|k: int|
            0 <= k < picked@.len() ==> almost_complete_sets@.contains(#[trigger] picked@[k])
                && spec_num_all_different_aspects(picked@[k].0, picked@[k].1) == count,
        forall|i: int|
            0 <= i < almost_complete_sets@.len() && spec_num_all_different_aspects(
                (#[trigger] almost_complete_sets@[i]).0,
                almost_complete_sets@[i].1,
            ) == count ==> picked@.contains(almost_complete_sets@[i]),
{
    let mut picked: Vec<([Card; 2], Card)> = Vec::new();
    let mut i: usize = 0;
    while i < almost_complete_sets.len()
        invariant
            i <= almost_complete_sets.len(),
            forall|k: int|
                0 <= k < picked@.len() ==> almost_complete_sets@.contains(#[trigger] picked@[k])
                    && spec_num_all_different_aspects(picked@[k].0, picked@[k].1) == count,
            forall|j: int|
                0 <= j < i && spec_num_all_different_aspects(
                    (#[trigger] almost_complete_sets@[j]).0,
                    almost_complete_sets@[j].1,
                ) == count ==> picked@.contains(almost_complete_sets@[j]),
            picked@ == spec_entries_with_aspects(almost_complete_sets@.take(i as int), count),
        decreases almost_complete_sets.len() - i,
    {
        let entry = almost_complete_sets[i];
        let ghost before = picked@;
        proof {
            assert(almost_complete_sets@.take(i + 1).drop_last() =~= almost_complete_sets@.take(
                i as int,
            ));
        }
        if num_all_different_aspects(entry.0, entry.1) == count {
            picked.push(entry);
            proof {
                assert(picked@[picked@.len() - 1] == entry);
                assert forall|j: int|
                    0 <= j < i && spec_num_all_different_aspects(
                        (#[trigger] almost_complete_sets@[j]).0,
                        almost_complete_sets@[j].1,
                    ) == count implies picked@.contains(almost_complete_sets@[j]) by {
                    let q = choose|q: int|
                        0 <= q < before.len() && before[q] == almost_complete_sets@[j];
                    assert(picked@[q] == before[q]);
                }
            }
        }
        i += 1;
    }
    assert(almost_complete_sets@.take(i as int) =~= almost_complete_sets@);
    picked
}

/// How many aspects should be all different in the set that the next card
/// completes, from the two draws: when the first draw (two chances in three)
/// holds, two or three aspects; otherwise one or four. This is the distribution
/// of the sets that `generate_set_with_card` draws.
pub open spec fn spec_num_aspects(two_or_three: bool, coin: bool) -> usize {
    if two_or_three {
        if coin {
            3
        } else {
            2
        }
    } else if coin {
        1
    } else {
        4
    }
}

/// How many aspects should be all different in the set that the next card
/// completes, from the two draws (see `spec_num_aspects`).
pub fn num_aspects_from_draws(two_or_three: bool, coin: bool) -> (count: usize)
    ensures
        count == spec_num_aspects(two_or_three, coin),
{
    if two_or_three {
        if coin {
            3
        } else {
            2
        }
    } else if coin {
        1
    } else {
        4
    }
}

/// Draws how many aspects should be all different in the set that the next card
/// completes: a ratio of two in three, then a coin, mapped by `spec_num_aspects`.
fn draw_num_aspects_different(rng: &mut SeededRng) -> (count: usize)
    ensures
        count == spec_num_aspects(
            pcg32_ratio(old(rng).seed(), old(rng).draws(), 2, 3),
            pcg32_bool(old(rng).seed(), old(rng).draws().push(Draw::Ratio(2, 3))),
        ),
        1 <= count <= 4,
        final(rng).seed() == old(rng).seed(),
        final(rng).draws() == old(rng).draws().push(Draw::Ratio(2, 3)).push(Draw::Bool),
{
    let two_or_three = random_ratio(rng, 2, 3);
    let coin = random_bool(rng);
    num_aspects_from_draws(two_or_three, coin)
}

/// The twelve cards of a vector, as an array.
pub(crate) fn card_array(cards: &Vec<Card>) -> (array: [Card; 12])
    requires
        cards@.len() == 12,
    ensures
        array@ == cards@,
{
    let array = [
        cards[0],
        cards[1],
        cards[2],
        cards[3],
        cards[4],
        cards[5],
        cards[6],
        cards[7],
        cards[8],
        cards[9],
        cards[10],
        cards[11],
    ];
    assert(array@ =~= cards@);
    array
}

/// The six sets of a vector, as an array.
pub(crate) fn set_array(sets: &Vec<[Card; 3]>) -> (array: [[Card; 3]; 6])
    requires
        sets@.len() == 6,
    ensures
        array@ == sets@,
{
    let array = [sets[0], sets[1], sets[2], sets[3], sets[4], sets[5]];
    assert(array@ =~= sets@);
    array
}

/// The most times that a redrawing loop draws again before it gives up (or, for
/// the aspects of a set, takes a fixed choice). The bound makes every redrawing
/// loop finite; it is never reached in practice.
pub const MAX_REJECTED_DRAWS: u64 = 0xffff_ffff_ffff_ffff;

/// The state of a board being dealt, read off its parts.
pub open spec fn dealing_of(
    cards: &Vec<Card>,
    sets: &Vec<[Card; 3]>,
    entries: &Vec<([Card; 2], Card)>,
    rng: &SeededRng,
    left: u64,
) -> Dealing {
    dealing(cards@, sets@, entries@, rng.draws(), left as nat)
}

/// Adds one of the first six cards: a card is drawn until it is not on the
/// board. `false` comes back where it was drawn `MAX_REJECTED_DRAWS` times in
/// vain, and then `deal_first_six` gives `None`.
#[verifier::loop_isolation(false)]
fn deal_one_of_six(
    rng: &mut SeededRng,
    cards: &mut Vec<Card>,
    sets: &mut Vec<[Card; 3]>,
    almost_complete_sets: &mut Vec<([Card; 2], Card)>,
    first_card: Card,
) -> (dealt: bool)
    requires
        1 <= old(cards)@.len() < 6,
        old(cards)@[0] == first_card,
        building_inv(old(cards)@, old(sets)@, old(almost_complete_sets)@),
    ensures
        final(rng).seed() == old(rng).seed(),
        dealt ==> final(cards)@.len() == old(cards)@.len() + 1,
        dealt ==> final(cards)@[0] == first_card,
        dealt ==> building_inv(final(cards)@, final(sets)@, final(almost_complete_sets)@),
        dealt ==> deal_first_six(
            old(rng).seed(),
            dealing_of(final(cards), final(sets), final(almost_complete_sets), final(rng), MAX_REJECTED_DRAWS),
        ) == deal_first_six(
            old(rng).seed(),
            dealing_of(old(cards), old(sets), old(almost_complete_sets), old(rng), MAX_REJECTED_DRAWS),
        ),
        !dealt ==> deal_first_six(
            old(rng).seed(),
            dealing_of(old(cards), old(sets), old(almost_complete_sets), old(rng), MAX_REJECTED_DRAWS),
        ) is None,
{
    let ghost seed = rng.seed();
    let ghost st = dealing_of(cards, sets, almost_complete_sets, rng, MAX_REJECTED_DRAWS);
    let mut new_card = first_card;
    let mut tries: u64 = MAX_REJECTED_DRAWS;
    while contains_card(cards, &new_card)
        invariant
            rng.seed() == seed,
            cards@ == st.cards,
            redraw_until_new(seed, cards@, rng.draws(), tries as nat, new_card) == redraw_until_new(
                seed,
                st.cards,
                st.draws,
                MAX_REJECTED_DRAWS as nat,
                first_card,
            ),
        decreases tries,
    {
        if tries == 0 {
            return false;
        }
        tries -= 1;
        new_card = Card::sample(rng);
    }
    let ghost cards_before = cards@;
    let ghost sets_before = sets@;
    let ghost entries_before = almost_complete_sets@;
    proof {
        lemma_pairs_unique_no_duplicates(almost_complete_sets@);
    }
    let mut new_sets = get_new_sets(&new_card, sets, almost_complete_sets);
    remove_completed_sets_with_new_card(almost_complete_sets, &new_card);
    let ghost remaining = almost_complete_sets@;
    add_new_almost_complete_sets_with_new_card(almost_complete_sets, &new_card, cards, &new_sets);
    // Update cards and sets with the new additions.
    cards.push(new_card);
    sets.append(&mut new_sets);
    proof {
        lemma_add_card(cards_before, sets_before, entries_before, new_card, remaining);
        assert(dealing_of(cards, sets, almost_complete_sets, rng, MAX_REJECTED_DRAWS)
            == add_completing_card(after_draws(st, rng.draws(), st.left), new_card));
    }
    true
}

/// Adds a card while the board has fewer than six sets, or turns a candidate
/// down. `false` comes back where `deal_until_six_sets` gives `None`.
#[verifier::rlimit(100)]
#[verifier::loop_isolation(false)]
fn deal_toward_six_sets(
    rng: &mut SeededRng,
    cards: &mut Vec<Card>,
    sets: &mut Vec<[Card; 3]>,
    almost_complete_sets: &mut Vec<([Card; 2], Card)>,
    draws_left: &mut u64,
) -> (dealt: bool)
    requires
        1 <= old(cards)@.len() <= 12,
        old(cards)@.len() + 6 <= 12 + old(sets)@.len(),
        old(sets)@.len() < 6,
        building_inv(old(cards)@, old(sets)@, old(almost_complete_sets)@),
    ensures
        final(rng).seed() == old(rng).seed(),
        dealt ==> 1 <= final(cards)@.len() <= 12,
        dealt ==> final(cards)@.len() + 6 <= 12 + final(sets)@.len(),
        dealt ==> building_inv(final(cards)@, final(sets)@, final(almost_complete_sets)@),
        dealt ==> final(cards)@.len() > old(cards)@.len() || (final(cards)@.len() == old(
            cards,
        )@.len() && *final(draws_left) < *old(draws_left)),
        dealt ==> deal_until_six_sets(
            old(rng).seed(),
            dealing_of(final(cards), final(sets), final(almost_complete_sets), final(rng), *final(draws_left)),
        ) == deal_until_six_sets(
            old(rng).seed(),
            dealing_of(old(cards), old(sets), old(almost_complete_sets), old(rng), *old(draws_left)),
        ),
        !dealt ==> deal_until_six_sets(
            old(rng).seed(),
            dealing_of(old(cards), old(sets), old(almost_complete_sets), old(rng), *old(draws_left)),
        ) is None,
{
    let ghost seed = rng.seed();
    let ghost st = dealing_of(cards, sets, almost_complete_sets, rng, *draws_left);
    let must_create_set = 12 - cards.len() == 6 - sets.len();
    let complete_a_set = if must_create_set {
        true
    } else {
        random_bool(rng)
    };
    let ghost after_choice = rng.draws();
    assert(completing_choice(seed, st) == (complete_a_set, after_choice));
    let ghost cards_before = cards@;
    let ghost sets_before = sets@;
    let ghost entries_before = almost_complete_sets@;
    proof {
        lemma_pairs_unique_no_duplicates(almost_complete_sets@);
    }
    let mut new_card = cards[0];
    let mut new_sets: Vec<[Card; 3]> = Vec::new();
    if complete_a_set {
        // The number of cards left to add is equal to the number of sets we have to create.
        // Or, we randomly decided to add a card that completes a set.
        // The first new set we complete must conform to the distribution in
        // `num_aspects_from_draws`. This is to ensure some degree of difficulty.
        let num_aspects_different_present: [bool; 4] = [
            has_entry_with_aspects(almost_complete_sets, 1),
            has_entry_with_aspects(almost_complete_sets, 2),
            has_entry_with_aspects(almost_complete_sets, 3),
            has_entry_with_aspects(almost_complete_sets, 4),
        ];
        let mut num_aspects_different = draw_num_aspects_different(rng);
        let mut tries: u64 = MAX_REJECTED_DRAWS;
        while !num_aspects_different_present[num_aspects_different - 1]
            invariant
                1 <= num_aspects_different <= 4,
                rng.seed() == seed,
                forall|k: int|
                    0 <= k < 4 ==> num_aspects_different_present[k] == has_aspects(
                        st.entries,
                        (k + 1) as usize,
                    ),
                redraw_until_present(seed, st.entries, rng.draws(), tries as nat, num_aspects_different)
                    == redraw_until_present(
                    seed,
                    st.entries,
                    aspect_count_draws(after_choice),
                    MAX_REJECTED_DRAWS as nat,
                    drawn_aspect_count(seed, after_choice),
                ),
            decreases tries,
        {
            if tries == 0 {
                return false;
            }
            tries -= 1;
            num_aspects_different = draw_num_aspects_different(rng);
        }
        let sets_to_pick_from = entries_with_aspects(almost_complete_sets, num_aspects_different);
        proof {
            let i = choose|i: int|
                0 <= i < almost_complete_sets@.len() && spec_num_all_different_aspects(
                    (#[trigger] almost_complete_sets@[i]).0,
                    almost_complete_sets@[i].1,
                ) == num_aspects_different;
            assert(sets_to_pick_from@.contains(almost_complete_sets@[i]));
        }
        let sets_index = random_usize_below(rng, 0, sets_to_pick_from.len());
        let candidate = sets_to_pick_from[sets_index].1;
        proof {
            let entry = sets_to_pick_from@[sets_index as int];
            assert(almost_complete_sets@.contains(entry));
            let i = choose|i: int|
                0 <= i < almost_complete_sets@.len() && almost_complete_sets@[i] == entry;
            assert(entry_valid(cards@, almost_complete_sets@[i]));
        }
        let candidate_sets = get_new_sets(&candidate, sets, almost_complete_sets);
        if candidate_sets.len() > 6 - sets.len() || (must_create_set && candidate_sets.len() == 0) {
            // re-roll. This card either completes more sets than we need or
            // does not complete a set we need.
            if *draws_left == 0 {
                return false;
            }
            *draws_left = *draws_left - 1;
            assert(dealing_of(cards, sets, almost_complete_sets, rng, *draws_left) == after_draws(
                st,
                rng.draws(),
                (st.left - 1) as nat,
            ));
            return true;
        }
        remove_completed_sets_with_new_card(almost_complete_sets, &candidate);
        new_card = candidate;
        new_sets = candidate_sets;
    } else {
        // Add a random card that will NOT complete a set.
        let mut card = cards[0];
        let mut tries: u64 = MAX_REJECTED_DRAWS;
        while contains_card(cards, &card) || completes_some_entry(almost_complete_sets, &card)
            invariant
                rng.seed() == seed,
                cards@ == st.cards,
                almost_complete_sets@ == st.entries,
                redraw_until_free(seed, st.cards, st.entries, rng.draws(), tries as nat, card)
                    == redraw_until_free(
                    seed,
                    st.cards,
                    st.entries,
                    after_choice,
                    MAX_REJECTED_DRAWS as nat,
                    st.cards[0],
                ),
            decreases tries,
        {
            if tries == 0 {
                return false;
            }
            tries -= 1;
            card = Card::sample(rng);
        }
        new_card = card;
        proof {
            lemma_no_new_sets(almost_complete_sets@, new_card, sets@);
            assert(new_sets@ =~= Seq::<[Card; 3]>::empty());
        }
    }
    let ghost remaining = almost_complete_sets@;
    add_new_almost_complete_sets_with_new_card(almost_complete_sets, &new_card, cards, &new_sets);
    // Update cards and sets with the new additions.
    cards.push(new_card);
    sets.append(&mut new_sets);
    proof {
        lemma_add_card(cards_before, sets_before, entries_before, new_card, remaining);
        if complete_a_set {
            assert(dealing_of(cards, sets, almost_complete_sets, rng, *draws_left)
                == add_completing_card(after_draws(st, rng.draws(), st.left), new_card));
        } else {
            assert(sets_before + Seq::<[Card; 3]>::empty() =~= sets_before);
            assert(dealing_of(cards, sets, almost_complete_sets, rng, *draws_left) == add_free_card(
                after_draws(st, rng.draws(), st.left),
                new_card,
            ));
        }
    }
    true
}

/// Draws a card and adds it where it is new and completes nothing; otherwise
/// counts a rejected draw. `false` comes back where `pad_to_twelve` gives `None`.
pub(crate) fn pad_one(
    rng: &mut SeededRng,
    cards: &mut Vec<Card>,
    sets: &Vec<[Card; 3]>,
    almost_complete_sets: &mut Vec<([Card; 2], Card)>,
    draws_left: &mut u64,
) -> (dealt: bool)
    requires
        old(cards)@.len() < 12,
        building_inv(old(cards)@, sets@, old(almost_complete_sets)@),
    ensures
        final(rng).seed() == old(rng).seed(),
        dealt ==> building_inv(final(cards)@, sets@, final(almost_complete_sets)@),
        dealt ==> final(cards)@.len() == old(cards)@.len() + 1 || (final(cards)@.len() == old(
            cards,
        )@.len() && *final(draws_left) < *old(draws_left)),
        dealt ==> pad_to_twelve(
            old(rng).seed(),
            dealing_of(final(cards), sets, final(almost_complete_sets), final(rng), *final(draws_left)),
        ) == pad_to_twelve(
            old(rng).seed(),
            dealing_of(old(cards), sets, old(almost_complete_sets), old(rng), *old(draws_left)),
        ),
        !dealt ==> pad_to_twelve(
            old(rng).seed(),
            dealing_of(old(cards), sets, old(almost_complete_sets), old(rng), *old(draws_left)),
        ) is None,
{
    let ghost st = dealing_of(cards, sets, almost_complete_sets, rng, *draws_left);
    let card = Card::sample(rng);
    if !contains_card(cards, &card) && !completes_some_entry(almost_complete_sets, &card) {
        let ghost cards_before = cards@;
        let ghost entries_before = almost_complete_sets@;
        let no_sets: Vec<[Card; 3]> = Vec::new();
        proof {
            lemma_pairs_unique_no_duplicates(almost_complete_sets@);
            lemma_no_new_sets(almost_complete_sets@, card, sets@);
            assert(no_sets@ =~= Seq::<[Card; 3]>::empty());
        }
        add_new_almost_complete_sets_with_new_card(almost_complete_sets, &card, cards, &no_sets);
        cards.push(card);
        proof {
            lemma_add_card(cards_before, sets@, entries_before, card, entries_before);
            assert(sets@ + Seq::<[Card; 3]>::empty() =~= sets@);
            assert(dealing_of(cards, sets, almost_complete_sets, rng, *draws_left) == add_free_card(
                after_draws(st, rng.draws(), st.left),
                card,
            ));
        }
        true
    } else {
        if *draws_left == 0 {
            return false;
        }
        *draws_left = *draws_left - 1;
        assert(dealing_of(cards, sets, almost_complete_sets, rng, *draws_left) == after_draws(
            st,
            rng.draws(),
            (st.left - 1) as nat,
        ));
        true
    }
}

/// Generates the cards and the answer key of a board from `seed`.
///
/// The first six cards are random. Further cards are either random cards that
/// complete no set, or cards that complete one of the pairs on the board, the
/// completed set having as many aspects all different as
/// `num_aspects_from_draws` picks. The board has twelve cards and exactly six
/// sets. What comes back is `dealt_board(seed)`: the draws are fixed by the
/// seed, so one seed always deals one board. `None` comes back only where a
/// loop redrew `MAX_REJECTED_DRAWS` times in a row, or candidates were turned
/// down and padding cards redrawn that many times in all.
#[verifier::loop_isolation(false)]
pub fn initialize_cards(seed: [u8; 16]) -> (board: Option<([Card; 12], [[Card; 3]; 6])>)
    ensures
        board is Some <==> dealt_board(seed) is Some,
        board matches Some(b) ==> dealt_board(seed) == Some((b.0@, b.1@)),
        board matches Some(b) ==> board_valid(b.0@, b.1@),
{
    let mut rng = SeededRng::from_seed(seed);
    let mut draws_left: u64 = MAX_REJECTED_DRAWS;
    let mut cards: Vec<Card> = Vec::new();
    let mut sets: Vec<[Card; 3]> = Vec::new();

    // Randomly generate the first six cards without any care about the distribution
    // of the type of sets. The cards are randomly chosen so it should be fine.
    let first_card = Card::sample(&mut rng);
    cards.push(first_card);
    let mut almost_complete_sets: Vec<([Card; 2], Card)> = Vec::new();
    proof {
        lemma_building_inv_one_card(first_card);
        assert(cards@ =~= seq![first_card]);
        assert(sets@ =~= Seq::<[Card; 3]>::empty());
        assert(almost_complete_sets@ =~= Seq::<([Card; 2], Card)>::empty());
        assert(dealing_of(&cards, &sets, &almost_complete_sets, &rng, draws_left)
            == first_card_dealt(seed));
    }
    let mut round: usize = 1;
    while round <= 5
        invariant
            1 <= round <= 6,
            cards@.len() == round,
            cards@[0] == first_card,
            building_inv(cards@, sets@, almost_complete_sets@),
            rng.seed() == seed,
            draws_left == MAX_REJECTED_DRAWS,
            deal_first_six(seed, dealing_of(&cards, &sets, &almost_complete_sets, &rng, draws_left))
                == deal_first_six(seed, first_card_dealt(seed)),
        decreases 6 - round,
    {
        if !deal_one_of_six(&mut rng, &mut cards, &mut sets, &mut almost_complete_sets, first_card) {
            return None;
        }
        round += 1;
    }
    let ghost six = dealing_of(&cards, &sets, &almost_complete_sets, &rng, draws_left);
    assert(deal_first_six(seed, first_card_dealt(seed)) == Some(six));

    while sets.len() < 6
        invariant
            1 <= cards@.len() <= 12,
            cards@.len() + 6 <= 12 + sets@.len(),
            building_inv(cards@, sets@, almost_complete_sets@),
            rng.seed() == seed,
            deal_until_six_sets(seed, dealing_of(&cards, &sets, &almost_complete_sets, &rng, draws_left))
                == deal_until_six_sets(seed, six),
        decreases 12 - cards@.len(), draws_left,
    {
        if !deal_toward_six_sets(
            &mut rng,
            &mut cards,
            &mut sets,
            &mut almost_complete_sets,
            &mut draws_left,
        ) {
            return None;
        }
    }
    let ghost six_sets = dealing_of(&cards, &sets, &almost_complete_sets, &rng, draws_left);
    assert(deal_until_six_sets(seed, six) == Some(six_sets));

    // The while loop ensures that we will have 6 sets by this point, but
    // it will not ensure that we have enough cards.
    // Have to pad with new cards that are:
    // - Not duplicates
    // - Won't complete any set inadvertently
    while cards.len() < 12
        invariant
            cards@.len() <= 12,
            building_inv(cards@, sets@, almost_complete_sets@),
            rng.seed() == seed,
            pad_to_twelve(seed, dealing_of(&cards, &sets, &almost_complete_sets, &rng, draws_left))
                == pad_to_twelve(seed, six_sets),
        decreases 12 - cards@.len(), draws_left,
    {
        if !pad_one(&mut rng, &mut cards, &sets, &mut almost_complete_sets, &mut draws_left) {
            return None;
        }
    }
    let ghost unshuffled = dealing_of(&cards, &sets, &almost_complete_sets, &rng, draws_left);
    assert(pad_to_twelve(seed, six_sets) == Some(unshuffled));
    assert(deal_unshuffled(seed) == Some(unshuffled));
    shuffle_cards(&mut cards, &mut rng);
    proof {
        lemma_building_inv_permuted(unshuffled.cards, cards@, sets@, almost_complete_sets@);
    }
    if cards.len() != 12 || sets.len() != 6 {
        return None;
    }
    Some((card_array(&cards), set_array(&sets)))
}

/// The board that `seed` deals, for `date`: `dealt_board(seed)` as a board.
pub fn board_from_seed(date: String, seed: [u8; 16]) -> (board: Option<GameBoard>)
    ensures
        board is Some <==> dealt_board(seed) is Some,
        board matches Some(b) ==> dealt_board(seed) == Some((b.spec_cards(), b.spec_sets())),
        board matches Some(b) ==> b.wf() && b.spec_date() == date@,
{
    match initialize_cards(seed) {
        Some((cards, sets)) => Some(GameBoard::from_parts(cards, sets, date)),
        None => None,
    }
}

/// Whether a board is dealt, and which, depends on the seed alone: two boards
/// dealt from one seed hold the same cards in the same order and the same
/// answer key.
pub proof fn lemma_one_seed_one_board(seed: [u8; 16], first: GameBoard, second: GameBoard)
    requires
        dealt_board(seed) == Some((first.spec_cards(), first.spec_sets())),
        dealt_board(seed) == Some((second.spec_cards(), second.spec_sets())),
    ensures
        first.spec_cards() == second.spec_cards(),
        first.spec_sets() == second.spec_sets(),
{
}

/// Initializes the game board of the day.
///
/// The game changes seeds every day: the seed is made of the year and the day
/// of the year, the latter shifted left by one bit since Pcg32 drops the last
/// bit from the seed (`seed_words`). The words become the seed's bytes in the
/// machine's byte order, and the board is the one that seed deals.
pub fn init_game_board(date: String, year: u64, day_of_year: u64) -> (board: Option<GameBoard>)
    ensures
        exists|seed: [u8; 16]|
            is_seed_of(seed, year, day_word(day_of_year)) && (board is Some <==> #[trigger] dealt_board(
                seed,
            ) is Some) && (board matches Some(b) ==> dealt_board(seed) == Some(
                (b.spec_cards(), b.spec_sets()),
            )),
        board matches Some(b) ==> b.wf() && b.spec_date() == date@,
{
    let seed = words_to_seed(crate::state::seed_words(year, day_of_year));
    let board = board_from_seed(date, seed);
    assert(is_seed_of(seed, year, day_word(day_of_year)) && (board is Some <==> dealt_board(seed)
        is Some) && (board matches Some(b) ==> dealt_board(seed) == Some(
        (b.spec_cards(), b.spec_sets()),
    )));
    board
}

/// Which aspects of a drawn set stay the same as the first card's, from the
/// draws: `two_or_three` (two chances in three) and `coin` choose how many
/// aspects differ, `first` and `second` which. Three differ: all but `first`.
/// Two: `first` and `second`. One: `first`. Four: all of them.
pub open spec fn spec_same_aspects(two_or_three: bool, coin: bool, first: usize, second: usize) -> Seq<
    bool,
> {
    if two_or_three {
        if coin {
            seq![first == 0, first == 1, first == 2, first == 3]
        } else {
            seq![
                first != 0 && second != 0,
                first != 1 && second != 1,
                first != 2 && second != 2,
                first != 3 && second != 3,
            ]
        }
    } else if coin {
        seq![first != 0, first != 1, first != 2, first != 3]
    } else {
        seq![false, false, false, false]
    }
}

/// How many aspects differ: the number of aspects that do not stay the same.
pub open spec fn num_differing(same: Seq<bool>) -> int {
    (if same[0] { 0int } else { 1int }) + (if same[1] { 0int } else { 1int }) + (if same[2] {
        0int
    } else {
        1int
    }) + (if same[3] { 0int } else { 1int })
}

/// Not all aspects of a drawn set stay the same, and two or three of them differ
/// exactly when the first draw held.
pub proof fn lemma_same_aspects_count(two_or_three: bool, coin: bool, first: usize, second: usize)
    requires
        first <= 3,
        second <= 3,
        two_or_three && !coin ==> first != second,
    ensures
        spec_same_aspects(two_or_three, coin, first, second).len() == 4,
        !(spec_same_aspects(two_or_three, coin, first, second)[0] && spec_same_aspects(
            two_or_three,
            coin,
            first,
            second,
        )[1] && spec_same_aspects(two_or_three, coin, first, second)[2] && spec_same_aspects(
            two_or_three,
            coin,
            first,
            second,
        )[3]),
        (2 <= num_differing(spec_same_aspects(two_or_three, coin, first, second)) <= 3)
            <==> two_or_three,
{
}

/// Which aspects of a drawn set stay the same, from the draws made (see
/// `spec_same_aspects`).
pub fn same_aspects_from_draws(two_or_three: bool, coin: bool, first: usize, second: usize) -> (same:
    [bool; 4])
    requires
        first <= 3,
        second <= 3,
    ensures
        same@ == spec_same_aspects(two_or_three, coin, first, second),
{
    let mut bools = [true, true, true, true];
    if two_or_three {
        if coin {
            // 3 aspects will be different.
            bools = [false, false, false, false];
            bools[first] = true;
        } else {
            // 2 aspects will be different.
            bools[first] = false;
            bools[second] = false;
        }
    } else if coin {
        // 1 aspect will be different.
        bools[first] = false;
    } else {
        bools = [false, false, false, false];
    }
    assert(bools@ =~= spec_same_aspects(two_or_three, coin, first, second));
    bools
}

/// The aspect taken as the second one to differ when every redraw gave the first.
pub open spec fn fallback_second(first: usize) -> usize {
    if first == 3 {
        0
    } else {
        (first + 1) as usize
    }
}

/// The second index that the redrawing gives, and the draws after it: while it
/// equals `first` and redraws are `left`, a new index is drawn from `0..=3`.
pub open spec fn redrawn_second(
    seed: [u8; 16],
    draws: Seq<Draw>,
    first: usize,
    second: usize,
    left: nat,
) -> (usize, Seq<Draw>)
    decreases left,
{
    if second == first && left > 0 {
        redrawn_second(
            seed,
            draws.push(Draw::UsizeInclusive(0, 3)),
            first,
            pcg32_usize_inclusive(seed, draws, 0, 3),
            (left - 1) as nat,
        )
    } else {
        (second, draws)
    }
}

/// What `draw_same_aspects` gives from a generator seeded with `seed` after
/// `draws`, and the draws after it: a `2/3` ratio, a coin, then, unless both
/// failed, an index from `0..=3`; where exactly two aspects differ, the second
/// index is redrawn until it is not the first.
pub open spec fn spec_draw_same_aspects(seed: [u8; 16], draws: Seq<Draw>) -> (Seq<bool>, Seq<Draw>) {
    let two_or_three = pcg32_ratio(seed, draws, 2, 3);
    let after_ratio = draws.push(Draw::Ratio(2, 3));
    let coin = pcg32_bool(seed, after_ratio);
    let after_coin = after_ratio.push(Draw::Bool);
    let first = pcg32_usize_inclusive(seed, after_coin, 0, 3);
    let after_first = after_coin.push(Draw::UsizeInclusive(0, 3));
    if !two_or_three && !coin {
        (spec_same_aspects(false, false, 0, 0), after_coin)
    } else if two_or_three && !coin {
        let redrawn = redrawn_second(seed, after_first, first, first, MAX_REJECTED_DRAWS as nat);
        let second = if redrawn.0 == first {
            fallback_second(first)
        } else {
            redrawn.0
        };
        (spec_same_aspects(true, false, first, second), redrawn.1)
    } else {
        (spec_same_aspects(two_or_three, coin, first, first), after_first)
    }
}

/// Whether the aspect of the second and third cards stays the same as the first
/// card's, per aspect, when a set is drawn: two thirds of the time two or three
/// aspects differ, otherwise one or four. Where two aspects differ, the second
/// one is redrawn until it is not the first; should all `MAX_REJECTED_DRAWS`
/// redraws give the first again, the aspect after it is taken.
fn draw_same_aspects(rng: &mut SeededRng) -> (same: [bool; 4])
    ensures
        same@ == spec_draw_same_aspects(old(rng).seed(), old(rng).draws()).0,
        final(rng).seed() == old(rng).seed(),
        final(rng).draws() == spec_draw_same_aspects(old(rng).seed(), old(rng).draws()).1,
        !(same[0] && same[1] && same[2] && same[3]),
        (2 <= num_differing(same@) <= 3) <==> pcg32_ratio(old(rng).seed(), old(rng).draws(), 2, 3),
{
    let ghost seed = rng.seed();
    // Decide how the next two cards in the same set should be chosen
    let two_or_three_aspects_different = random_ratio(rng, 2, 3);
    let coin = random_bool(rng);
    if !two_or_three_aspects_different && !coin {
        // four aspects will be different
        proof {
            lemma_same_aspects_count(false, false, 0, 0);
        }
        return same_aspects_from_draws(false, false, 0, 0);
    }
    let first_index = random_usize_inclusive(rng, 0, 3);
    if two_or_three_aspects_different && !coin {
        // 2 aspects will be different.
        let ghost after_first = rng.draws();
        let mut second_index = first_index;
        let mut draws_left: u64 = MAX_REJECTED_DRAWS;
        while second_index == first_index && draws_left > 0
            invariant
                second_index <= 3,
                first_index <= 3,
                rng.seed() == seed,
                redrawn_second(seed, rng.draws(), first_index, second_index, draws_left as nat)
                    == redrawn_second(
                    seed,
                    after_first,
                    first_index,
                    first_index,
                    MAX_REJECTED_DRAWS as nat,
                ),
            decreases draws_left,
        {
            draws_left -= 1;
            second_index = random_usize_inclusive(rng, 0, 3);
        }
        if second_index == first_index {
            second_index = if first_index == 3 {
                0
            } else {
                first_index + 1
            };
        }
        proof {
            lemma_same_aspects_count(true, false, first_index, second_index);
        }
        same_aspects_from_draws(true, false, first_index, second_index)
    } else {
        // 3 aspects or 1 aspect will be different.
        proof {
            lemma_same_aspects_count(two_or_three_aspects_different, coin, first_index, first_index);
        }
        same_aspects_from_draws(two_or_three_aspects_different, coin, first_index, first_index)
    }
}

/// The second and third cards of a set with `card`: each aspect flagged as the
/// same keeps the card's value, every other aspect takes the two other values.
pub fn complete_set_with_card(
    card: Card,
    same: [bool; 4],
    shapes: (Shape, Shape),
    quantities: (Quantity, Quantity),
    fills: (Fill, Fill),
    colors: (Color, Color),
) -> (set: [Card; 3])
    requires
        !same[0] ==> shapes.0 != card.shape && shapes.1 != card.shape && shapes.0 != shapes.1,
        !same[1] ==> quantities.0 != card.quantity && quantities.1 != card.quantity
            && quantities.0 != quantities.1,
        !same[2] ==> fills.0 != card.fill && fills.1 != card.fill && fills.0 != fills.1,
        !same[3] ==> colors.0 != card.color && colors.1 != card.color && colors.0 != colors.1,
        !(same[0] && same[1] && same[2] && same[3]),
    ensures
        set[0] == card,
        set[1].shape == (if same[0] { card.shape } else { shapes.0 }),
        set[2].shape == (if same[0] { card.shape } else { shapes.1 }),
        set[1].quantity == (if same[1] { card.quantity } else { quantities.0 }),
        set[2].quantity == (if same[1] { card.quantity } else { quantities.1 }),
        set[1].fill == (if same[2] { card.fill } else { fills.0 }),
        set[2].fill == (if same[2] { card.fill } else { fills.1 }),
        set[1].color == (if same[3] { card.color } else { colors.0 }),
        set[2].color == (if same[3] { card.color } else { colors.1 }),
        is_set(set[0], set[1], set[2]),
{
    // For each aspect, the cards have to either be all the same or all different in that given aspect.
    let (second_card_shape, third_card_shape) = if same[0] {
        (card.shape, card.shape)
    } else {
        shapes
    };
    let (second_card_quantity, third_card_quantity) = if same[1] {
        (card.quantity, card.quantity)
    } else {
        quantities
    };
    let (second_card_fill, third_card_fill) = if same[2] {
        (card.fill, card.fill)
    } else {
        fills
    };
    let (second_card_color, third_card_color) = if same[3] {
        (card.color, card.color)
    } else {
        colors
    };
    let second_card = Card {
        shape: second_card_shape,
        quantity: second_card_quantity,
        fill: second_card_fill,
        color: second_card_color,
    };
    let third_card = Card {
        shape: third_card_shape,
        quantity: third_card_quantity,
        fill: third_card_fill,
        color: third_card_color,
    };
    [card, second_card, third_card]
}

/// The shapes of the second and third cards of a set with `card`: the card's
/// own shape twice where it stays, otherwise the two others in the order that
/// the next draw picks; and the draws after.
pub open spec fn drawn_shapes(seed: [u8; 16], draws: Seq<Draw>, card: Card, same: bool) -> ((Shape, Shape), Seq<Draw>) {
    if same {
        ((card.shape, card.shape), draws)
    } else {
        (
            Shape::spec_others(card.shape, pcg32_i32_inclusive(seed, draws, 0, 1)),
            draws.push(Draw::I32Inclusive(0, 1)),
        )
    }
}

/// The quantities of the second and third cards, as `drawn_shapes` does.
pub open spec fn drawn_quantities(seed: [u8; 16], draws: Seq<Draw>, card: Card, same: bool) -> ((Quantity, Quantity), Seq<Draw>) {
    if same {
        ((card.quantity, card.quantity), draws)
    } else {
        (
            Quantity::spec_others(card.quantity, pcg32_i32_inclusive(seed, draws, 0, 1)),
            draws.push(Draw::I32Inclusive(0, 1)),
        )
    }
}

/// The fills of the second and third cards, as `drawn_shapes` does.
pub open spec fn drawn_fills(seed: [u8; 16], draws: Seq<Draw>, card: Card, same: bool) -> ((Fill, Fill), Seq<Draw>) {
    if same {
        ((card.fill, card.fill), draws)
    } else {
        (
            Fill::spec_others(card.fill, pcg32_i32_inclusive(seed, draws, 0, 1)),
            draws.push(Draw::I32Inclusive(0, 1)),
        )
    }
}

/// The colors of the second and third cards, as `drawn_shapes` does.
pub open spec fn drawn_colors(seed: [u8; 16], draws: Seq<Draw>, card: Card, same: bool) -> ((Color, Color), Seq<Draw>) {
    if same {
        ((card.color, card.color), draws)
    } else {
        (
            Color::spec_others(card.color, pcg32_i32_inclusive(seed, draws, 0, 1)),
            draws.push(Draw::I32Inclusive(0, 1)),
        )
    }
}

/// The set with `card` whose aspects stay the same as `same` says, the values of
/// the other aspects drawn after `draws` in the order shape, quantity, fill,
/// color; and the draws after them.
pub open spec fn set_from_aspects(seed: [u8; 16], draws: Seq<Draw>, card: Card, same: Seq<bool>) -> (Seq<Card>, Seq<Draw>) {
    let shapes = drawn_shapes(seed, draws, card, same[0]);
    let quantities = drawn_quantities(seed, shapes.1, card, same[1]);
    let fills = drawn_fills(seed, quantities.1, card, same[2]);
    let colors = drawn_colors(seed, fills.1, card, same[3]);
    (
        seq![
            card,
            Card { shape: shapes.0.0, quantity: quantities.0.0, fill: fills.0.0, color: colors.0.0 },
            Card { shape: shapes.0.1, quantity: quantities.0.1, fill: fills.0.1, color: colors.0.1 },
        ],
        colors.1,
    )
}

/// The set that `generate_set_with_card` draws with `card` from a generator
/// seeded with `seed` after `draws`, and the draws after it: which aspects stay
/// the same (`spec_draw_same_aspects`), then the other values of the others.
pub open spec fn spec_set_with_card(seed: [u8; 16], draws: Seq<Draw>, card: Card) -> (Seq<Card>, Seq<Draw>) {
    let same = spec_draw_same_aspects(seed, draws);
    set_from_aspects(seed, same.1, card, same.0)
}

/// Randomly generates a Set of cards containing the provided `card`: two thirds
/// of the time two or three aspects are all different, otherwise one or four.
/// The set starts with `card`; which aspects stay the same is what
/// `draw_same_aspects` draws first.
pub fn generate_set_with_card(rng: &mut SeededRng, card: Card) -> (set: [Card; 3])
    ensures
        set[0] == card,
        is_set(set[0], set[1], set[2]),
        (set[1].shape == card.shape) == spec_draw_same_aspects(old(rng).seed(), old(rng).draws()).0[0],
        (set[1].quantity == card.quantity) == spec_draw_same_aspects(
            old(rng).seed(),
            old(rng).draws(),
        ).0[1],
        (set[1].fill == card.fill) == spec_draw_same_aspects(old(rng).seed(), old(rng).draws()).0[2],
        (set[1].color == card.color) == spec_draw_same_aspects(old(rng).seed(), old(rng).draws()).0[3],
        (2 <= spec_num_all_different_aspects([set[0], set[1]], set[2]) <= 3) <==> pcg32_ratio(
            old(rng).seed(),
            old(rng).draws(),
            2,
            3,
        ),
        set@ == spec_set_with_card(old(rng).seed(), old(rng).draws(), card).0,
        final(rng).seed() == old(rng).seed(),
        final(rng).draws() == spec_set_with_card(old(rng).seed(), old(rng).draws(), card).1,
{
    let ghost seed = rng.seed();
    let ghost start = rng.draws();
    let same = draw_same_aspects(rng);
    let shapes = if same[0] {
        (card.shape, card.shape)
    } else {
        Shape::sample_std_uniform_excluding(rng, card.shape)
    };
    let quantities = if same[1] {
        (card.quantity, card.quantity)
    } else {
        Quantity::sample_std_uniform_excluding(rng, card.quantity)
    };
    let fills = if same[2] {
        (card.fill, card.fill)
    } else {
        Fill::sample_std_uniform_excluding(rng, card.fill)
    };
    let colors = if same[3] {
        (card.color, card.color)
    } else {
        Color::sample_std_uniform_excluding(rng, card.color)
    };
    let set = complete_set_with_card(card, same, shapes, quantities, fills, colors);
    assert(set@ =~= spec_set_with_card(seed, start, card).0);
    set
}

/// Randomly generates a Set of cards.
pub fn generate_set(rng: &mut SeededRng) -> (set: [Card; 3])
    ensures
        set[0] == spec_sample_card(old(rng).seed(), old(rng).draws()),
        is_set(set[0], set[1], set[2]),
        (2 <= spec_num_all_different_aspects([set[0], set[1]], set[2]) <= 3) <==> pcg32_ratio(
            old(rng).seed(),
            aspect_draws(old(rng).draws(), 4),
            2,
            3,
        ),
        set@ == spec_set_with_card(
            old(rng).seed(),
            aspect_draws(old(rng).draws(), 4),
            spec_sample_card(old(rng).seed(), old(rng).draws()),
        ).0,
        final(rng).seed() == old(rng).seed(),
        final(rng).draws() == spec_set_with_card(
            old(rng).seed(),
            aspect_draws(old(rng).draws(), 4),
            spec_sample_card(old(rng).seed(), old(rng).draws()),
        ).1,
{
    // The first card is randomly generated.
    let card = Card::sample(rng);
    generate_set_with_card(rng, card)
}

/// On a well-formed board, a sorted guess of three of the board's cards is in
/// the answer key exactly when the three cards form a set: the answer key holds
/// every set of the board and nothing else.
pub proof fn lemma_guess_in_answer_key_iff_set(board: &GameBoard, guess: [Card; 3])
    requires
        board.wf(),
        sorted_set(guess),
        board.spec_cards().contains(guess[0]),
        board.spec_cards().contains(guess[1]),
        board.spec_cards().contains(guess[2]),
    ensures
        board.spec_sets().contains(guess) <==> is_set(guess[0], guess[1], guess[2]),
{
    board.lemma_wf();
    let sets = board.spec_sets();
    if sets.contains(guess) {
        let i = choose|i: int| 0 <= i < sets.len() && sets[i] == guess;
        assert(board_valid(board.spec_cards(), sets));
        assert(crate::state::board_proofs::valid_set_of(board.spec_cards(), sets[i]));
    }
    if is_set(guess[0], guess[1], guess[2]) {
        lemma_sort3_facts(guess[0], guess[1], guess[2]);
        assert([guess[0], guess[1], guess[2]] =~= guess);
    }
}

/// A well-formed board holds twelve distinct cards and exactly six sets, each
/// sorted, each made of three of its cards.
pub proof fn lemma_board_shape(board: &GameBoard)
    requires
        board.wf(),
    ensures
        board.spec_cards().len() == 12,
        board.spec_cards().no_duplicates(),
        board.spec_sets().len() == 6,
        board.spec_sets().no_duplicates(),
        forall|i: int|
            0 <= i < 6 ==> sorted_set(#[trigger] board.spec_sets()[i]) && is_set(
                board.spec_sets()[i][0],
                board.spec_sets()[i][1],
                board.spec_sets()[i][2],
            ) && board.spec_cards().contains(board.spec_sets()[i][0])
                && board.spec_cards().contains(board.spec_sets()[i][1])
                && board.spec_cards().contains(board.spec_sets()[i][2]),
{
    board.lemma_wf();
    assert forall|i: int| 0 <= i < 6 implies sorted_set(#[trigger] board.spec_sets()[i]) && is_set(
        board.spec_sets()[i][0],
        board.spec_sets()[i][1],
        board.spec_sets()[i][2],
    ) && board.spec_cards().contains(board.spec_sets()[i][0]) && board.spec_cards().contains(
        board.spec_sets()[i][1],
    ) && board.spec_cards().contains(board.spec_sets()[i][2]) by {
        assert(crate::state::board_proofs::valid_set_of(board.spec_cards(), board.spec_sets()[i]));
    }
}

} // verus!
