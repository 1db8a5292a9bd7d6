//! Cards of the game of Set, the rule that makes three cards a set, and the
//! random drawing of cards.
pub mod board_proofs;
pub mod dealing;
pub mod game_board;
pub mod init;

use vstd::prelude::*;

use crate::rng::{
    be_bytes, le_bytes, pcg32_i32_inclusive, random_i32_inclusive, word_byte, Draw, SeededRng,
};

verus! {

/// The day of the year shifted left by one bit, as a word: twice the day,
/// modulo 2^64.
pub open spec fn day_word(day_of_year: u64) -> u64 {
    ((2 * day_of_year) % 0x1_0000_0000_0000_0000) as u64
}

/// A word is determined by its eight bytes.
pub proof fn lemma_bytes_determine_word(a: u64, b: u64)
    requires
        forall|k: int| 0 <= k < 8 ==> #[trigger] word_byte(a, k) == word_byte(b, k),
    ensures
        a == b,
{
    assert(word_byte(a, 0) == word_byte(b, 0));
    assert(word_byte(a, 1) == word_byte(b, 1));
    assert(word_byte(a, 2) == word_byte(b, 2));
    assert(word_byte(a, 3) == word_byte(b, 3));
    assert(word_byte(a, 4) == word_byte(b, 4));
    assert(word_byte(a, 5) == word_byte(b, 5));
    assert(word_byte(a, 6) == word_byte(b, 6));
    assert(word_byte(a, 7) == word_byte(b, 7));
    assert(a == b) by (bit_vector)
        requires
            ((a >> 0u64) & 0xff) as u8 == ((b >> 0u64) & 0xff) as u8,
            ((a >> 8u64) & 0xff) as u8 == ((b >> 8u64) & 0xff) as u8,
            ((a >> 16u64) & 0xff) as u8 == ((b >> 16u64) & 0xff) as u8,
            ((a >> 24u64) & 0xff) as u8 == ((b >> 24u64) & 0xff) as u8,
            ((a >> 32u64) & 0xff) as u8 == ((b >> 32u64) & 0xff) as u8,
            ((a >> 40u64) & 0xff) as u8 == ((b >> 40u64) & 0xff) as u8,
            ((a >> 48u64) & 0xff) as u8 == ((b >> 48u64) & 0xff) as u8,
            ((a >> 56u64) & 0xff) as u8 == ((b >> 56u64) & 0xff) as u8,
    ;
}

/// The seed changes every day: in either byte order, two different days of the
/// year (below 2^63) give two different seeds for one year, or one elapsed time.
pub proof fn lemma_each_day_its_own_seed(first: u64, day: u64, other_day: u64)
    requires
        day != other_day,
        day < 0x8000_0000_0000_0000,
        other_day < 0x8000_0000_0000_0000,
    ensures
        le_bytes(first) + le_bytes(day_word(day)) != le_bytes(first) + le_bytes(day_word(other_day)),
        be_bytes(first) + be_bytes(day_word(day)) != be_bytes(first) + be_bytes(day_word(other_day)),
{
    let a = day_word(day);
    let b = day_word(other_day);
    assert(a != b);
    if le_bytes(first) + le_bytes(a) == le_bytes(first) + le_bytes(b) {
        assert forall|k: int| 0 <= k < 8 implies #[trigger] word_byte(a, k) == word_byte(b, k) by {
            assert((le_bytes(first) + le_bytes(a))[8 + k] == (le_bytes(first) + le_bytes(b))[8 + k]);
        }
        lemma_bytes_determine_word(a, b);
    }
    if be_bytes(first) + be_bytes(a) == be_bytes(first) + be_bytes(b) {
        assert forall|k: int| 0 <= k < 8 implies #[trigger] word_byte(a, k) == word_byte(b, k) by {
            assert((be_bytes(first) + be_bytes(a))[8 + (7 - k)] == (be_bytes(first) + be_bytes(b))[8
                + (7 - k)]);
        }
        lemma_bytes_determine_word(a, b);
    }
}

/// The two words that a daily seed is made of: `first` (the year, or the
/// elapsed seconds for the results banner) and the day of the year shifted left
/// by one bit, since Pcg32 drops the last bit of the seed.
pub fn seed_words(first: u64, day_of_year: u64) -> (words: [u64; 2])
    ensures
        words[0] == first,
        words[1] == day_of_year << 1,
        words[1] == day_word(day_of_year),
{
    let shifted: u64 = day_of_year << 1;
    proof {
        assert(shifted == (2 * day_of_year) % 0x1_0000_0000_0000_0000) by (bit_vector)
            requires
                shifted == day_of_year << 1,
        ;
    }
    [first, shifted]
}

/// One of the four dimensions that a Set card can vary in.
///
/// Describes the shape that is on the card.
#[derive(Clone, Copy, Debug, PartialEq, Eq, Structural, PartialOrd, Ord, Hash)]
pub enum Shape {
    Diamond,
    Oval,
    Squiggle,
}

/// One of the four dimensions that a Set card can vary in.
///
/// Describes the number of shapes that are on the card.
#[derive(Clone, Copy, Debug, PartialEq, Eq, Structural, PartialOrd, Ord, Hash)]
pub enum Quantity {
    One,
    Two,
    Three,
}

/// One of the four dimensions that a Set card can vary in.
///
/// Describes the inside of the shape(s) that are on the card.
#[derive(Clone, Copy, Debug, PartialEq, Eq, Structural, PartialOrd, Ord, Hash)]
pub enum Fill {
    Empty,
    Dashed,
    Filled,
}

/// One of the four dimensions that a Set card can vary in.
///
/// Describes the color of the shape(s) that are on the card.
#[derive(Clone, Copy, Debug, PartialEq, Eq, Structural, PartialOrd, Ord, Hash)]
pub enum Color {
    Blue,
    Gold,
    Pink,
}

/// A card in a game of Set. Its contents can vary in four dimensions: [`Shape`],
/// [`Quantity`], [`Fill`], and [`Color`]. In a standard Set deck,
/// there is one of each unique card, for a total of 3^4 = 81 cards.
#[derive(Clone, Copy, Debug, PartialEq, Eq, Structural, PartialOrd, Ord, Hash)]
pub struct Card {
    pub shape: Shape,
    pub quantity: Quantity,
    pub fill: Fill,
    pub color: Color,
}

// ---------------------------------------------------------------------------
// Positions of the values in their declaration order (the order that the
// derived `Ord` uses).
// ---------------------------------------------------------------------------

pub open spec fn shape_pos(s: Shape) -> int {
    match s {
        Shape::Diamond => 0,
        Shape::Oval => 1,
        Shape::Squiggle => 2,
    }
}

pub open spec fn quantity_pos(q: Quantity) -> int {
    match q {
        Quantity::One => 0,
        Quantity::Two => 1,
        Quantity::Three => 2,
    }
}

pub open spec fn fill_pos(f: Fill) -> int {
    match f {
        Fill::Empty => 0,
        Fill::Dashed => 1,
        Fill::Filled => 2,
    }
}

pub open spec fn color_pos(c: Color) -> int {
    match c {
        Color::Blue => 0,
        Color::Gold => 1,
        Color::Pink => 2,
    }
}

/// The position of a card in the order of the derived `Ord`: the fields are
/// compared in declaration order, each by the declaration order of its values.
pub open spec fn card_rank(c: Card) -> int {
    27 * shape_pos(c.shape) + 9 * quantity_pos(c.quantity) + 3 * fill_pos(c.fill) + color_pos(
        c.color,
    )
}

/// Two cards have the same rank exactly when they are the same card.
pub proof fn lemma_card_rank_injective(a: Card, b: Card)
    ensures
        card_rank(a) == card_rank(b) <==> a == b,
        0 <= card_rank(a) < 81,
{
}

// ---------------------------------------------------------------------------
// The rule of the game
// ---------------------------------------------------------------------------

/// Three values of one aspect are either all the same or all different.
pub open spec fn aspect_ok<T>(x: T, y: T, z: T) -> bool {
    (x == y && y == z) || (x != y && y != z && x != z)
}

/// Three cards form a set: they are not all the same card, and for every
/// aspect they are either all the same or all different.
pub open spec fn is_set(a: Card, b: Card, c: Card) -> bool {
    &&& a != b
    &&& aspect_ok(a.shape, b.shape, c.shape)
    &&& aspect_ok(a.quantity, b.quantity, c.quantity)
    &&& aspect_ok(a.fill, b.fill, c.fill)
    &&& aspect_ok(a.color, b.color, c.color)
}

/// The value of an aspect that completes a set: the same value when both are
/// the same, otherwise the one value that differs from both.
pub open spec fn third_shape(a: Shape, b: Shape) -> Shape {
    if a == b {
        a
    } else if a != Shape::Diamond && b != Shape::Diamond {
        Shape::Diamond
    } else if a != Shape::Oval && b != Shape::Oval {
        Shape::Oval
    } else {
        Shape::Squiggle
    }
}

pub open spec fn third_quantity(a: Quantity, b: Quantity) -> Quantity {
    if a == b {
        a
    } else if a != Quantity::One && b != Quantity::One {
        Quantity::One
    } else if a != Quantity::Two && b != Quantity::Two {
        Quantity::Two
    } else {
        Quantity::Three
    }
}

pub open spec fn third_fill(a: Fill, b: Fill) -> Fill {
    if a == b {
        a
    } else if a != Fill::Empty && b != Fill::Empty {
        Fill::Empty
    } else if a != Fill::Dashed && b != Fill::Dashed {
        Fill::Dashed
    } else {
        Fill::Filled
    }
}

pub open spec fn third_color(a: Color, b: Color) -> Color {
    if a == b {
        a
    } else if a != Color::Blue && b != Color::Blue {
        Color::Blue
    } else if a != Color::Gold && b != Color::Gold {
        Color::Gold
    } else {
        Color::Pink
    }
}

/// The card that completes a set with `a` and `b`.
pub open spec fn third_card(a: Card, b: Card) -> Card {
    Card {
        shape: third_shape(a.shape, b.shape),
        quantity: third_quantity(a.quantity, b.quantity),
        fill: third_fill(a.fill, b.fill),
        color: third_color(a.color, b.color),
    }
}

/// For two different cards, the third card of a set is unique: `c` forms a
/// set with `a` and `b` exactly when it is `third_card(a, b)`.
pub proof fn lemma_set_iff_third(a: Card, b: Card, c: Card)
    requires
        a != b,
    ensures
        is_set(a, b, c) <==> c == third_card(a, b),
{
}

/// The completing card does not depend on the order of the two cards, differs
/// from both when they differ, and completing with it gives back the other card.
pub proof fn lemma_third_card_facts(a: Card, b: Card)
    ensures
        third_card(a, b) == third_card(b, a),
        a != b ==> third_card(a, b) != a && third_card(a, b) != b,
        third_card(a, third_card(a, b)) == b,
        a != b ==> is_set(a, b, third_card(a, b)),
{
}

/// Whether three cards form a set does not depend on their order.
pub proof fn lemma_is_set_symmetric(a: Card, b: Card, c: Card)
    ensures
        is_set(a, b, c) ==> is_set(b, a, c) && is_set(a, c, b) && is_set(c, b, a) && is_set(b, c, a)
            && is_set(c, a, b),
        is_set(a, b, c) ==> a != c && b != c,
{
}

impl Shape {
    /// Returns the third shape that would complete the set given `self` and the `other` shape.
    /// If self and other are the same shape, the returned shape is the same shape.
    /// If self and other are two different shapes, the returned shape is the other third shape.
    pub fn get_third_to_complete_set(&self, other: Shape) -> (third: Shape)
        ensures
            third == third_shape(*self, other),
            *self == other ==> third == other,
            *self != other ==> third != *self && third != other,
    {
        match (self, other) {
            (Shape::Diamond, Shape::Oval) | (Shape::Oval, Shape::Diamond) => Shape::Squiggle,
            (Shape::Oval, Shape::Squiggle) | (Shape::Squiggle, Shape::Oval) => Shape::Diamond,
            (Shape::Diamond, Shape::Squiggle) | (Shape::Squiggle, Shape::Diamond) => Shape::Oval,
            // The shapes are the same, so just return the other.
            _ => other,
        }
    }
}

impl Quantity {
    /// Returns the third quantity that would complete the set given `self` and the `other` quantity.
    /// If self and other are the same quantity, the returned quantity is the same quantity.
    /// If self and other are two different quantities, the returned quantity is the other third quantity.
    pub fn get_third_to_complete_set(&self, other: Quantity) -> (third: Quantity)
        ensures
            third == third_quantity(*self, other),
            *self == other ==> third == other,
            *self != other ==> third != *self && third != other,
    {
        match (self, other) {
            (Quantity::One, Quantity::Two) | (Quantity::Two, Quantity::One) => Quantity::Three,
            (Quantity::Two, Quantity::Three) | (Quantity::Three, Quantity::Two) => Quantity::One,
            (Quantity::One, Quantity::Three) | (Quantity::Three, Quantity::One) => Quantity::Two,
            // The quantities are the same, so just return the other.
            _ => other,
        }
    }
}

impl Fill {
    /// Returns the third fill that would complete the set given `self` and the `other` fill.
    /// If self and other are the same fill, the returned fill is the same fill.
    /// If self and other are two different fills, the returned fill is the other third fill.
    pub fn get_third_to_complete_set(&self, other: Fill) -> (third: Fill)
        ensures
            third == third_fill(*self, other),
            *self == other ==> third == other,
            *self != other ==> third != *self && third != other,
    {
        match (self, other) {
            (Fill::Empty, Fill::Dashed) | (Fill::Dashed, Fill::Empty) => Fill::Filled,
            (Fill::Dashed, Fill::Filled) | (Fill::Filled, Fill::Dashed) => Fill::Empty,
            (Fill::Empty, Fill::Filled) | (Fill::Filled, Fill::Empty) => Fill::Dashed,
            // The fills are the same, so just return the other.
            _ => other,
        }
    }
}

impl Color {
    /// Returns the third color that would complete the set given `self` and the `other` color.
    /// If self and other are the same color, the returned color is the same color.
    /// If self and other are two different colors, the returned color is the other third color.
    pub fn get_third_to_complete_set(&self, other: Color) -> (third: Color)
        ensures
            third == third_color(*self, other),
            *self == other ==> third == other,
            *self != other ==> third != *self && third != other,
    {
        match (self, other) {
            (Color::Blue, Color::Gold) | (Color::Gold, Color::Blue) => Color::Pink,
            (Color::Gold, Color::Pink) | (Color::Pink, Color::Gold) => Color::Blue,
            (Color::Blue, Color::Pink) | (Color::Pink, Color::Blue) => Color::Gold,
            // The colors are the same, so just return the other.
            _ => other,
        }
    }
}

// ---------------------------------------------------------------------------
// Drawing cards at random
// ---------------------------------------------------------------------------

impl Shape {
    /// The shape that a draw from `0..=2` stands for.
    pub open spec fn spec_from_draw(draw: i32) -> Shape {
        if draw == 0 {
                Shape::Diamond
            } else if draw == 1 {
                Shape::Oval
            } else {
                Shape::Squiggle
            }
    }

    /// The shape that a draw from `0..=2` stands for.
    pub fn from_draw(draw: i32) -> (shape: Shape)
        ensures
            shape == Shape::spec_from_draw(draw),
    {
        match draw {
            0 => Shape::Diamond,
            1 => Shape::Oval,
            _ => Shape::Squiggle,
        }
    }

    /// Draws a shape with the standard uniform distribution.
    pub fn sample(rng: &mut SeededRng) -> (shape: Shape)
        ensures
            shape == Shape::spec_from_draw(pcg32_i32_inclusive(old(rng).seed(), old(rng).draws(), 0, 2)),
            final(rng).seed() == old(rng).seed(),
            final(rng).draws() == old(rng).draws().push(Draw::I32Inclusive(0, 2)),
    {
        Shape::from_draw(random_i32_inclusive(rng, 0, 2))
    }

    /// The two values other than `exclude`, in the order that a draw from `0..=1` picks.
    pub open spec fn spec_others(exclude: Shape, draw: i32) -> (Shape, Shape) {
        let others = match exclude {
            Shape::Diamond => (Shape::Oval, Shape::Squiggle),
            Shape::Oval => (Shape::Diamond, Shape::Squiggle),
            Shape::Squiggle => (Shape::Diamond, Shape::Oval),
        };
        if draw == 0 {
            others
        } else {
            (others.1, others.0)
        }
    }

    /// The two shapes other than `exclude`, in the order that a draw from `0..=1` picks.
    pub fn others_in_draw_order(exclude: Shape, draw: i32) -> (others: (Shape, Shape))
        ensures
            others == Shape::spec_others(exclude, draw),
            others.0 != exclude,
            others.1 != exclude,
            others.0 != others.1,
            draw == 0 ==> shape_pos(others.0) < shape_pos(others.1),
            draw != 0 ==> shape_pos(others.0) > shape_pos(others.1),
    {
        let shapes = match exclude {
            Shape::Diamond => [Shape::Oval, Shape::Squiggle],
            Shape::Oval => [Shape::Diamond, Shape::Squiggle],
            Shape::Squiggle => [Shape::Diamond, Shape::Oval],
        };
        match draw {
            0 => (shapes[0], shapes[1]),
            _ => (shapes[1], shapes[0]),
        }
    }

    /// Returns one of the two shapes that is not the provided `exclude` shape
    /// with the standard uniform distribution.
    pub fn sample_std_uniform_excluding(rng: &mut SeededRng, exclude: Shape) -> (others: (Shape, Shape))
        ensures
            others == Shape::spec_others(exclude, pcg32_i32_inclusive(old(rng).seed(), old(rng).draws(), 0, 1)),
            others.0 != exclude,
            others.1 != exclude,
            others.0 != others.1,
            pcg32_i32_inclusive(old(rng).seed(), old(rng).draws(), 0, 1) == 0 ==> shape_pos(others.0) < shape_pos(
                others.1,
            ),
            pcg32_i32_inclusive(old(rng).seed(), old(rng).draws(), 0, 1) != 0 ==> shape_pos(others.0) > shape_pos(
                others.1,
            ),
            final(rng).seed() == old(rng).seed(),
            final(rng).draws() == old(rng).draws().push(Draw::I32Inclusive(0, 1)),
    {
        Shape::others_in_draw_order(exclude, random_i32_inclusive(rng, 0, 1))
    }
}

impl Quantity {
    /// The quantity that a draw from `0..=2` stands for.
    pub open spec fn spec_from_draw(draw: i32) -> Quantity {
        if draw == 0 {
                Quantity::One
            } else if draw == 1 {
                Quantity::Two
            } else {
                Quantity::Three
            }
    }

    /// The quantity that a draw from `0..=2` stands for.
    pub fn from_draw(draw: i32) -> (quantity: Quantity)
        ensures
            quantity == Quantity::spec_from_draw(draw),
    {
        match draw {
            0 => Quantity::One,
            1 => Quantity::Two,
            _ => Quantity::Three,
        }
    }

    /// Draws a quantity with the standard uniform distribution.
    pub fn sample(rng: &mut SeededRng) -> (quantity: Quantity)
        ensures
            quantity == Quantity::spec_from_draw(pcg32_i32_inclusive(old(rng).seed(), old(rng).draws(), 0, 2)),
            final(rng).seed() == old(rng).seed(),
            final(rng).draws() == old(rng).draws().push(Draw::I32Inclusive(0, 2)),
    {
        Quantity::from_draw(random_i32_inclusive(rng, 0, 2))
    }

    /// The two values other than `exclude`, in the order that a draw from `0..=1` picks.
    pub open spec fn spec_others(exclude: Quantity, draw: i32) -> (Quantity, Quantity) {
        let others = match exclude {
            Quantity::One => (Quantity::Two, Quantity::Three),
            Quantity::Two => (Quantity::One, Quantity::Three),
            Quantity::Three => (Quantity::One, Quantity::Two),
        };
        if draw == 0 {
            others
        } else {
            (others.1, others.0)
        }
    }

    /// The two quantities other than `exclude`, in the order that a draw from `0..=1` picks.
    pub fn others_in_draw_order(exclude: Quantity, draw: i32) -> (others: (Quantity, Quantity))
        ensures
            others == Quantity::spec_others(exclude, draw),
            others.0 != exclude,
            others.1 != exclude,
            others.0 != others.1,
            draw == 0 ==> quantity_pos(others.0) < quantity_pos(others.1),
            draw != 0 ==> quantity_pos(others.0) > quantity_pos(others.1),
    {
        let quantities = match exclude {
            Quantity::One => [Quantity::Two, Quantity::Three],
            Quantity::Two => [Quantity::One, Quantity::Three],
            Quantity::Three => [Quantity::One, Quantity::Two],
        };
        match draw {
            0 => (quantities[0], quantities[1]),
            _ => (quantities[1], quantities[0]),
        }
    }

    /// Returns one of the two quantities that is not the provided `exclude` quantity
    /// with the standard uniform distribution.
    pub fn sample_std_uniform_excluding(rng: &mut SeededRng, exclude: Quantity) -> (others: (Quantity, Quantity))
        ensures
            others == Quantity::spec_others(exclude, pcg32_i32_inclusive(old(rng).seed(), old(rng).draws(), 0, 1)),
            others.0 != exclude,
            others.1 != exclude,
            others.0 != others.1,
            pcg32_i32_inclusive(old(rng).seed(), old(rng).draws(), 0, 1) == 0 ==> quantity_pos(others.0) < quantity_pos(
                others.1,
            ),
            pcg32_i32_inclusive(old(rng).seed(), old(rng).draws(), 0, 1) != 0 ==> quantity_pos(others.0) > quantity_pos(
                others.1,
            ),
            final(rng).seed() == old(rng).seed(),
            final(rng).draws() == old(rng).draws().push(Draw::I32Inclusive(0, 1)),
    {
        Quantity::others_in_draw_order(exclude, random_i32_inclusive(rng, 0, 1))
    }
}

impl Fill {
    /// The fill that a draw from `0..=2` stands for.
    pub open spec fn spec_from_draw(draw: i32) -> Fill {
        if draw == 0 {
                Fill::Empty
            } else if draw == 1 {
                Fill::Dashed
            } else {
                Fill::Filled
            }
    }

    /// The fill that a draw from `0..=2` stands for.
    pub fn from_draw(draw: i32) -> (fill: Fill)
        ensures
            fill == Fill::spec_from_draw(draw),
    {
        match draw {
            0 => Fill::Empty,
            1 => Fill::Dashed,
            _ => Fill::Filled,
        }
    }

    /// Draws a fill with the standard uniform distribution.
    pub fn sample(rng: &mut SeededRng) -> (fill: Fill)
        ensures
            fill == Fill::spec_from_draw(pcg32_i32_inclusive(old(rng).seed(), old(rng).draws(), 0, 2)),
            final(rng).seed() == old(rng).seed(),
            final(rng).draws() == old(rng).draws().push(Draw::I32Inclusive(0, 2)),
    {
        Fill::from_draw(random_i32_inclusive(rng, 0, 2))
    }

    /// The two values other than `exclude`, in the order that a draw from `0..=1` picks.
    pub open spec fn spec_others(exclude: Fill, draw: i32) -> (Fill, Fill) {
        let others = match exclude {
            Fill::Empty => (Fill::Dashed, Fill::Filled),
            Fill::Dashed => (Fill::Empty, Fill::Filled),
            Fill::Filled => (Fill::Empty, Fill::Dashed),
        };
        if draw == 0 {
            others
        } else {
            (others.1, others.0)
        }
    }

    /// The two fills other than `exclude`, in the order that a draw from `0..=1` picks.
    pub fn others_in_draw_order(exclude: Fill, draw: i32) -> (others: (Fill, Fill))
        ensures
            others == Fill::spec_others(exclude, draw),
            others.0 != exclude,
            others.1 != exclude,
            others.0 != others.1,
            draw == 0 ==> fill_pos(others.0) < fill_pos(others.1),
            draw != 0 ==> fill_pos(others.0) > fill_pos(others.1),
    {
        let fills = match exclude {
            Fill::Empty => [Fill::Dashed, Fill::Filled],
            Fill::Dashed => [Fill::Empty, Fill::Filled],
            Fill::Filled => [Fill::Empty, Fill::Dashed],
        };
        match draw {
            0 => (fills[0], fills[1]),
            _ => (fills[1], fills[0]),
        }
    }

    /// Returns one of the two fills that is not the provided `exclude` fill
    /// with the standard uniform distribution.
    pub fn sample_std_uniform_excluding(rng: &mut SeededRng, exclude: Fill) -> (others: (Fill, Fill))
        ensures
            others == Fill::spec_others(exclude, pcg32_i32_inclusive(old(rng).seed(), old(rng).draws(), 0, 1)),
            others.0 != exclude,
            others.1 != exclude,
            others.0 != others.1,
            pcg32_i32_inclusive(old(rng).seed(), old(rng).draws(), 0, 1) == 0 ==> fill_pos(others.0) < fill_pos(
                others.1,
            ),
            pcg32_i32_inclusive(old(rng).seed(), old(rng).draws(), 0, 1) != 0 ==> fill_pos(others.0) > fill_pos(
                others.1,
            ),
            final(rng).seed() == old(rng).seed(),
            final(rng).draws() == old(rng).draws().push(Draw::I32Inclusive(0, 1)),
    {
        Fill::others_in_draw_order(exclude, random_i32_inclusive(rng, 0, 1))
    }
}

impl Color {
    /// The color that a draw from `0..=2` stands for.
    pub open spec fn spec_from_draw(draw: i32) -> Color {
        if draw == 0 {
                Color::Blue
            } else if draw == 1 {
                Color::Gold
            } else {
                Color::Pink
            }
    }

    /// The color that a draw from `0..=2` stands for.
    pub fn from_draw(draw: i32) -> (color: Color)
        ensures
            color == Color::spec_from_draw(draw),
    {
        match draw {
            0 => Color::Blue,
            1 => Color::Gold,
            _ => Color::Pink,
        }
    }

    /// Draws a color with the standard uniform distribution.
    pub fn sample(rng: &mut SeededRng) -> (color: Color)
        ensures
            color == Color::spec_from_draw(pcg32_i32_inclusive(old(rng).seed(), old(rng).draws(), 0, 2)),
            final(rng).seed() == old(rng).seed(),
            final(rng).draws() == old(rng).draws().push(Draw::I32Inclusive(0, 2)),
    {
        Color::from_draw(random_i32_inclusive(rng, 0, 2))
    }

    /// The two values other than `exclude`, in the order that a draw from `0..=1` picks.
    pub open spec fn spec_others(exclude: Color, draw: i32) -> (Color, Color) {
        let others = match exclude {
            Color::Blue => (Color::Gold, Color::Pink),
            Color::Gold => (Color::Blue, Color::Pink),
            Color::Pink => (Color::Blue, Color::Gold),
        };
        if draw == 0 {
            others
        } else {
            (others.1, others.0)
        }
    }

    /// The two colors other than `exclude`, in the order that a draw from `0..=1` picks.
    pub fn others_in_draw_order(exclude: Color, draw: i32) -> (others: (Color, Color))
        ensures
            others == Color::spec_others(exclude, draw),
            others.0 != exclude,
            others.1 != exclude,
            others.0 != others.1,
            draw == 0 ==> color_pos(others.0) < color_pos(others.1),
            draw != 0 ==> color_pos(others.0) > color_pos(others.1),
    {
        let colors = match exclude {
            Color::Blue => [Color::Gold, Color::Pink],
            Color::Gold => [Color::Blue, Color::Pink],
            Color::Pink => [Color::Blue, Color::Gold],
        };
        match draw {
            0 => (colors[0], colors[1]),
            _ => (colors[1], colors[0]),
        }
    }

    /// Returns one of the two colors that is not the provided `exclude` color
    /// with the standard uniform distribution.
    pub fn sample_std_uniform_excluding(rng: &mut SeededRng, exclude: Color) -> (others: (Color, Color))
        ensures
            others == Color::spec_others(exclude, pcg32_i32_inclusive(old(rng).seed(), old(rng).draws(), 0, 1)),
            others.0 != exclude,
            others.1 != exclude,
            others.0 != others.1,
            pcg32_i32_inclusive(old(rng).seed(), old(rng).draws(), 0, 1) == 0 ==> color_pos(others.0) < color_pos(
                others.1,
            ),
            pcg32_i32_inclusive(old(rng).seed(), old(rng).draws(), 0, 1) != 0 ==> color_pos(others.0) > color_pos(
                others.1,
            ),
            final(rng).seed() == old(rng).seed(),
            final(rng).draws() == old(rng).draws().push(Draw::I32Inclusive(0, 1)),
    {
        Color::others_in_draw_order(exclude, random_i32_inclusive(rng, 0, 1))
    }
}

/// The draws of one aspect of a card, made `n` times after `draws`.
pub open spec fn aspect_draws(draws: Seq<Draw>, n: nat) -> Seq<Draw>
    decreases n,
{
    if n == 0 {
        draws
    } else {
        aspect_draws(draws, (n - 1) as nat).push(Draw::I32Inclusive(0, 2))
    }
}

/// The card that `Card::sample` draws from a generator seeded with `seed` after
/// `draws`: its shape, quantity, fill and color, drawn in this order.
pub open spec fn spec_sample_card(seed: [u8; 16], draws: Seq<Draw>) -> Card {
    Card {
        shape: Shape::spec_from_draw(pcg32_i32_inclusive(seed, aspect_draws(draws, 0), 0, 2)),
        quantity: Quantity::spec_from_draw(pcg32_i32_inclusive(seed, aspect_draws(draws, 1), 0, 2)),
        fill: Fill::spec_from_draw(pcg32_i32_inclusive(seed, aspect_draws(draws, 2), 0, 2)),
        color: Color::spec_from_draw(pcg32_i32_inclusive(seed, aspect_draws(draws, 3), 0, 2)),
    }
}

impl Card {
    /// Draws a card with the standard uniform distribution: its shape, quantity,
    /// fill and color are drawn in this order.
    pub fn sample(rng: &mut SeededRng) -> (card: Card)
        ensures
            card == spec_sample_card(old(rng).seed(), old(rng).draws()),
            final(rng).seed() == old(rng).seed(),
            final(rng).draws() == aspect_draws(old(rng).draws(), 4),
    {
        proof {
            reveal_with_fuel(aspect_draws, 5);
        }
        let shape = Shape::sample(rng);
        let quantity = Quantity::sample(rng);
        let fill = Fill::sample(rng);
        let color = Color::sample(rng);
        Card { shape, quantity, fill, color }
    }
}

// ---------------------------------------------------------------------------
// The state of a game
// ---------------------------------------------------------------------------

/// How long active gameplay lasted, as whole seconds and the nanoseconds of the
/// second that is not over (the fields of `core::time::Duration`).
#[derive(Clone, Copy, Debug, PartialEq, Eq, Structural)]
pub struct GameDuration {
    pub secs: u64,
    pub nanos: u32,
}

/// Nanoseconds in a second.
pub const NANOS_PER_SEC: u32 = 1_000_000_000;

/// Nanoseconds in a millisecond.
pub const NANOS_PER_MILLI: u32 = 1_000_000;

impl GameDuration {
    /// The nanoseconds are those of an unfinished second.
    pub open spec fn wf(self) -> bool {
        self.nanos < NANOS_PER_SEC
    }

    /// The whole duration in nanoseconds.
    pub open spec fn total_nanos(self) -> int {
        self.secs * 1_000_000_000 + self.nanos
    }

    /// No time at all.
    pub fn zero() -> (zero: GameDuration)
        ensures
            zero.wf(),
            zero.total_nanos() == 0,
    {
        GameDuration { secs: 0, nanos: 0 }
    }

    /// A duration of `secs` seconds and `nanos` nanoseconds, the nanoseconds
    /// beyond a second carried into the seconds (like `Duration::new`, which
    /// panics when the carry overflows; that input is left out).
    pub fn new(secs: u64, nanos: u32) -> (duration: GameDuration)
        requires
            secs + nanos / 1_000_000_000 <= u64::MAX,
        ensures
            duration.wf(),
            duration.total_nanos() == secs * 1_000_000_000 + nanos,
    {
        let carry = nanos / NANOS_PER_SEC;
        GameDuration { secs: secs + carry as u64, nanos: nanos % NANOS_PER_SEC }
    }

    /// The whole seconds of the duration.
    pub fn as_secs(&self) -> (secs: u64)
        ensures
            secs == self.secs,
    {
        self.secs
    }

    /// The whole milliseconds of the unfinished second.
    pub fn subsec_millis(&self) -> (millis: u32)
        ensures
            millis == self.nanos / 1_000_000,
    {
        self.nanos / NANOS_PER_MILLI
    }

    /// The sum of two durations (like `Duration + Duration`, which panics when
    /// the seconds overflow; that input is left out).
    pub fn add(self, other: GameDuration) -> (sum: GameDuration)
        requires
            self.wf(),
            other.wf(),
            self.secs + other.secs + (self.nanos + other.nanos) / 1_000_000_000 <= u64::MAX,
        ensures
            sum.wf(),
            sum.total_nanos() == self.total_nanos() + other.total_nanos(),
    {
        let nanos = self.nanos + other.nanos;
        if nanos >= NANOS_PER_SEC {
            GameDuration { secs: self.secs + other.secs + 1, nanos: nanos - NANOS_PER_SEC }
        } else {
            GameDuration { secs: self.secs + other.secs, nanos }
        }
    }
}

/// A set that the user found, with the duration into the game at which it was
/// found and the counters at that moment.
#[derive(Clone, Copy, Debug)]
pub struct FoundSet {
    pub cards: [Card; 3],
    pub elapsed: GameDuration,
    pub mistake_counter: u16,
    pub already_guessed_counter: u16,
}

/// The summary of a finished game.
#[derive(Clone, Debug)]
pub struct GameSummary {
    /// The date of the finished game.
    pub date_of_board: String,
    /// The sets the user found in the order in which they found them,
    /// the duration into the game at when they were found,
    /// the amount of mistakes that occurred before finding
    /// that set (cumulative), and the amount of times the user
    /// guessed an already guessed set at that moment in time.
    pub sets: [FoundSet; 6],
}

/// Contains stats for the game across multiple sessions.
#[derive(Clone, Debug)]
pub struct GameStats {
    /// A list of past game summaries.
    /// The most recent game summary is the last entry in this vec.
    pub summaries: Vec<GameSummary>,
}

impl GameStats {
    /// No summaries yet.
    pub fn new() -> (stats: GameStats)
        ensures
            stats.summaries@.len() == 0,
    {
        GameStats { summaries: Vec::new() }
    }
}

/// Contains the current game's state - data that is gathered directly from the user's
/// actions.
#[derive(Clone, Debug)]
pub struct CurrentGame {
    /// The current guess that the user is in the process of selecting: the
    /// positions on the board of the selected cards, in increasing order.
    ///
    /// Once it has size 3, it should be checked whether it is a valid set and cleared.
    pub current_guess: Vec<usize>,
    /// The sets which the user has found so far for the game board,
    /// along with the duration at which it was found and the total number of mistakes
    /// at the time
    pub found_sets: Vec<FoundSet>,
    /// The duration of active gameplay.
    pub elapsed: GameDuration,
    /// Whether the game has started.
    pub started: bool,
    /// How many mistakes were made.
    /// A mistake is when a NON-set was guessed.
    pub mistake_counter: u16,
    /// How many times already discovered sets were guessed multiple times.
    pub already_guessed_counter: u16,
    /// Whether the game is active.
    /// This is set to false whenever the game is finished (or detected as such upon load).
    pub active: bool,
}

impl CurrentGame {
    /// A game that has not started: nothing selected, nothing found, no time
    /// elapsed, no mistakes, and active until it is finished.
    pub fn new() -> (game: CurrentGame)
        ensures
            game.current_guess@.len() == 0,
            game.found_sets@.len() == 0,
            game.elapsed.wf(),
            game.elapsed.total_nanos() == 0,
            !game.started,
            game.mistake_counter == 0,
            game.already_guessed_counter == 0,
            game.active,
    {
        CurrentGame {
            current_guess: Vec::new(),
            found_sets: Vec::new(),
            elapsed: GameDuration::zero(),
            started: false,
            mistake_counter: 0,
            already_guessed_counter: 0,
            active: true,
        }
    }
}

// ---------------------------------------------------------------------------
// Names of the card images
// ---------------------------------------------------------------------------

/// The name of a shape in the card images' paths.
pub open spec fn spec_shape_name(shape: Shape) -> Seq<char> {
    match shape {
        Shape::Diamond => "diamond"@,
        Shape::Oval => "oval"@,
        Shape::Squiggle => "squiggle"@,
    }
}

/// The name of a quantity in the card images' paths.
pub open spec fn spec_quantity_name(quantity: Quantity) -> Seq<char> {
    match quantity {
        Quantity::One => "1"@,
        Quantity::Two => "2"@,
        Quantity::Three => "3"@,
    }
}

/// The name of a fill in the card images' paths.
pub open spec fn spec_fill_name(fill: Fill) -> Seq<char> {
    match fill {
        Fill::Empty => "E"@,
        Fill::Dashed => "D"@,
        Fill::Filled => "F"@,
    }
}

/// The name of a color in the card images' paths.
pub open spec fn spec_color_name(color: Color) -> Seq<char> {
    match color {
        Color::Blue => "oiblue"@,
        Color::Gold => "oigold"@,
        Color::Pink => "oipink"@,
    }
}

impl Shape {
    /// The name of the shape in the card images' paths.
    pub fn asset_name(&self) -> (name: &'static str)
        ensures
            name@ == spec_shape_name(*self),
    {
        match self {
            Shape::Diamond => "diamond",
            Shape::Squiggle => "squiggle",
            Shape::Oval => "oval",
        }
    }
}

impl Quantity {
    /// The name of the quantity in the card images' paths.
    pub fn asset_name(&self) -> (name: &'static str)
        ensures
            name@ == spec_quantity_name(*self),
    {
        match self {
            Quantity::One => "1",
            Quantity::Two => "2",
            Quantity::Three => "3",
        }
    }
}

impl Fill {
    /// The name of the fill in the card images' paths.
    pub fn asset_name(&self) -> (name: &'static str)
        ensures
            name@ == spec_fill_name(*self),
    {
        match self {
            Fill::Empty => "E",
            Fill::Dashed => "D",
            Fill::Filled => "F",
        }
    }
}

impl Color {
    /// The name of the color in the card images' paths.
    pub fn asset_name(&self) -> (name: &'static str)
        ensures
            name@ == spec_color_name(*self),
    {
        match self {
            Color::Blue => "oiblue",
            Color::Gold => "oigold",
            Color::Pink => "oipink",
        }
    }
}

impl Default for Shape {
    fn default() -> (shape: Shape)
        ensures
            shape == Shape::Diamond,
    {
        Shape::Diamond
    }
}

impl Default for Quantity {
    fn default() -> (quantity: Quantity)
        ensures
            quantity == Quantity::One,
    {
        Quantity::One
    }
}

impl Default for Fill {
    fn default() -> (fill: Fill)
        ensures
            fill == Fill::Empty,
    {
        Fill::Empty
    }
}

impl Default for Color {
    fn default() -> (color: Color)
        ensures
            color == Color::Blue,
    {
        Color::Blue
    }
}

impl Default for Card {
    fn default() -> (card: Card)
        ensures
            card == (Card {
                shape: Shape::Diamond,
                quantity: Quantity::One,
                fill: Fill::Empty,
                color: Color::Blue,
            }),
    {
        Card { shape: Shape::Diamond, quantity: Quantity::One, fill: Fill::Empty, color: Color::Blue }
    }
}

impl Default for GameStats {
    fn default() -> (stats: GameStats)
        ensures
            stats.summaries@.len() == 0,
    {
        GameStats::new()
    }
}

impl Default for CurrentGame {
    fn default() -> (game: CurrentGame)
        ensures
            game.current_guess@.len() == 0,
            game.found_sets@.len() == 0,
            game.elapsed.wf(),
            game.elapsed.total_nanos() == 0,
            !game.started,
            game.mistake_counter == 0,
            game.already_guessed_counter == 0,
            game.active,
    {
        CurrentGame::new()
    }
}

} // verus!
