//! The random number generator of the game and the draws that the game makes
//! from it.
//!
//! The generator is `rand_pcg::Pcg32`; the draws are methods of `rand::RngExt`
//! and `rand::seq::SliceRandom`. The generator is seeded and deterministic: what
//! a draw gives is fixed by the seed and by the draws made before it, each with
//! its arguments. `SeededRng` carries that record beside the generator, and each
//! draw is named below as a function of it. The values do not depend on the
//! machine: `Pcg32` reads its seed as little-endian words, and `rand` samples a
//! `usize` range whose end fits in 32 bits with 32-bit arithmetic everywhere. Each item here is trusted: its
//! contract is read off the outside crate's source and documentation.
use rand::seq::SliceRandom;
use rand::RngExt;
use rand::SeedableRng;
use vstd::prelude::*;

use crate::state::Card;

verus! {

/// The PCG generator `rand_pcg::Pcg32` (an alias of `rand_pcg::Lcg64Xsh32`).
#[verifier::external_type_specification]
#[verifier::external_body]
pub struct ExLcg64Xsh32(rand_pcg::Lcg64Xsh32);

/// A draw made from the generator, with the arguments that it was made with.
#[derive(Clone, Copy, Debug, PartialEq, Eq, Structural)]
pub enum Draw {
    Bool,
    Ratio(u32, u32),
    I32Inclusive(i32, i32),
    UsizeInclusive(usize, usize),
    UsizeBelow(usize, usize),
    Shuffle(usize),
}

/// A `Pcg32` generator together with the seed it was made from and the draws
/// made from it since, in order. Only the draws of this module change it, each
/// recording itself.
pub struct SeededRng {
    rng: rand_pcg::Lcg64Xsh32,
    seed: Ghost<[u8; 16]>,
    draws: Ghost<Seq<Draw>>,
}

impl SeededRng {
    /// The seed that the generator was made from.
    pub closed spec fn seed(&self) -> [u8; 16] {
        self.seed@
    }

    /// The draws made from the generator since it was seeded, in order.
    pub closed spec fn draws(&self) -> Seq<Draw> {
        self.draws@
    }

    /// A generator seeded with `seed`, from which nothing was drawn yet.
    pub fn from_seed(seed: [u8; 16]) -> (rng: SeededRng)
        ensures
            rng.seed() == seed,
            rng.draws() == Seq::<Draw>::empty(),
    {
        pcg32_from_seed(seed)
    }
}

/// What `rand::RngExt::random::<bool>` gives on `Pcg32` seeded with `seed` after `draws`.
pub uninterp spec fn pcg32_bool(seed: [u8; 16], draws: Seq<Draw>) -> bool;

/// What `rand::RngExt::random_ratio(numerator, denominator)` gives on `Pcg32`
/// seeded with `seed` after `draws`.
pub uninterp spec fn pcg32_ratio(seed: [u8; 16], draws: Seq<Draw>, numerator: u32, denominator: u32) -> bool;

/// What `rand::RngExt::random_range(low..=high)` gives for `i32` on `Pcg32`
/// seeded with `seed` after `draws`.
pub uninterp spec fn pcg32_i32_inclusive(seed: [u8; 16], draws: Seq<Draw>, low: i32, high: i32) -> i32;

/// What `rand::RngExt::random_range(low..=high)` gives for `usize` on `Pcg32`
/// seeded with `seed` after `draws`.
pub uninterp spec fn pcg32_usize_inclusive(seed: [u8; 16], draws: Seq<Draw>, low: usize, high: usize) -> usize;

/// What `rand::RngExt::random_range(low..high)` gives for `usize` on `Pcg32`
/// seeded with `seed` after `draws`.
pub uninterp spec fn pcg32_usize_below(seed: [u8; 16], draws: Seq<Draw>, low: usize, high: usize) -> usize;

/// The order in which `rand::seq::SliceRandom::shuffle` leaves `cards`, on
/// `Pcg32` seeded with `seed` after `draws`.
pub uninterp spec fn pcg32_shuffle(seed: [u8; 16], draws: Seq<Draw>, cards: Seq<Card>) -> Seq<Card>;

/// Calls `<rand_pcg::Pcg32 as rand::SeedableRng>::from_seed`, which reads the
/// sixteen bytes as two little-endian words and never fails. The record starts
/// with the seed and no draws.
#[verifier::external_body]
fn pcg32_from_seed(seed: [u8; 16]) -> (rng: SeededRng)
    ensures
        rng.seed() == seed,
        rng.draws() == Seq::<Draw>::empty(),
{
    SeededRng { rng: rand_pcg::Lcg64Xsh32::from_seed(seed), seed: Ghost(seed), draws: Ghost(Seq::empty()) }
}

/// Calls `rand::RngExt::random::<bool>`: the value is named `pcg32_bool` of the
/// seed and the draws before, and the draw is recorded.
#[verifier::external_body]
pub(crate) fn random_bool(rng: &mut SeededRng) -> (b: bool)
    ensures
        b == pcg32_bool(old(rng).seed(), old(rng).draws()),
        final(rng).seed() == old(rng).seed(),
        final(rng).draws() == old(rng).draws().push(Draw::Bool),
{
    let b = rng.rng.random::<bool>();
    rng.draws = Ghost(rng.draws@.push(Draw::Bool));
    b
}

/// Calls `rand::RngExt::random_ratio(numerator, denominator)`, which panics when
/// `denominator == 0` or `numerator > denominator` (left out by `requires`). The
/// value is named `pcg32_ratio`; the documentation guarantees `true` when
/// `numerator == denominator` and `false` when `numerator == 0`.
#[verifier::external_body]
pub(crate) fn random_ratio(rng: &mut SeededRng, numerator: u32, denominator: u32) -> (b: bool)
    requires
        0 < denominator,
        numerator <= denominator,
    ensures
        b == pcg32_ratio(old(rng).seed(), old(rng).draws(), numerator, denominator),
        numerator == denominator ==> b,
        numerator == 0 ==> !b,
        final(rng).seed() == old(rng).seed(),
        final(rng).draws() == old(rng).draws().push(Draw::Ratio(numerator, denominator)),
{
    let b = rng.rng.random_ratio(numerator, denominator);
    rng.draws = Ghost(rng.draws@.push(Draw::Ratio(numerator, denominator)));
    b
}

/// Calls `rand::RngExt::random_range::<i32, _>(low..=high)`, which panics on an
/// empty range (left out by `requires`) and otherwise returns a value of the
/// range, named `pcg32_i32_inclusive`.
#[verifier::external_body]
pub(crate) fn random_i32_inclusive(rng: &mut SeededRng, low: i32, high: i32) -> (r: i32)
    requires
        low <= high,
    ensures
        r == pcg32_i32_inclusive(old(rng).seed(), old(rng).draws(), low, high),
        low <= r <= high,
        final(rng).seed() == old(rng).seed(),
        final(rng).draws() == old(rng).draws().push(Draw::I32Inclusive(low, high)),
{
    let r = rng.rng.random_range(low..=high);
    rng.draws = Ghost(rng.draws@.push(Draw::I32Inclusive(low, high)));
    r
}

/// Calls `rand::RngExt::random_range::<usize, _>(low..=high)`, which panics on an
/// empty range (left out by `requires`) and otherwise returns a value of the
/// range, named `pcg32_usize_inclusive`.
#[verifier::external_body]
pub(crate) fn random_usize_inclusive(rng: &mut SeededRng, low: usize, high: usize) -> (r: usize)
    requires
        low <= high,
    ensures
        r == pcg32_usize_inclusive(old(rng).seed(), old(rng).draws(), low, high),
        low <= r <= high,
        final(rng).seed() == old(rng).seed(),
        final(rng).draws() == old(rng).draws().push(Draw::UsizeInclusive(low, high)),
{
    let r = rng.rng.random_range(low..=high);
    rng.draws = Ghost(rng.draws@.push(Draw::UsizeInclusive(low, high)));
    r
}

/// Calls `rand::RngExt::random_range::<usize, _>(low..high)`, which panics on an
/// empty range (left out by `requires`) and otherwise returns a value of the
/// range, named `pcg32_usize_below`.
#[verifier::external_body]
pub(crate) fn random_usize_below(rng: &mut SeededRng, low: usize, high: usize) -> (r: usize)
    requires
        low < high,
    ensures
        r == pcg32_usize_below(old(rng).seed(), old(rng).draws(), low, high),
        low <= r < high,
        final(rng).seed() == old(rng).seed(),
        final(rng).draws() == old(rng).draws().push(Draw::UsizeBelow(low, high)),
{
    let r = rng.rng.random_range(low..high);
    rng.draws = Ghost(rng.draws@.push(Draw::UsizeBelow(low, high)));
    r
}

/// Calls `rand::seq::SliceRandom::shuffle` on the cards, which only swaps them:
/// each card stays as often as before, in the order named `pcg32_shuffle`.
#[verifier::external_body]
pub(crate) fn shuffle_cards(cards: &mut Vec<Card>, rng: &mut SeededRng)
    ensures
        final(cards)@ == pcg32_shuffle(old(rng).seed(), old(rng).draws(), old(cards)@),
        final(cards)@.to_multiset() == old(cards)@.to_multiset(),
        final(rng).seed() == old(rng).seed(),
        final(rng).draws() == old(rng).draws().push(Draw::Shuffle(old(cards)@.len() as usize)),
{
    let len = cards.len();
    cards.shuffle(&mut rng.rng);
    rng.draws = Ghost(rng.draws@.push(Draw::Shuffle(len)));
}

/// Byte `k` of `word`, counted from the least significant byte.
pub open spec fn word_byte(word: u64, k: int) -> u8 {
    ((word >> ((8 * k) as u64)) & 0xff) as u8
}

/// The eight bytes of `word`, least significant first.
pub open spec fn le_bytes(word: u64) -> Seq<u8> {
    Seq::new(8, |k: int| word_byte(word, k))
}

/// The eight bytes of `word`, most significant first.
pub open spec fn be_bytes(word: u64) -> Seq<u8> {
    Seq::new(8, |k: int| word_byte(word, 7 - k))
}

/// `seed` is the two words `first` and `second` laid out in memory one after the
/// other, each in one byte order, the same for both: little-endian or big-endian.
pub open spec fn is_seed_of(seed: [u8; 16], first: u64, second: u64) -> bool {
    seed@ == le_bytes(first) + le_bytes(second) || seed@ == be_bytes(first) + be_bytes(second)
}

/// Calls `bytemuck::cast::<[u64; 2], [u8; 16]>`, which reinterprets the two words
/// as their sixteen bytes, the first word's before the second's, each in the
/// target's native byte order. Every Rust target is little-endian or
/// big-endian, so the seed is the words in one of these two orders; which one is
/// a property of the machine and is not claimed.
#[verifier::external_body]
pub(crate) fn words_to_seed(words: [u64; 2]) -> (seed: [u8; 16])
    ensures
        is_seed_of(seed, words[0], words[1]),
{
    bytemuck::cast::<[u64; 2], [u8; 16]>(words)
}

} // verus!
