//! What the results modal and the shared results say about a finished game.
use vstd::prelude::*;

use crate::modal::results_banner::{
    is_animation_banner, is_static_banner, spec_animation_banner, spec_static_banner, ResultsBanner,
};
use crate::game::{decimal, decimal_string, lemma_decimal_len, minutes_and_seconds};
use crate::rng::{
    is_seed_of, pcg32_bool, pcg32_usize_below, random_bool, random_usize_below, words_to_seed, Draw,
    SeededRng,
};
use crate::state::{day_word, CurrentGame, GameDuration};

verus! {

/// How clean a finished game was.
#[derive(Clone, Copy, Debug, PartialEq, Eq, Structural)]
pub enum Flawlessness {
    /// No wrong guess and no set guessed twice.
    NoMistakes,
    /// No wrong guess, but some set guessed twice.
    NoIncorrectGuesses,
    /// Some wrong guess.
    WithMistakes,
}

/// How clean a game was: no mistake and no set guessed again, no mistake, or
/// some mistake.
pub open spec fn spec_flawlessness(game: CurrentGame) -> Flawlessness {
    if game.mistake_counter == 0 && game.already_guessed_counter == 0 {
        Flawlessness::NoMistakes
    } else if game.mistake_counter == 0 {
        Flawlessness::NoIncorrectGuesses
    } else {
        Flawlessness::WithMistakes
    }
}

/// How clean the game was, from its two counters.
pub fn flawlessness(game: &CurrentGame) -> (kind: Flawlessness)
    ensures
        kind == spec_flawlessness(*game),
{
    if game.mistake_counter == 0 && game.already_guessed_counter == 0 {
        Flawlessness::NoMistakes
    } else if game.mistake_counter == 0 {
        Flawlessness::NoIncorrectGuesses
    } else {
        Flawlessness::WithMistakes
    }
}

/// The badge that the shared results give for the time taken.
#[derive(Clone, Copy, Debug, PartialEq, Eq, Structural)]
pub enum TimeBadge {
    /// Ten seconds or less.
    BowingToTheCrown,
    /// Thirty seconds or less.
    CrownAndBow,
    /// A crown alone (the conditions before it leave no time for it).
    Crown,
    /// One minute or less, counted in whole seconds.
    Medal,
    /// Two minutes or less.
    RaceCar,
    /// Five minutes or less.
    GreenHeart,
    /// Longer than five minutes.
    NoBadge,
}

/// The elapsed time in whole milliseconds.
pub open spec fn elapsed_millis(elapsed: GameDuration) -> int {
    elapsed.secs * 1000 + elapsed.nanos / 1_000_000
}

/// The badge for the time taken: up to 10 s, up to 30 s, up to 60 whole
/// seconds, up to 2 min, up to 5 min, or none.
pub open spec fn spec_time_badge(elapsed: GameDuration) -> TimeBadge {
    if elapsed_millis(elapsed) <= 10_000 {
        TimeBadge::BowingToTheCrown
    } else if elapsed_millis(elapsed) <= 30_000 {
        TimeBadge::CrownAndBow
    } else if elapsed.secs <= 60 {
        TimeBadge::Medal
    } else if elapsed_millis(elapsed) <= 120_000 {
        TimeBadge::RaceCar
    } else if elapsed_millis(elapsed) <= 300_000 {
        TimeBadge::GreenHeart
    } else {
        TimeBadge::NoBadge
    }
}

/// The badge that the shared results give for the time taken.
pub fn time_badge(elapsed: &GameDuration) -> (badge: TimeBadge)
    requires
        elapsed.wf(),
    ensures
        badge == spec_time_badge(*elapsed),
{
    let mins = elapsed.as_secs() / 60;
    let secs = elapsed.as_secs() % 60;
    let millis = elapsed.subsec_millis();
    if mins == 0 && secs == 10 && millis == 0 || mins == 0 && secs < 10 {
        TimeBadge::BowingToTheCrown
    } else if mins == 0 && secs == 30 && millis == 0 || mins == 0 && secs < 30 {
        TimeBadge::CrownAndBow
    } else if mins == 0 && secs == 30 && millis == 0 || mins == 0 && secs < 30 {
        TimeBadge::Crown
    } else if mins == 1 && secs == 0 || mins < 1 {
        TimeBadge::Medal
    } else if mins == 2 && secs == 0 && millis == 0 || mins < 2 {
        TimeBadge::RaceCar
    } else if mins == 5 && secs == 0 && millis == 0 || mins < 5 {
        TimeBadge::GreenHeart
    } else {
        TimeBadge::NoBadge
    }
}

/// The banner for the draws made: an animation picked by `draw` when the game
/// took less than three minutes; otherwise the caturday banner when it is a
/// Saturday and the coin says so, else the static banner picked by `draw`.
pub fn banner_from_draws(elapsed_secs: u64, is_saturday: bool, coin: bool, draw: usize) -> (banner:
    ResultsBanner)
    requires
        elapsed_secs / 60 < 3 ==> draw < 5,
        elapsed_secs / 60 >= 3 ==> draw < 3,
    ensures
        elapsed_secs / 60 < 3 ==> banner == crate::modal::results_banner::spec_animation_banner(
            draw as int,
        ),
        elapsed_secs / 60 >= 3 && is_saturday && coin ==> banner == ResultsBanner::HappyCaturday,
        elapsed_secs / 60 >= 3 && !(is_saturday && coin) ==> banner
            == crate::modal::results_banner::spec_static_banner(draw as int),
{
    if elapsed_secs / 60 < 3 {
        ResultsBanner::animation(draw)
    } else if is_saturday && coin {
        ResultsBanner::HappyCaturday
    } else {
        ResultsBanner::static_banner(draw)
    }
}

/// The banner that a generator seeded with `seed` gives for a game of
/// `elapsed_secs`: under three minutes an animation picked by a draw from
/// `0..5`; otherwise, on a Saturday, a coin first gives the caturday banner;
/// else a static banner picked by a draw from `0..3`.
pub open spec fn spec_banner_for_seed(seed: [u8; 16], elapsed_secs: u64, is_saturday: bool) -> ResultsBanner {
    let none = Seq::<Draw>::empty();
    if elapsed_secs / 60 < 3 {
        spec_animation_banner(pcg32_usize_below(seed, none, 0, 5) as int)
    } else if is_saturday && pcg32_bool(seed, none) {
        ResultsBanner::HappyCaturday
    } else if is_saturday {
        spec_static_banner(pcg32_usize_below(seed, none.push(Draw::Bool), 0, 3) as int)
    } else {
        spec_static_banner(pcg32_usize_below(seed, none, 0, 3) as int)
    }
}

/// The banner that the draws from a generator seeded with `seed` give (see
/// `spec_banner_for_seed`).
pub fn banner_for_seed(seed: [u8; 16], elapsed_secs: u64, is_saturday: bool) -> (banner: ResultsBanner)
    ensures
        banner == spec_banner_for_seed(seed, elapsed_secs, is_saturday),
        elapsed_secs / 60 < 3 ==> is_animation_banner(banner),
        elapsed_secs / 60 >= 3 ==> is_static_banner(banner) || (is_saturday && banner
            == ResultsBanner::HappyCaturday),
{
    let mut rng = SeededRng::from_seed(seed);
    // A time of less than 3 minutes deserves an animation
    if elapsed_secs / 60 < 3 {
        let draw = random_usize_below(&mut rng, 0, 5);
        banner_from_draws(elapsed_secs, is_saturday, false, draw)
    }
    // randomly give caturday image on a saturday
    else if is_saturday && random_bool(&mut rng) {
        banner_from_draws(elapsed_secs, is_saturday, true, 0)
    } else {
        let draw = random_usize_below(&mut rng, 0, 3);
        banner_from_draws(elapsed_secs, false, false, draw)
    }
}

/// Determines which result banner to give based on the game.
///
/// The draws come from a generator seeded with the elapsed seconds and the day
/// of the year (shifted left by one bit, see `seed_words`), whose bytes are in
/// the machine's byte order; `banner_for_seed` makes them. A time of less than
/// three minutes deserves an animation; on a Saturday the caturday banner may
/// come instead of a static one. The banners for 2026/07/10, 2026/07/11 and
/// 2026/07/12 are meant to be special ones past the three static banners, which
/// do not exist; those dates are left out.
pub fn get_result_banner(date: &String, elapsed_secs: u64, day_of_year: u64, is_saturday: bool) -> (banner:
    ResultsBanner)
    requires
        date@ != "2026/07/12"@,
        date@ != "2026/07/11"@,
        date@ != "2026/07/10"@,
    ensures
        exists|seed: [u8; 16]|
            is_seed_of(seed, elapsed_secs, day_word(day_of_year)) && banner == #[trigger] spec_banner_for_seed(
                seed,
                elapsed_secs,
                is_saturday,
            ),
        elapsed_secs / 60 < 3 ==> is_animation_banner(banner),
        elapsed_secs / 60 >= 3 ==> is_static_banner(banner) || (is_saturday && banner
            == ResultsBanner::HappyCaturday),
{
    let results_banner_seed = words_to_seed(crate::state::seed_words(elapsed_secs, day_of_year));
    let banner = banner_for_seed(results_banner_seed, elapsed_secs, is_saturday);
    assert(is_seed_of(results_banner_seed, elapsed_secs, day_word(day_of_year)) && banner
        == spec_banner_for_seed(results_banner_seed, elapsed_secs, is_saturday));
    banner
}

/// `digits` with zeros in front, up to `width` characters.
pub open spec fn zero_padded(digits: Seq<char>, width: nat) -> Seq<char> {
    if digits.len() >= width {
        digits
    } else {
        Seq::new((width - digits.len()) as nat, |i: int| '0') + digits
    }
}

/// `n` in decimal with zeros in front, up to `width` characters (at most three).
pub fn padded_decimal(n: u64, width: usize) -> (text: String)
    requires
        width <= 3,
    ensures
        text@ == zero_padded(decimal(n as nat), width as nat),
{
    proof {
        lemma_decimal_len(n as nat);
        reveal_strlit("0");
        reveal_strlit("00");
    }
    let digits = decimal_string(n);
    let length: usize = if n < 10 {
        1
    } else if n < 100 {
        2
    } else {
        3
    };
    let mut text = String::new();
    if length + 2 <= width {
        text.append("00");
    } else if length + 1 <= width {
        text.append("0");
    }
    text.append(digits.as_str());
    assert(text@ =~= zero_padded(decimal(n as nat), width as nat));
    text
}

/// The time of a finished game as the results show it: minutes and seconds of
/// two digits at least, and milliseconds of three: `mm:ss.mmm`.
pub open spec fn spec_precise_time(elapsed: GameDuration) -> Seq<char> {
    zero_padded(decimal((elapsed.secs / 60) as nat), 2) + ":"@ + zero_padded(
        decimal((elapsed.secs % 60) as nat),
        2,
    ) + "."@ + zero_padded(decimal((elapsed.nanos / 1_000_000) as nat), 3)
}

/// The time of a finished game as the results show it (see `spec_precise_time`).
pub fn precise_time(elapsed: &GameDuration) -> (text: String)
    ensures
        text@ == spec_precise_time(*elapsed),
{
    proof {
        reveal_strlit(":");
        reveal_strlit(".");
    }
    let (mins, secs) = minutes_and_seconds(elapsed);
    let mut text = padded_decimal(mins, 2);
    text.append(":");
    let seconds = padded_decimal(secs, 2);
    text.append(seconds.as_str());
    text.append(".");
    let millis = padded_decimal(elapsed.subsec_millis() as u64, 3);
    text.append(millis.as_str());
    text
}

/// What the shared results add after the time for a badge.
pub open spec fn badge_emoji(badge: TimeBadge) -> Seq<char> {
    match badge {
        TimeBadge::BowingToTheCrown => " 🙇👑🙇"@,
        TimeBadge::CrownAndBow => " 👑🙇"@,
        TimeBadge::Crown => " 👑"@,
        TimeBadge::Medal => " 🏅"@,
        TimeBadge::RaceCar => " 🏎️"@,
        TimeBadge::GreenHeart => " 💚"@,
        TimeBadge::NoBadge => ""@,
    }
}

/// What the shared results add after the time for a badge.
fn badge_emoji_str(badge: TimeBadge) -> (emoji: &'static str)
    ensures
        emoji@ == badge_emoji(badge),
{
    match badge {
        TimeBadge::BowingToTheCrown => " 🙇👑🙇",
        TimeBadge::CrownAndBow => " 👑🙇",
        TimeBadge::Crown => " 👑",
        TimeBadge::Medal => " 🏅",
        TimeBadge::RaceCar => " 🏎️",
        TimeBadge::GreenHeart => " 💚",
        TimeBadge::NoBadge => "",
    }
}

/// The line that the shared results add for a flawless game.
pub open spec fn mistake_note(kind: Flawlessness) -> Seq<char> {
    match kind {
        Flawlessness::NoMistakes => "\n💎 No Mistakes"@,
        Flawlessness::NoIncorrectGuesses => "\n💯 No Incorrect Guesses"@,
        Flawlessness::WithMistakes => ""@,
    }
}

/// The line that the shared results add for a flawless game.
fn mistake_note_str(kind: Flawlessness) -> (note: &'static str)
    ensures
        note@ == mistake_note(kind),
{
    match kind {
        Flawlessness::NoMistakes => "\n💎 No Mistakes",
        Flawlessness::NoIncorrectGuesses => "\n💯 No Incorrect Guesses",
        Flawlessness::WithMistakes => "",
    }
}

/// The results to share: the date, the time as minutes and seconds of two
/// digits, the badge of the time, the note of a flawless game, and the link.
pub open spec fn spec_share_text(date: Seq<char>, game: CurrentGame) -> Seq<char> {
    "#DailySet - "@ + date + "\n"@ + decimal((game.elapsed.secs / 60) as nat) + ":"@
        + zero_padded(decimal((game.elapsed.secs % 60) as nat), 2) + badge_emoji(
        spec_time_badge(game.elapsed),
    ) + mistake_note(spec_flawlessness(game)) + "\nhttps://kfc35.github.io/daily_set/"@
}

/// The results to share (see `spec_share_text`).
pub fn share_text(date: &String, game: &CurrentGame) -> (text: String)
    requires
        game.elapsed.wf(),
    ensures
        text@ == spec_share_text(date@, *game),
{
    proof {
        reveal_strlit("#DailySet - ");
        reveal_strlit("\n");
        reveal_strlit(":");
        reveal_strlit("\nhttps://kfc35.github.io/daily_set/");
    }
    let (mins, secs) = minutes_and_seconds(&game.elapsed);
    let mut text = String::from_str("#DailySet - ");
    text.append(date.as_str());
    text.append("\n");
    let minutes = decimal_string(mins);
    text.append(minutes.as_str());
    text.append(":");
    let seconds = padded_decimal(secs, 2);
    text.append(seconds.as_str());
    text.append(badge_emoji_str(time_badge(&game.elapsed)));
    text.append(mistake_note_str(flawlessness(game)));
    text.append("\nhttps://kfc35.github.io/daily_set/");
    text
}

/// What the results modal adds after the time for a flawless game.
pub open spec fn flawless_note(kind: Flawlessness) -> Seq<char> {
    match kind {
        Flawlessness::NoMistakes => " - No Mistakes!"@,
        Flawlessness::NoIncorrectGuesses => " - No Incorrect Guesses!"@,
        Flawlessness::WithMistakes => ""@,
    }
}

/// The line of the results modal: the date, the precise time, and the note of
/// a flawless game.
pub open spec fn spec_finish_text(date: Seq<char>, game: CurrentGame) -> Seq<char> {
    "You finished the Daily Set for "@ + date + ": "@ + spec_precise_time(game.elapsed)
        + flawless_note(spec_flawlessness(game))
}

/// The line of the results modal (see `spec_finish_text`).
pub fn finish_text(date: &String, game: &CurrentGame) -> (text: String)
    ensures
        text@ == spec_finish_text(date@, *game),
{
    proof {
        reveal_strlit("You finished the Daily Set for ");
        reveal_strlit(": ");
        reveal_strlit(" - No Mistakes!");
        reveal_strlit(" - No Incorrect Guesses!");
        reveal_strlit("");
    }
    let mut text = String::from_str("You finished the Daily Set for ");
    text.append(date.as_str());
    text.append(": ");
    let time = precise_time(&game.elapsed);
    text.append(time.as_str());
    let note = match flawlessness(game) {
        Flawlessness::NoMistakes => " - No Mistakes!",
        Flawlessness::NoIncorrectGuesses => " - No Incorrect Guesses!",
        Flawlessness::WithMistakes => "",
    };
    text.append(note);
    text
}

} // verus!
