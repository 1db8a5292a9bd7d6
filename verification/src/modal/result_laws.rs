//! What the results of a finished game say, stated over the game's time and
//! counters: the badge bands, the grade of a game, the finish line and the
//! shared text.
use vstd::prelude::*;

use crate::game::{decimal, digit_char, spec_short_time};
use crate::modal::results::{
    badge_emoji, spec_finish_text, spec_flawlessness, spec_precise_time, spec_share_text,
    spec_time_badge, zero_padded, Flawlessness, TimeBadge,
};
use crate::state::{CurrentGame, GameDuration};

verus! {

/// The time taken in whole milliseconds.
pub open spec fn millis_taken(elapsed: GameDuration) -> int {
    elapsed.secs * 1000 + elapsed.nanos / 1_000_000
}

/// `text` ends with `suffix`.
pub open spec fn ends_with(text: Seq<char>, suffix: Seq<char>) -> bool {
    text.len() >= suffix.len() && text.subrange(text.len() - suffix.len(), text.len() as int)
        == suffix
}

/// The seconds of an unfinished minute as two digits.
pub open spec fn two_digits(seconds: nat) -> Seq<char> {
    seq![digit_char(seconds / 10), digit_char(seconds % 10)]
}

/// The link that ends the shared results.
pub open spec fn share_link() -> Seq<char> {
    "\nhttps://kfc35.github.io/daily_set/"@
}

/// The badge goes by the time taken: up to 10 s the bowing crown, up to 30 s
/// the crown and bow, up to 60 whole seconds the medal, up to two minutes the
/// race car, up to five minutes the green heart, and none after that. The crown
/// alone is never given.
pub proof fn lemma_time_badge_bands(elapsed: GameDuration)
    ensures
        spec_time_badge(elapsed) == TimeBadge::BowingToTheCrown <==> millis_taken(elapsed) <= 10_000,
        spec_time_badge(elapsed) == TimeBadge::CrownAndBow <==> 10_000 < millis_taken(elapsed)
            <= 30_000,
        spec_time_badge(elapsed) != TimeBadge::Crown,
        spec_time_badge(elapsed) == TimeBadge::Medal <==> 30_000 < millis_taken(elapsed)
            && elapsed.secs <= 60,
        spec_time_badge(elapsed) == TimeBadge::RaceCar <==> elapsed.secs > 60 && millis_taken(
            elapsed,
        ) <= 120_000,
        spec_time_badge(elapsed) == TimeBadge::GreenHeart <==> elapsed.secs > 60 && 120_000
            < millis_taken(elapsed) <= 300_000,
        spec_time_badge(elapsed) == TimeBadge::NoBadge <==> elapsed.secs > 60 && millis_taken(
            elapsed,
        ) > 300_000,
{
}

/// A game is graded by its counters: no mistake at all when neither a wrong
/// guess nor a set guessed again was made, no incorrect guess when only sets
/// were guessed again, and with mistakes as soon as a guess was wrong.
pub proof fn lemma_flawlessness_grades(game: CurrentGame)
    ensures
        spec_flawlessness(game) == Flawlessness::NoMistakes <==> game.mistake_counter == 0
            && game.already_guessed_counter == 0,
        spec_flawlessness(game) == Flawlessness::NoIncorrectGuesses <==> game.mistake_counter == 0
            && game.already_guessed_counter > 0,
        spec_flawlessness(game) == Flawlessness::WithMistakes <==> game.mistake_counter > 0,
{
}

/// The finish line names the date and the precise time, then ends with
/// " - No Mistakes!" when neither counter moved, with " - No Incorrect
/// Guesses!" when only sets were guessed again, and with the time itself when
/// a guess was wrong.
pub proof fn lemma_finish_text_note(date: Seq<char>, game: CurrentGame)
    ensures
        game.mistake_counter == 0 && game.already_guessed_counter == 0 ==> spec_finish_text(
            date,
            game,
        ) == "You finished the Daily Set for "@ + date + ": "@ + spec_precise_time(game.elapsed)
            + " - No Mistakes!"@,
        game.mistake_counter == 0 && game.already_guessed_counter > 0 ==> spec_finish_text(
            date,
            game,
        ) == "You finished the Daily Set for "@ + date + ": "@ + spec_precise_time(game.elapsed)
            + " - No Incorrect Guesses!"@,
        game.mistake_counter > 0 ==> spec_finish_text(date, game)
            == "You finished the Daily Set for "@ + date + ": "@ + spec_precise_time(
            game.elapsed,
        ),
{
    lemma_flawlessness_grades(game);
    assert(""@ =~= Seq::<char>::empty()) by {
        reveal_strlit("");
    }
    if game.mistake_counter > 0 {
        assert(spec_finish_text(date, game) =~= "You finished the Daily Set for "@ + date + ": "@
            + spec_precise_time(game.elapsed));
    }
}

/// A number below a hundred, padded to two digits, is its tens and its units.
pub proof fn lemma_padded_seconds(seconds: nat)
    requires
        seconds < 100,
    ensures
        zero_padded(decimal(seconds), 2) == two_digits(seconds),
{
    reveal_with_fuel(decimal, 2);
    if seconds < 10 {
        assert(digit_char(0) == '0');
        assert(zero_padded(decimal(seconds), 2) =~= two_digits(seconds));
    } else {
        assert(decimal(seconds / 10) == seq![digit_char(seconds / 10)]);
        assert(zero_padded(decimal(seconds), 2) =~= two_digits(seconds));
    }
}

/// The shared results start with the date and the time taken: the whole
/// minutes, a colon, and the seconds of the unfinished minute as two digits
/// (65 s gives `1:05`).
pub proof fn lemma_share_text_time(date: Seq<char>, game: CurrentGame)
    ensures
        ({
            let head = "#DailySet - "@ + date + "\n"@ + decimal((game.elapsed.secs / 60) as nat)
                + ":"@ + two_digits((game.elapsed.secs % 60) as nat);
            spec_share_text(date, game).len() >= head.len() && spec_share_text(date, game).take(
                head.len() as int,
            ) == head
        }),
{
    let head = "#DailySet - "@ + date + "\n"@ + decimal((game.elapsed.secs / 60) as nat) + ":"@
        + two_digits((game.elapsed.secs % 60) as nat);
    lemma_padded_seconds((game.elapsed.secs % 60) as nat);
    let rest = badge_emoji(spec_time_badge(game.elapsed)) + crate::modal::results::mistake_note(
        spec_flawlessness(game),
    ) + share_link();
    assert(spec_share_text(date, game) =~= head + rest);
    assert((head + rest).take(head.len() as int) =~= head);
}

/// The shared results end with the note of a flawless game, then the link: the
/// diamond "No Mistakes" when neither counter moved, "No Incorrect Guesses"
/// when only sets were guessed again; after a wrong guess no note stands between
/// the badge and the link.
pub proof fn lemma_share_text_note(date: Seq<char>, game: CurrentGame)
    ensures
        game.mistake_counter == 0 && game.already_guessed_counter == 0 ==> ends_with(
            spec_share_text(date, game),
            "\n💎 No Mistakes"@ + share_link(),
        ),
        game.mistake_counter == 0 && game.already_guessed_counter > 0 ==> ends_with(
            spec_share_text(date, game),
            "\n💯 No Incorrect Guesses"@ + share_link(),
        ),
        game.mistake_counter > 0 ==> spec_share_text(date, game) == "#DailySet - "@ + date
            + "\n"@ + decimal((game.elapsed.secs / 60) as nat) + ":"@ + two_digits(
            (game.elapsed.secs % 60) as nat,
        ) + badge_emoji(spec_time_badge(game.elapsed)) + share_link(),
{
    lemma_flawlessness_grades(game);
    lemma_padded_seconds((game.elapsed.secs % 60) as nat);
    let head = "#DailySet - "@ + date + "\n"@ + decimal((game.elapsed.secs / 60) as nat) + ":"@
        + two_digits((game.elapsed.secs % 60) as nat) + badge_emoji(spec_time_badge(game.elapsed));
    let text = spec_share_text(date, game);
    if game.mistake_counter == 0 && game.already_guessed_counter == 0 {
        let suffix = "\n💎 No Mistakes"@ + share_link();
        assert(text =~= head + suffix);
        assert(text.subrange(text.len() - suffix.len(), text.len() as int) =~= suffix);
    } else if game.mistake_counter == 0 {
        let suffix = "\n💯 No Incorrect Guesses"@ + share_link();
        assert(text =~= head + suffix);
        assert(text.subrange(text.len() - suffix.len(), text.len() as int) =~= suffix);
    } else {
        assert(""@ =~= Seq::<char>::empty()) by {
            reveal_strlit("");
        }
        assert(text =~= head + share_link());
    }
}

/// A number below a thousand as three digits.
pub open spec fn three_digits(n: nat) -> Seq<char> {
    seq![digit_char(n / 100), digit_char((n / 10) % 10), digit_char(n % 10)]
}

/// A number below a thousand, padded to three digits, is its hundreds, tens and
/// units.
pub proof fn lemma_padded_millis(n: nat)
    requires
        n < 1000,
    ensures
        zero_padded(decimal(n), 3) == three_digits(n),
{
    reveal_with_fuel(decimal, 3);
    assert(digit_char(0) == '0');
    if n < 10 {
        assert(zero_padded(decimal(n), 3) =~= three_digits(n));
    } else if n < 100 {
        assert(decimal(n / 10) == seq![digit_char(n / 10)]);
        assert(zero_padded(decimal(n), 3) =~= three_digits(n));
    } else {
        assert(decimal(n / 100) == seq![digit_char(n / 100)]);
        assert(n / 10 / 10 == n / 100);
        assert(decimal(n / 10) == seq![digit_char(n / 100), digit_char((n / 10) % 10)]);
        assert(zero_padded(decimal(n), 3) =~= three_digits(n));
    }
}

/// The precise time of the results modal, for a game under a hundred minutes,
/// is `mm:ss.mmm`: the minutes and the seconds as two digits, the milliseconds
/// as three.
pub proof fn lemma_precise_time_digits(elapsed: GameDuration)
    requires
        elapsed.wf(),
        elapsed.secs < 6000,
    ensures
        spec_precise_time(elapsed) == two_digits((elapsed.secs / 60) as nat) + ":"@ + two_digits(
            (elapsed.secs % 60) as nat,
        ) + "."@ + three_digits((elapsed.nanos / 1_000_000) as nat),
{
    lemma_padded_seconds((elapsed.secs / 60) as nat);
    lemma_padded_seconds((elapsed.secs % 60) as nat);
    lemma_padded_millis((elapsed.nanos / 1_000_000) as nat);
}

/// The short time of the game-over section, for a game under a hundred
/// minutes, is `mm:ss`: the minutes and the seconds as two digits.
pub proof fn lemma_short_time_digits(elapsed: GameDuration)
    requires
        elapsed.secs < 6000,
    ensures
        spec_short_time(elapsed) == two_digits((elapsed.secs / 60) as nat) + ":"@ + two_digits(
            (elapsed.secs % 60) as nat,
        ),
{
    lemma_padded_seconds((elapsed.secs / 60) as nat);
    lemma_padded_seconds((elapsed.secs % 60) as nat);
}

/// The badge shown in the shared results for each band of time: the bowing
/// crown up to 10 s, the crown and bow up to 30 s, the medal up to 60 whole
/// seconds, the race car up to two minutes, the green heart up to five, and
/// nothing after that.
pub proof fn lemma_badge_emojis(elapsed: GameDuration)
    ensures
        millis_taken(elapsed) <= 10_000 ==> badge_emoji(spec_time_badge(elapsed)) == " 🙇👑🙇"@,
        10_000 < millis_taken(elapsed) <= 30_000 ==> badge_emoji(spec_time_badge(elapsed))
            == " 👑🙇"@,
        30_000 < millis_taken(elapsed) && elapsed.secs <= 60 ==> badge_emoji(
            spec_time_badge(elapsed),
        ) == " 🏅"@,
        elapsed.secs > 60 && millis_taken(elapsed) <= 120_000 ==> badge_emoji(
            spec_time_badge(elapsed),
        ) == " 🏎️"@,
        elapsed.secs > 60 && 120_000 < millis_taken(elapsed) <= 300_000 ==> badge_emoji(
            spec_time_badge(elapsed),
        ) == " 💚"@,
        elapsed.secs > 60 && millis_taken(elapsed) > 300_000 ==> badge_emoji(
            spec_time_badge(elapsed),
        ) == ""@,
{
    lemma_time_badge_bands(elapsed);
}

} // verus!
