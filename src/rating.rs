//! Guessing-game ratings. A rating is kept in tenths of a point, so that the
//! steps of +3.0 and -0.1 are exact.
use vstd::prelude::*;

verus! {

/// Tenths of a point gained by a correct guess.
pub const CORRECT_DELTA: i64 = 30;

/// Tenths of a point lost by an incorrect guess.
pub const INCORRECT_DELTA: i64 = -1;

/// The rating of a user seen for the first time.
pub const INITIAL_RATING: i64 = 0;

pub open spec fn delta(correct: bool) -> int {
    if correct {
        CORRECT_DELTA as int
    } else {
        INCORRECT_DELTA as int
    }
}

/// The rating after a guess, from the stored one (none for a new user).
/// A rating stays within the range of `i64`.
/// The stored rating, or the initial one for a new user.
pub open spec fn base_of(current: Option<i64>) -> int {
    match current {
        Some(r) => r as int,
        None => INITIAL_RATING as int,
    }
}

pub open spec fn rated(current: Option<i64>, correct: bool) -> int {
    let next = base_of(current) + delta(correct);
    if next > i64::MAX {
        i64::MAX as int
    } else if next < i64::MIN {
        i64::MIN as int
    } else {
        next
    }
}

/// The change that one guess makes to a rating.
pub fn rating_delta(correct: bool) -> (r: i64)
    ensures
        r == delta(correct),
{
    if correct {
        CORRECT_DELTA
    } else {
        INCORRECT_DELTA
    }
}

/// The rating after a guess: a new user starts from `INITIAL_RATING`; a
/// correct guess adds `CORRECT_DELTA`, an incorrect one adds
/// `INCORRECT_DELTA`.
pub fn apply_guess(current: Option<i64>, correct: bool) -> (r: i64)
    ensures
        r == rated(current, correct),
{
    let base = match current {
        Some(r) => r,
        None => INITIAL_RATING,
    };
    let d = rating_delta(correct);
    if d > 0 && base > i64::MAX - d {
        i64::MAX
    } else if d < 0 && base < i64::MIN - d {
        i64::MIN
    } else {
        base + d
    }
}

/// Two guesses of one user, applied one after the other from any stored
/// rating away from the ends of the range, give the stored rating plus both
/// changes, in either order: neither update is lost.
pub proof fn lemma_guesses_add_up(current: Option<i64>, first: bool, second: bool)
    requires
        current is Some ==> i64::MIN + 2 * CORRECT_DELTA <= current->0 <= i64::MAX - 2 * CORRECT_DELTA,
    ensures
        rated(Some(rated(current, first) as i64), second) == base_of(current) + delta(first)
            + delta(second),
        rated(Some(rated(current, first) as i64), second) == rated(
            Some(rated(current, second) as i64),
            first,
        ),
{
}

} // verus!
