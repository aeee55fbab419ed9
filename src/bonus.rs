//! Weights of the scorer and the positional bonus of each text byte.
use vstd::prelude::*;

verus! {

/// Penalty per text byte skipped before the first matched byte, in thousandths.
pub const SCORE_GAP_LEADING: i32 = -5;

/// Penalty per text byte skipped after the last matched byte, in thousandths.
pub const SCORE_GAP_TRAILING: i32 = -5;

/// Penalty per text byte skipped between two matched bytes, in thousandths.
pub const SCORE_GAP_INNER: i32 = -10;

/// Credit for a match that directly follows the previous one, in thousandths.
pub const SCORE_MATCH_CONSECUTIVE: i32 = 1000;

/// Credit for a match right after `/`, in thousandths.
pub const SCORE_MATCH_SLASH: i32 = 900;

/// Credit for a match right after `-`, `_` or a space, in thousandths.
pub const SCORE_MATCH_WORD: i32 = 800;

/// Credit for an upper-case match right after a lower-case letter, in thousandths.
pub const SCORE_MATCH_CAPITAL: i32 = 700;

/// Credit for a match right after `.`, in thousandths.
pub const SCORE_MATCH_DOT: i32 = 600;

/// The tunable weights of the scorer, all in thousandths of a point.
#[derive(Clone, Copy, Debug, PartialEq, Eq)]
pub struct Weights {
    pub gap_leading: i32,
    pub gap_trailing: i32,
    pub gap_inner: i32,
    pub match_consecutive: i32,
    pub match_slash: i32,
    pub match_word: i32,
    pub match_capital: i32,
    pub match_dot: i32,
}

/// The weights named by the `SCORE_*` constants.
pub open spec fn standard_weights() -> Weights {
    Weights {
        gap_leading: SCORE_GAP_LEADING,
        gap_trailing: SCORE_GAP_TRAILING,
        gap_inner: SCORE_GAP_INNER,
        match_consecutive: SCORE_MATCH_CONSECUTIVE,
        match_slash: SCORE_MATCH_SLASH,
        match_word: SCORE_MATCH_WORD,
        match_capital: SCORE_MATCH_CAPITAL,
        match_dot: SCORE_MATCH_DOT,
    }
}

impl Weights {
    /// The weights named by the `SCORE_*` constants.
    pub fn standard() -> (r: Weights)
        ensures
            r == standard_weights(),
    {
        Weights {
            gap_leading: SCORE_GAP_LEADING,
            gap_trailing: SCORE_GAP_TRAILING,
            gap_inner: SCORE_GAP_INNER,
            match_consecutive: SCORE_MATCH_CONSECUTIVE,
            match_slash: SCORE_MATCH_SLASH,
            match_word: SCORE_MATCH_WORD,
            match_capital: SCORE_MATCH_CAPITAL,
            match_dot: SCORE_MATCH_DOT,
        }
    }
}

pub const UPPER_A: u8 = 65;
pub const UPPER_Z: u8 = 90;
pub const LOWER_A: u8 = 97;
pub const LOWER_Z: u8 = 122;
pub const DIGIT_0: u8 = 48;
pub const DIGIT_9: u8 = 57;
pub const SLASH: u8 = 47;
pub const DASH: u8 = 45;
pub const UNDERSCORE: u8 = 95;
pub const SPACE: u8 = 32;
pub const DOT: u8 = 46;
/// Distance from an upper-case ASCII letter to its lower-case form.
pub const CASE_OFFSET: u8 = 32;

/// An ASCII upper-case letter.
pub open spec fn is_upper(c: u8) -> bool {
    UPPER_A <= c <= UPPER_Z
}

/// An ASCII lower-case letter.
pub open spec fn is_lower(c: u8) -> bool {
    LOWER_A <= c <= LOWER_Z
}

/// An ASCII digit.
pub open spec fn is_digit(c: u8) -> bool {
    DIGIT_0 <= c <= DIGIT_9
}

/// `-`, `_` or a space.
pub open spec fn is_word_separator(c: u8) -> bool {
    c == DASH || c == UNDERSCORE || c == SPACE
}

/// The ASCII lower-case form of `c`; other bytes stay as they are.
pub open spec fn fold(c: u8) -> u8 {
    if is_upper(c) {
        (c + CASE_OFFSET) as u8
    } else {
        c
    }
}

/// The bonus of a letter or digit by the byte before it (upper case letters
/// also earn the capital bonus after a lower case letter); other bytes earn none.
pub open spec fn bonus_of(w: Weights, cur: u8, prev: u8) -> int {
    if is_upper(cur) || is_lower(cur) || is_digit(cur) {
        if is_upper(cur) && is_lower(prev) {
            w.match_capital as int
        } else if prev == SLASH {
            w.match_slash as int
        } else if is_word_separator(prev) {
            w.match_word as int
        } else if prev == DOT {
            w.match_dot as int
        } else {
            0
        }
    } else {
        0
    }
}

/// The bonus of position `i` of `t`; a `/` is taken to stand before the text.
pub open spec fn bonus_at(w: Weights, t: Seq<u8>, i: int) -> int {
    bonus_of(w, t[i], if i == 0 { SLASH } else { t[i - 1] })
}

/// The ASCII lower-case form of a byte.
pub fn fold_case(c: u8) -> (r: u8)
    ensures
        r == fold(c),
{
    if UPPER_A <= c && c <= UPPER_Z {
        c + CASE_OFFSET
    } else {
        c
    }
}

/// The bonus that a match of `cur` earns when `prev` stands before it.
pub fn compute_bonus(w: &Weights, cur: u8, prev: u8) -> (r: i32)
    ensures
        r == bonus_of(*w, cur, prev),
{
    if UPPER_A <= cur && cur <= UPPER_Z {
        if LOWER_A <= prev && prev <= LOWER_Z {
            w.match_capital
        } else if prev == SLASH {
            w.match_slash
        } else if prev == DASH || prev == UNDERSCORE || prev == SPACE {
            w.match_word
        } else if prev == DOT {
            w.match_dot
        } else {
            0
        }
    } else if (LOWER_A <= cur && cur <= LOWER_Z) || (DIGIT_0 <= cur && cur <= DIGIT_9) {
        if prev == SLASH {
            w.match_slash
        } else if prev == DASH || prev == UNDERSCORE || prev == SPACE {
            w.match_word
        } else if prev == DOT {
            w.match_dot
        } else {
            0
        }
    } else {
        0
    }
}

/// The bonus of every position of `text`, from the text's own casing.
pub fn compute_bonuses(w: &Weights, text: &[u8]) -> (r: Vec<i32>)
    ensures
        r@.len() == text@.len(),
        forall|i: int| 0 <= i < text@.len() ==> r@[i] == bonus_at(*w, text@, i),
{
    let mut r: Vec<i32> = Vec::with_capacity(text.len());
    let mut prev: u8 = SLASH;
    let mut i: usize = 0;
    while i < text.len()
        invariant
            i <= text@.len(),
            r@.len() == i,
            prev == (if i == 0 { SLASH } else { text@[i - 1] }),
            forall|j: int| 0 <= j < i ==> r@[j] == bonus_at(*w, text@, j),
        decreases text@.len() - i,
    {
        let cur = text[i];
        r.push(compute_bonus(w, cur, prev));
        prev = cur;
        i = i + 1;
    }
    r
}

} // verus!
