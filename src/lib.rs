//! Fuzzy matching of a short query against candidate strings: a cheap
//! subsequence filter and a bonus-aware dynamic-programming scorer.

pub mod bonus;
pub mod scoring;
pub mod subsequence;

pub use bonus::{
    Weights, SCORE_GAP_INNER, SCORE_GAP_LEADING, SCORE_GAP_TRAILING, SCORE_MATCH_CAPITAL,
    SCORE_MATCH_CONSECUTIVE, SCORE_MATCH_DOT, SCORE_MATCH_SLASH, SCORE_MATCH_WORD,
};
pub use scoring::{score, score_with, Score, SCORE_MAX, SCORE_MIN};
pub use subsequence::has_match;
