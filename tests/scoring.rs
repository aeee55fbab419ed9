use fzy::{
    score, Score, SCORE_GAP_INNER, SCORE_GAP_LEADING, SCORE_GAP_TRAILING, SCORE_MATCH_CAPITAL,
    SCORE_MATCH_CONSECUTIVE, SCORE_MATCH_DOT, SCORE_MATCH_SLASH, SCORE_MAX, SCORE_MIN,
};

fn pts(thousandths: i32) -> Score {
    Score::Points(thousandths as i128)
}

#[test]
fn should_prefer_starts_of_words() {
    // App/Models/Order is better than App/MOdels/zRder
    assert!(score(b"amor", b"app/models/order") > score(b"amor", b"app/models/zrder"));
}

#[test]
fn should_prefer_consecutive_letters() {
    // App/MOdels/foo is better than App/M/fOo
    assert!(score(b"amo", b"app/m/foo") < score(b"amo", b"app/models/foo"));
}

#[test]
fn should_prefer_contiguous_over_letter_following_period() {
    // GEMFIle.Lock < GEMFILe
    assert!(score(b"gemfil", b"Gemfile.lock") < score(b"gemfil", b"Gemfile"));
}

#[test]
fn should_prefer_shorter_matches() {
    assert!(score(b"abce", b"abcdef") > score(b"abce", b"abc de"));
    assert!(score(b"abc", b"    a b c ") > score(b"abc", b" a  b  c "));
    assert!(score(b"abc", b" a b c    ") > score(b"abc", b" a  b  c "));
}

#[test]
fn should_prefer_shorter_candidates() {
    assert!(score(b"test", b"tests") > score(b"test", b"testing"));
}

#[test]
fn should_prefer_start_of_candidate() {
    // Scores first letter highly
    assert!(score(b"test", b"testing") > score(b"test", b"/testing"));
}

#[test]
fn score_exact_match() {
    // Exact score is SCORE_MAX
    assert_eq!(SCORE_MAX, score(b"abc", b"abc"));
    assert_eq!(SCORE_MAX, score(b"aBc", b"abC"));
}

#[test]
fn score_empty_query() {
    // Empty query always results in SCORE_MIN
    assert_eq!(SCORE_MIN, score(b"", b""));
    assert_eq!(SCORE_MIN, score(b"", b"a"));
    assert_eq!(SCORE_MIN, score(b"", b"bb"));
}

#[test]
fn score_gaps() {
    assert_eq!(pts(SCORE_GAP_LEADING), score(b"a", b"*a"));
    assert_eq!(pts(SCORE_GAP_LEADING * 2), score(b"a", b"*ba"));
    assert_eq!(
        pts(SCORE_GAP_LEADING * 2 + SCORE_GAP_TRAILING),
        score(b"a", b"**a*")
    );
    assert_eq!(
        pts(SCORE_GAP_LEADING * 2 + SCORE_GAP_TRAILING * 2),
        score(b"a", b"**a**")
    );
    assert_eq!(
        pts(SCORE_GAP_LEADING * 2 + SCORE_MATCH_CONSECUTIVE + SCORE_GAP_TRAILING * 2),
        score(b"aa", b"**aa**")
    );
    assert_eq!(
        pts(SCORE_GAP_LEADING
            + SCORE_GAP_LEADING
            + SCORE_GAP_INNER
            + SCORE_GAP_TRAILING
            + SCORE_GAP_TRAILING),
        score(b"aa", b"**a*a**")
    );
}

#[test]
fn score_consecutive() {
    assert_eq!(
        pts(SCORE_GAP_LEADING + SCORE_MATCH_CONSECUTIVE),
        score(b"aa", b"*aa")
    );
    assert_eq!(
        pts(SCORE_GAP_LEADING + SCORE_MATCH_CONSECUTIVE * 2),
        score(b"aaa", b"*aaa")
    );
    assert_eq!(
        pts(SCORE_GAP_LEADING + SCORE_GAP_INNER + SCORE_MATCH_CONSECUTIVE),
        score(b"aaa", b"*a*aa")
    );
}

#[test]
fn score_slash() {
    assert_eq!(pts(SCORE_GAP_LEADING + SCORE_MATCH_SLASH), score(b"a", b"/a"));
    assert_eq!(
        pts(SCORE_GAP_LEADING * 2 + SCORE_MATCH_SLASH),
        score(b"a", b"*/a")
    );
    assert_eq!(
        pts(SCORE_GAP_LEADING * 2 + SCORE_MATCH_SLASH + SCORE_MATCH_CONSECUTIVE),
        score(b"aa", b"a/aa")
    );
}

#[test]
fn score_capital() {
    assert_eq!(pts(SCORE_GAP_LEADING + SCORE_MATCH_CAPITAL), score(b"a", b"bA"));
    assert_eq!(
        pts(SCORE_GAP_LEADING * 2 + SCORE_MATCH_CAPITAL),
        score(b"a", b"baA")
    );
    assert_eq!(
        pts(SCORE_GAP_LEADING * 2 + SCORE_MATCH_CAPITAL + SCORE_MATCH_CONSECUTIVE),
        score(b"aa", b"baAa")
    );
}

#[test]
fn score_dot() {
    assert_eq!(pts(SCORE_GAP_LEADING + SCORE_MATCH_DOT), score(b"a", b".a"));
    assert_eq!(
        pts(SCORE_GAP_LEADING * 3 + SCORE_MATCH_DOT),
        score(b"a", b"*a.a")
    );
    assert_eq!(
        pts(SCORE_GAP_LEADING + SCORE_GAP_INNER + SCORE_MATCH_DOT),
        score(b"a", b"*a.a")
    );
}

#[test]
fn score_long_string() {
    let string: [u8; 4096] = [b'a'; 4096];
    assert_eq!(SCORE_MIN, score(&string, b"aa"));
    assert_eq!(SCORE_MAX, score(&string, &string));
}
