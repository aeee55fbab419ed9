//! The score engine: the best alignment of a pattern inside a text, found by
//! dynamic programming over pattern × text.
use vstd::prelude::*;

use crate::bonus::{bonus_at, compute_bonuses, fold, fold_case, standard_weights, Weights};

verus! {

/// The quality of a match. Variants are ordered: `Min` below every `Points`,
/// `Max` above them, and `Points` by their value (thousandths of a point).
#[derive(Clone, Copy, Debug, PartialEq, Eq, Structural, PartialOrd, Ord)]
pub enum Score {
    /// No rankable match: empty pattern, pattern longer than the text, or no
    /// alignment at all.
    Min,
    /// The best alignment's score, in thousandths of a point.
    Points(i128),
    /// Pattern and text have equal length: a perfect match.
    Max,
}

/// The score of no rankable match.
pub const SCORE_MIN: Score = Score::Min;

/// The score of a perfect match.
pub const SCORE_MAX: Score = Score::Max;

impl Score {
    /// The score as an extended integer, `None` standing for minus infinity.
    pub open spec fn ext(self) -> Option<int> {
        match self {
            Score::Min => None,
            Score::Points(v) => Some(v as int),
            Score::Max => None,
        }
    }

    /// `self` is the score that the extended integer `v` stands for.
    pub open spec fn denotes(self, v: Option<int>) -> bool {
        !(self is Max) && self.ext() == v
    }
}

/// `a + b`, with `None` (minus infinity) absorbing.
pub open spec fn add_ext(a: Option<int>, b: int) -> Option<int> {
    match a {
        Some(x) => Some(x + b),
        None => None,
    }
}

/// The larger of `a` and `b`, `None` (minus infinity) below every value.
pub open spec fn max_ext(a: Option<int>, b: Option<int>) -> Option<int> {
    match (a, b) {
        (None, _) => b,
        (_, None) => a,
        (Some(x), Some(y)) => Some(if x > y { x } else { y }),
    }
}

/// The penalty for skipping a text byte after pattern byte `pi` has matched:
/// trailing after the last pattern byte, inner otherwise.
pub open spec fn gap_for(w: Weights, p_len: int, pi: int) -> int {
    if pi == p_len - 1 {
        w.gap_trailing as int
    } else {
        w.gap_inner as int
    }
}

/// The best score of aligning `p[..=pi]` with `p[pi]` matched exactly at
/// `t[ti]` (bytes compared case-folded); `None` where no such alignment is
/// admitted.
pub open spec fn run_at(w: Weights, p: Seq<u8>, t: Seq<u8>, pi: int, ti: int) -> Option<int>
    decreases pi, ti, 0int,
{
    if pi < 0 || ti < 0 || pi >= p.len() || ti >= t.len() {
        None
    } else if fold(p[pi]) != fold(t[ti]) {
        None
    } else if pi == 0 {
        Some(ti * w.gap_leading + bonus_at(w, t, ti))
    } else if ti > 0 {
        max_ext(
            add_ext(best_at(w, p, t, pi - 1, ti - 1), bonus_at(w, t, ti)),
            add_ext(run_at(w, p, t, pi - 1, ti - 1), w.match_consecutive as int),
        )
    } else {
        None
    }
}

/// The best score of aligning `p[..=pi]` inside `t[..=ti]`, each text byte
/// after the match of `p[pi]` paying the gap penalty of `pi`.
/// (Before `t[0]` nothing is aligned: that best is minus infinity.)
pub open spec fn best_at(w: Weights, p: Seq<u8>, t: Seq<u8>, pi: int, ti: int) -> Option<int>
    decreases pi, ti, 1int,
{
    if pi < 0 || ti < 0 || pi >= p.len() || ti >= t.len() {
        None
    } else if ti == 0 {
        run_at(w, p, t, pi, ti)
    } else {
        max_ext(
            run_at(w, p, t, pi, ti),
            add_ext(best_at(w, p, t, pi, ti - 1), gap_for(w, p.len() as int, pi)),
        )
    }
}

/// The score of `p` against `t` when `0 < p.len() < t.len()`: the best
/// alignment of the whole pattern in the whole text.
pub open spec fn alignment_score(w: Weights, p: Seq<u8>, t: Seq<u8>) -> Option<int> {
    best_at(w, p, t, p.len() - 1, t.len() - 1)
}

/// A bound on every weight: each is an `i32`.
pub open spec fn weight_bound() -> int {
    0x8000_0000
}

/// `v` lies within `n` weights of zero.
pub open spec fn within(v: Option<int>, n: int) -> bool {
    match v {
        Some(x) => -n * weight_bound() <= x <= n * weight_bound(),
        None => true,
    }
}

/// Every cell at text position `ti` is a sum of at most `ti + 1` weights.
proof fn lemma_cells_bounded(w: Weights, p: Seq<u8>, t: Seq<u8>, pi: int, ti: int)
    requires
        0 <= pi < p.len(),
        0 <= ti < t.len(),
    ensures
        within(run_at(w, p, t, pi, ti), ti + 1),
        within(best_at(w, p, t, pi, ti), ti + 1),
    decreases pi, ti,
{
    if ti > 0 {
        lemma_cells_bounded(w, p, t, pi, ti - 1);
    }
    if pi > 0 && ti > 0 {
        lemma_cells_bounded(w, p, t, pi - 1, ti - 1);
    }
    let g = w.gap_leading as int;
    assert(-ti * weight_bound() <= ti * g <= ti * weight_bound()) by (nonlinear_arith)
        requires
            0 <= ti,
            -weight_bound() <= g <= weight_bound(),
    ;
}

/// `a` plus the weight `b`, minus infinity absorbing.
fn add_weight(a: Score, b: i32) -> (r: Score)
    requires
        !(a is Max),
        within(a.ext(), 0x1_0000_0000_0000_0000),
    ensures
        r.denotes(add_ext(a.ext(), b as int)),
{
    match a {
        Score::Points(x) => Score::Points(x + b as i128),
        _ => Score::Min,
    }
}

/// The larger of two scores, `Min` below every value.
fn max_score(a: Score, b: Score) -> (r: Score)
    requires
        !(a is Max),
        !(b is Max),
    ensures
        r.denotes(max_ext(a.ext(), b.ext())),
{
    match (a, b) {
        (Score::Points(x), Score::Points(y)) => if x > y {
            a
        } else {
            b
        },
        (Score::Min, _) => b,
        _ => a,
    }
}

/// Scores `pat` against `text` under the weights `w`; higher is better.
/// `Min` where the pattern is empty or longer than the text, `Max` where the
/// two have the same length, otherwise the best alignment's score, with
/// bytes compared case-folded and bonuses taken from `text` as it is.
pub fn score_with(w: &Weights, pat: &[u8], text: &[u8]) -> (r: Score)
    ensures
        pat@.len() == 0 || pat@.len() > text@.len() ==> r == Score::Min,
        0 < pat@.len() == text@.len() ==> r == Score::Max,
        0 < pat@.len() < text@.len() ==> r.denotes(alignment_score(*w, pat@, text@)),
{
    let n = text.len();
    let m = pat.len();
    if m == 0 || m > n {
        return Score::Min;
    }
    if m == n {
        return Score::Max;
    }
    let bonuses = compute_bonuses(w, text);
    let mut prev_d: Vec<Score> = vec![Score::Min; n];
    let mut prev_m: Vec<Score> = vec![Score::Min; n];
    let mut cur_d: Vec<Score> = vec![Score::Min; n];
    let mut cur_m: Vec<Score> = vec![Score::Min; n];
    let mut pi: usize = 0;
    while pi < m
        invariant
            0 < m < n,
            m == pat@.len(),
            n == text@.len(),
            pi <= m,
            bonuses@.len() == n,
            forall|i: int| 0 <= i < n ==> bonuses@[i] == bonus_at(*w, text@, i),
            prev_d@.len() == n,
            prev_m@.len() == n,
            cur_d@.len() == n,
            cur_m@.len() == n,
            pi > 0 ==> forall|j: int|
                0 <= j < n ==> (#[trigger] prev_d@[j]).denotes(run_at(*w, pat@, text@, pi - 1, j)),
            pi > 0 ==> forall|j: int|
                0 <= j < n ==> (#[trigger] prev_m@[j]).denotes(best_at(*w, pat@, text@, pi - 1, j)),
        decreases m - pi,
    {
        let gap = if pi == m - 1 {
            w.gap_trailing
        } else {
            w.gap_inner
        };
        let pc = fold_case(pat[pi]);
        let mut prev_score = Score::Min;
        let mut ti: usize = 0;
        while ti < n
            invariant
                0 < m < n,
                m == pat@.len(),
                n == text@.len(),
                pi < m,
                ti <= n,
                pc == fold(pat@[pi as int]),
                gap == gap_for(*w, m as int, pi as int),
                bonuses@.len() == n,
                forall|i: int| 0 <= i < n ==> bonuses@[i] == bonus_at(*w, text@, i),
                prev_d@.len() == n,
                prev_m@.len() == n,
                cur_d@.len() == n,
                cur_m@.len() == n,
                pi > 0 ==> forall|j: int|
                    0 <= j < n ==> (#[trigger] prev_d@[j]).denotes(run_at(*w, pat@, text@, pi - 1, j)),
                pi > 0 ==> forall|j: int|
                    0 <= j < n ==> (#[trigger] prev_m@[j]).denotes(best_at(*w, pat@, text@, pi - 1, j)),
                forall|j: int|
                    0 <= j < ti ==> (#[trigger] cur_d@[j]).denotes(run_at(*w, pat@, text@, pi as int, j)),
                forall|j: int|
                    0 <= j < ti ==> (#[trigger] cur_m@[j]).denotes(best_at(*w, pat@, text@, pi as int, j)),
                prev_score.denotes(best_at(*w, pat@, text@, pi as int, ti - 1)),
            decreases n - ti,
        {
            proof {
                lemma_cells_bounded(*w, pat@, text@, pi as int, ti as int);
                if ti > 0 {
                    lemma_cells_bounded(*w, pat@, text@, pi as int, ti - 1);
                    if pi > 0 {
                        lemma_cells_bounded(*w, pat@, text@, pi - 1, ti - 1);
                    }
                }
            }
            let tc = fold_case(text[ti]);
            if pc == tc {
                let d = if pi == 0 {
                    Score::Points(ti as i128 * w.gap_leading as i128 + bonuses[ti] as i128)
                } else if ti > 0 {
                    max_score(
                        add_weight(prev_m[ti - 1], bonuses[ti]),
                        add_weight(prev_d[ti - 1], w.match_consecutive),
                    )
                } else {
                    Score::Min
                };
                cur_d.set(ti, d);
                prev_score = max_score(d, add_weight(prev_score, gap));
                cur_m.set(ti, prev_score);
            } else {
                cur_d.set(ti, Score::Min);
                prev_score = add_weight(prev_score, gap);
                cur_m.set(ti, prev_score);
            }
            ti = ti + 1;
        }
        let d_done = cur_d;
        cur_d = prev_d;
        prev_d = d_done;
        let m_done = cur_m;
        cur_m = prev_m;
        prev_m = m_done;
        pi = pi + 1;
    }
    prev_m[n - 1]
}

/// Scores `pat` against `text` under the standard weights; see `score_with`.
pub fn score(pat: &[u8], text: &[u8]) -> (r: Score)
    ensures
        pat@.len() == 0 || pat@.len() > text@.len() ==> r == Score::Min,
        0 < pat@.len() == text@.len() ==> r == Score::Max,
        0 < pat@.len() < text@.len() ==> r.denotes(alignment_score(standard_weights(), pat@, text@)),
{
    let w = Weights::standard();
    score_with(&w, pat, text)
}

} // verus!
