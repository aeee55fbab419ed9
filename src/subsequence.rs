//! The matchability check: is the pattern a subsequence of the text?
use vstd::prelude::*;

verus! {

/// `e` places the pattern `p` inside `t`: one strictly increasing position
/// of `t` for each character of `p`, holding that very character.
pub open spec fn is_embedding(p: Seq<u8>, t: Seq<u8>, e: Seq<int>) -> bool {
    &&& e.len() == p.len()
    &&& forall|k: int| 0 <= k < e.len() ==> 0 <= #[trigger] e[k] < t.len() && t[e[k]] == p[k]
    &&& forall|k: int, l: int| 0 <= k < l < e.len() ==> #[trigger] e[k] < #[trigger] e[l]
}

/// `p` is a subsequence of `t`, characters compared exactly.
pub open spec fn is_subsequence(p: Seq<u8>, t: Seq<u8>) -> bool {
    exists|e: Seq<int>| #[trigger] is_embedding(p, t, e)
}

/// The empty pattern is a subsequence of every text.
pub proof fn lemma_empty_is_subsequence(t: Seq<u8>)
    ensures
        is_subsequence(Seq::empty(), t),
{
    assert(is_embedding(Seq::empty(), t, Seq::empty()));
}

/// Without a placement of `p[..n+1]` in `t[..i]`, none of `p[..n+1]` in
/// `t[..i+1]` unless `t[i] == p[n]`, and none of `p[..n+2]` in `t[..i+1]`.
proof fn lemma_no_placement_step(p: Seq<u8>, t: Seq<u8>, n: int, i: int)
    requires
        0 <= n < p.len(),
        0 <= i < t.len(),
        !is_subsequence(p.take(n + 1), t.take(i)),
    ensures
        t[i] != p[n] ==> !is_subsequence(p.take(n + 1), t.take(i + 1)),
        n + 1 < p.len() ==> !is_subsequence(p.take(n + 2), t.take(i + 1)),
{
    if t[i] != p[n] && is_subsequence(p.take(n + 1), t.take(i + 1)) {
        let e = choose|e: Seq<int>| #[trigger] is_embedding(p.take(n + 1), t.take(i + 1), e);
        assert(e[n] != i);
        assert(is_embedding(p.take(n + 1), t.take(i), e));
    }
    if n + 1 < p.len() && is_subsequence(p.take(n + 2), t.take(i + 1)) {
        let e = choose|e: Seq<int>| #[trigger] is_embedding(p.take(n + 2), t.take(i + 1), e);
        assert(e[n] < e[n + 1]);
        assert(is_embedding(p.take(n + 1), t.take(i), e.take(n + 1)));
    }
}

/// Nothing but the empty pattern has a placement in the empty text.
proof fn lemma_none_in_empty(p: Seq<u8>, t: Seq<u8>)
    requires
        p.len() > 0,
        t.len() == 0,
    ensures
        !is_subsequence(p, t),
{
    if is_subsequence(p, t) {
        let e = choose|e: Seq<int>| #[trigger] is_embedding(p, t, e);
        assert(is_embedding(p, t, e));
        assert(e[0] < t.len());
    }
}

/// Extends a placement of `p[..n]` in `t[..i]` by `t[i] == p[n]`.
proof fn lemma_extend(p: Seq<u8>, t: Seq<u8>, n: int, i: int)
    requires
        0 <= n < p.len(),
        0 <= i < t.len(),
        t[i] == p[n],
        is_subsequence(p.take(n), t.take(i)),
    ensures
        is_subsequence(p.take(n + 1), t.take(i + 1)),
{
    let e = choose|e: Seq<int>| #[trigger] is_embedding(p.take(n), t.take(i), e);
    let e2 = e.push(i);
    assert(is_embedding(p.take(n + 1), t.take(i + 1), e2));
}

/// A placement in a prefix of `t` is a placement in each longer prefix.
proof fn lemma_widen(p: Seq<u8>, t: Seq<u8>, i: int, j: int)
    requires
        0 <= i <= j <= t.len(),
        is_subsequence(p, t.take(i)),
    ensures
        is_subsequence(p, t.take(j)),
{
    let e = choose|e: Seq<int>| #[trigger] is_embedding(p, t.take(i), e);
    assert(is_embedding(p, t.take(j), e));
}

/// A placement of `p` gives one of each prefix of `p`.
proof fn lemma_prefix(p: Seq<u8>, t: Seq<u8>, n: int)
    requires
        0 <= n <= p.len(),
        is_subsequence(p, t),
    ensures
        is_subsequence(p.take(n), t),
{
    let e = choose|e: Seq<int>| #[trigger] is_embedding(p, t, e);
    assert(is_embedding(p.take(n), t, e.take(n)));
}

/// Whether `pat` is a subsequence of `text`, bytes compared exactly; the
/// empty pattern matches every text. One pass over `text`.
pub fn has_match(pat: &[u8], text: &[u8]) -> (r: bool)
    ensures
        r == is_subsequence(pat@, text@),
        pat@.len() == 0 ==> r,
{
    if pat.len() == 0 {
        proof {
            lemma_empty_is_subsequence(text@);
            assert(pat@ =~= Seq::empty());
        }
        return true;
    }
    let mut pi: usize = 0;
    let mut i: usize = 0;
    proof {
        assert(pat@.take(0) =~= Seq::empty());
        lemma_empty_is_subsequence(text@.take(0));
        lemma_none_in_empty(pat@.take(1), text@.take(0));
    }
    while i < text.len()
        invariant
            0 <= pi < pat@.len(),
            i <= text@.len(),
            is_subsequence(pat@.take(pi as int), text@.take(i as int)),
            !is_subsequence(pat@.take(pi + 1), text@.take(i as int)),
        decreases text@.len() - i,
    {
        proof {
            lemma_no_placement_step(pat@, text@, pi as int, i as int);
        }
        if text[i] == pat[pi] {
            proof {
                lemma_extend(pat@, text@, pi as int, i as int);
            }
            if pi + 1 == pat.len() {
                proof {
                    assert(pat@.take(pi + 1) =~= pat@);
                    lemma_widen(pat@, text@, i + 1, text@.len() as int);
                    assert(text@.take(text@.len() as int) =~= text@);
                }
                return true;
            }
            pi = pi + 1;
        } else {
            proof {
                lemma_widen(pat@.take(pi as int), text@, i as int, i + 1);
            }
        }
        i = i + 1;
    }
    proof {
        assert(text@.take(i as int) =~= text@);
        if is_subsequence(pat@, text@) {
            lemma_prefix(pat@, text@, pi + 1);
        }
    }
    false
}

} // verus!
