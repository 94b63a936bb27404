//! Ranking of claims for a query: tokenizing, the word-overlap and
//! first-match rankings, the rank list of keyword hits, and the grouping
//! of ranks by claim that reciprocal-rank fusion sums over.
use vstd::prelude::*;
use crate::text::{
    chars_of, contains_seq, has_sub, lowercase_chars, seq_eq, split_tokens, string_of, tokens,
    unicode_lowercase,
};
use crate::ids::ClaimId;
use crate::claim::Claim;

verus! {

/// A claim and its position (from 1) in one retrieval path's ranking.
#[derive(Clone, Copy, PartialEq, Eq, Debug, Hash, Structural)]
pub struct RankedClaim {
    pub claim_id: ClaimId,
    pub rank: usize,
}

impl RankedClaim {
    pub fn new(claim_id: ClaimId, rank: usize) -> (r: RankedClaim)
        ensures
            r.claim_id == claim_id,
            r.rank == rank,
    {
        RankedClaim { claim_id, rank }
    }
}

/// The words of a text: the alphanumeric runs of its lowercased form.
pub open spec fn words(text: Seq<char>) -> Seq<Seq<char>> {
    tokens(unicode_lowercase(text), 0)
}

/// The words of a text (see `words`).
pub fn tokenize(text: &str) -> (r: Vec<String>)
    ensures
        r@.map_values(|t: String| t@) == words(text@),
{
    let lower = text.to_lowercase();
    let v = chars_of(lower.as_str());
    let toks = split_tokens(&v, 0);
    let mut out: Vec<String> = Vec::new();
    let mut i: usize = 0;
    while i < toks.len()
        invariant
            i <= toks.len(),
            out@.map_values(|t: String| t@) == toks@.map_values(|t: Vec<char>| t@).take(i as int),
        decreases toks.len() - i,
    {
        let ghost before = out@.map_values(|t: String| t@);
        out.push(string_of(&toks[i]));
        assert(out@.map_values(|t: String| t@) =~= before.push(toks@[i as int]@));
        assert(toks@.map_values(|t: Vec<char>| t@).take(i + 1) =~= toks@.map_values(
            |t: Vec<char>| t@,
        ).take(i as int).push(toks@[i as int]@));
        i = i + 1;
    }
    assert(toks@.map_values(|t: Vec<char>| t@).take(toks.len() as int) =~= toks@.map_values(
        |t: Vec<char>| t@,
    ));
    out
}

// ---------------------------------------------------------------------------
// Scores as exact ratios and the stable descending sort
// ---------------------------------------------------------------------------

/// A nonnegative score `num / den` (with `den` positive).
#[derive(Clone, Copy, PartialEq, Eq, Debug, Structural)]
pub struct Ratio {
    pub num: u64,
    pub den: u64,
}

/// `a` is a smaller score than `b`.
pub open spec fn ratio_lt(a: Ratio, b: Ratio) -> bool {
    a.num * b.den < b.num * a.den
}

proof fn lemma_product_fits(x: u64, y: u64)
    ensures
        0 <= (x as int) * (y as int) <= u128::MAX,
{
    assert(0 <= (x as int) * (y as int) <= (u64::MAX as int) * (u64::MAX as int)) by (nonlinear_arith);
}

fn ratio_less(a: Ratio, b: Ratio) -> (r: bool)
    ensures
        r == ratio_lt(a, b),
{
    proof {
        lemma_product_fits(a.num, b.den);
        lemma_product_fits(b.num, a.den);
    }
    (a.num as u128) * (b.den as u128) < (b.num as u128) * (a.den as u128)
}

/// The position where a stable descending sort puts `x` into the sorted
/// `s`: after every entry whose score is not smaller than `x`'s.
pub open spec fn insert_pos(s: Seq<(ClaimId, Ratio)>, x: (ClaimId, Ratio)) -> int
    decreases s.len(),
{
    if s.len() == 0 {
        0
    } else if ratio_lt(s.last().1, x.1) {
        insert_pos(s.drop_last(), x)
    } else {
        s.len() as int
    }
}

/// The stable sort of `s` by descending score.
pub open spec fn sort_desc(s: Seq<(ClaimId, Ratio)>) -> Seq<(ClaimId, Ratio)>
    decreases s.len(),
{
    if s.len() == 0 {
        Seq::empty()
    } else {
        let t = sort_desc(s.drop_last());
        t.insert(insert_pos(t, s.last()), s.last())
    }
}

/// The entries with a positive score, in order.
pub open spec fn positive(s: Seq<(ClaimId, Ratio)>) -> Seq<(ClaimId, Ratio)>
    decreases s.len(),
{
    if s.len() == 0 {
        Seq::empty()
    } else if s.last().1.num > 0 {
        positive(s.drop_last()).push(s.last())
    } else {
        positive(s.drop_last())
    }
}

/// The ranking of scored claims: the claims with a positive score, stably
/// sorted by descending score, ranked 1, 2, ...
pub open spec fn ranking(s: Seq<(ClaimId, Ratio)>) -> Seq<RankedClaim> {
    let t = sort_desc(positive(s));
    Seq::new(t.len(), |i: int| RankedClaim { claim_id: t[i].0, rank: (i + 1) as usize })
}

proof fn lemma_insert_pos_bounds(s: Seq<(ClaimId, Ratio)>, x: (ClaimId, Ratio))
    ensures
        0 <= insert_pos(s, x) <= s.len(),
        forall|k: int| insert_pos(s, x) <= k < s.len() ==> ratio_lt(#[trigger] s[k].1, x.1),
        insert_pos(s, x) > 0 ==> !ratio_lt(s[insert_pos(s, x) - 1].1, x.1),
    decreases s.len(),
{
    if s.len() > 0 && ratio_lt(s.last().1, x.1) {
        lemma_insert_pos_bounds(s.drop_last(), x);
        assert forall|k: int| insert_pos(s, x) <= k < s.len() implies ratio_lt(
            #[trigger] s[k].1,
            x.1,
        ) by {
            if k < s.len() - 1 {
                assert(s[k] == s.drop_last()[k]);
            }
        }
    }
}

/// The position where `x` goes in the sorted `s` (see `insert_pos`).
fn find_insert_pos(s: &Vec<(ClaimId, Ratio)>, x: (ClaimId, Ratio)) -> (r: usize)
    ensures
        r == insert_pos(s@, x),
{
    let mut p = s.len();
    assert(s@.take(s.len() as int) =~= s@);
    while p > 0 && ratio_less(s[p - 1].1, x.1)
        invariant
            p <= s.len(),
            insert_pos(s@, x) == insert_pos(s@.take(p as int), x),
        decreases p,
    {
        assert(s@.take(p as int).drop_last() =~= s@.take(p - 1));
        p = p - 1;
    }
    assert(s@.take(s.len() as int) =~= s@);
    p
}

/// The claims with a positive score, stably sorted by descending score and
/// ranked from 1 (see `ranking`).
pub fn rank_scored(scored: &Vec<(ClaimId, Ratio)>) -> (r: Vec<RankedClaim>)
    ensures
        r@ == ranking(scored@),
{
    let mut sorted: Vec<(ClaimId, Ratio)> = Vec::new();
    let mut i: usize = 0;
    while i < scored.len()
        invariant
            i <= scored.len(),
            sorted@ == sort_desc(positive(scored@.take(i as int))),
        decreases scored.len() - i,
    {
        let x = scored[i];
        assert(scored@.take(i + 1).drop_last() =~= scored@.take(i as int));
        if x.1.num > 0 {
            let p = find_insert_pos(&sorted, x);
            proof {
                lemma_insert_pos_bounds(sorted@, x);
            }
            sorted.insert(p, x);
            assert(positive(scored@.take(i + 1)).drop_last() =~= positive(scored@.take(i as int)));
        }
        i = i + 1;
    }
    assert(scored@.take(scored.len() as int) =~= scored@);
    let mut out: Vec<RankedClaim> = Vec::new();
    let mut k: usize = 0;
    while k < sorted.len()
        invariant
            k <= sorted.len(),
            sorted@ == sort_desc(positive(scored@)),
            out@ =~= ranking(scored@).take(k as int),
        decreases sorted.len() - k,
    {
        out.push(RankedClaim { claim_id: sorted[k].0, rank: k + 1 });
        k = k + 1;
    }
    out
}

/// Scores that no later entry beats: the sequence is in descending order.
pub open spec fn descending(t: Seq<(ClaimId, Ratio)>) -> bool {
    forall|i: int, j: int| 0 <= i < j < t.len() ==> !ratio_lt(#[trigger] t[i].1, #[trigger] t[j].1)
}

pub open spec fn valid_scores(s: Seq<(ClaimId, Ratio)>) -> bool {
    forall|k: int| 0 <= k < s.len() ==> (#[trigger] s[k]).1.den > 0
}

proof fn lemma_ratio_not_lt_trans(a: Ratio, b: Ratio, c: Ratio)
    requires
        a.den > 0,
        b.den > 0,
        c.den > 0,
        !ratio_lt(a, b),
        !ratio_lt(b, c),
    ensures
        !ratio_lt(a, c),
{
    let (an, ad, bn, bd, cn, cd) = (
        a.num as int,
        a.den as int,
        b.num as int,
        b.den as int,
        c.num as int,
        c.den as int,
    );
    assert(an * cd >= cn * ad) by (nonlinear_arith)
        requires
            ad > 0,
            bd > 0,
            cd > 0,
            an * bd >= bn * ad,
            bn * cd >= cn * bd,
            an >= 0,
            bn >= 0,
            cn >= 0,
    {
        assert(an * bd * cd >= bn * ad * cd);
        assert(bn * cd * ad >= cn * bd * ad);
        assert(an * cd * bd >= cn * ad * bd);
    }
}

proof fn lemma_positive_valid(s: Seq<(ClaimId, Ratio)>)
    requires
        valid_scores(s),
    ensures
        valid_scores(positive(s)),
    decreases s.len(),
{
    if s.len() > 0 {
        assert(valid_scores(s.drop_last())) by {
            assert forall|k: int| 0 <= k < s.drop_last().len() implies (
            #[trigger] s.drop_last()[k]).1.den > 0 by {
                assert(s.drop_last()[k] == s[k]);
            }
        }
        lemma_positive_valid(s.drop_last());
        let p = positive(s.drop_last());
        if s.last().1.num > 0 {
            assert forall|k: int| 0 <= k < p.push(s.last()).len() implies (#[trigger] p.push(
                s.last(),
            )[k]).1.den > 0 by {
                if k < p.len() {
                    assert(p.push(s.last())[k] == p[k]);
                }
            }
        }
    }
}

proof fn lemma_sort_desc(s: Seq<(ClaimId, Ratio)>)
    requires
        valid_scores(s),
    ensures
        descending(sort_desc(s)),
        valid_scores(sort_desc(s)),
        sort_desc(s).len() == s.len(),
    decreases s.len(),
{
    if s.len() > 0 {
        let s0 = s.drop_last();
        assert(valid_scores(s0)) by {
            assert forall|k: int| 0 <= k < s0.len() implies (#[trigger] s0[k]).1.den > 0 by {
                assert(s0[k] == s[k]);
            }
        }
        lemma_sort_desc(s0);
        let t = sort_desc(s0);
        let x = s.last();
        assert(x == s[s.len() - 1]);
        lemma_insert_pos_bounds(t, x);
        let p = insert_pos(t, x);
        let u = t.insert(p, x);
        assert(u.len() == t.len() + 1);
        assert forall|k: int| 0 <= k < u.len() implies (#[trigger] u[k]).1.den > 0 by {
            if k < p {
                assert(u[k] == t[k]);
            } else if k > p {
                assert(u[k] == t[k - 1]);
            }
        }
        assert forall|i: int, j: int| 0 <= i < j < u.len() implies !ratio_lt(
            #[trigger] u[i].1,
            #[trigger] u[j].1,
        ) by {
            if j < p {
                assert(u[i] == t[i] && u[j] == t[j]);
            } else if i > p {
                assert(u[i] == t[i - 1] && u[j] == t[j - 1]);
            } else if i < p && j > p {
                assert(u[i] == t[i] && u[j] == t[j - 1]);
            } else if i == p {
                assert(u[i] == x && u[j] == t[j - 1]);
                assert(ratio_lt(t[j - 1].1, x.1));
            } else {
                assert(j == p && i < p);
                assert(u[i] == t[i] && u[j] == x);
                assert(!ratio_lt(t[p - 1].1, x.1));
                if i < p - 1 {
                    assert(!ratio_lt(t[i].1, t[p - 1].1));
                    lemma_ratio_not_lt_trans(t[i].1, t[p - 1].1, x.1);
                }
            }
        }
    }
}

/// Law: a ranking puts better-scored claims first: along the ranking no
/// claim has a smaller score than one ranked after it, and the ranks run
/// 1, 2, ... without gaps.
pub proof fn law_ranking_best_first(s: Seq<(ClaimId, Ratio)>)
    requires
        valid_scores(s),
    ensures
        descending(sort_desc(positive(s))),
        forall|i: int| 0 <= i < ranking(s).len() ==> (#[trigger] ranking(s)[i]).rank == (i + 1) as usize,
        forall|i: int|
            0 <= i < ranking(s).len() ==> (#[trigger] ranking(s)[i]).claim_id == sort_desc(
                positive(s),
            )[i].0,
{
    lemma_positive_valid(s);
    lemma_sort_desc(positive(s));
}

// ---------------------------------------------------------------------------
// Word-overlap and first-match rankings
// ---------------------------------------------------------------------------

/// How many of `ws` (with repetitions) occur in `query_words`.
pub open spec fn shared_count(ws: Seq<Seq<char>>, query_words: Seq<Seq<char>>) -> nat
    decreases ws.len(),
{
    if ws.len() == 0 {
        0
    } else {
        shared_count(ws.drop_last(), query_words) + if query_words.contains(ws.last()) {
            1nat
        } else {
            0nat
        }
    }
}

/// The overlap score of a claim text: the share of its words that occur
/// among the query words.
pub open spec fn overlap_score(text: Seq<char>, query_words: Seq<Seq<char>>) -> Ratio {
    let ws = words(text);
    Ratio {
        num: shared_count(ws, query_words) as u64,
        den: if ws.len() == 0 {
            1
        } else {
            ws.len() as u64
        },
    }
}

pub open spec fn overlap_scores(claims: Seq<Claim>, query_words: Seq<Seq<char>>) -> Seq<
    (ClaimId, Ratio),
> {
    Seq::new(claims.len(), |i: int| (claims[i].id, overlap_score(claims[i].text@, query_words)))
}

/// The ranking of claims by word overlap with the query.
pub open spec fn overlap_ranking(claims: Seq<Claim>, query: Seq<char>) -> Seq<RankedClaim> {
    ranking(overlap_scores(claims, words(query)))
}

fn word_in(list: &Vec<Vec<char>>, item: &Vec<char>) -> (r: bool)
    ensures
        r == list@.map_values(|t: Vec<char>| t@).contains(item@),
{
    let ghost lv = list@.map_values(|t: Vec<char>| t@);
    let mut i: usize = 0;
    while i < list.len()
        invariant
            i <= list.len(),
            lv == list@.map_values(|t: Vec<char>| t@),
            forall|k: int| 0 <= k < i ==> lv[k] != item@,
        decreases list.len() - i,
    {
        if seq_eq(&list[i], item) {
            assert(lv[i as int] == item@);
            return true;
        }
        i = i + 1;
    }
    assert(!lv.contains(item@)) by {
        if lv.contains(item@) {
            let k = choose|k: int| 0 <= k < lv.len() && lv[k] == item@;
        }
    }
    false
}

fn words_of(text: &str) -> (r: Vec<Vec<char>>)
    ensures
        r@.map_values(|t: Vec<char>| t@) == words(text@),
{
    let lower = text.to_lowercase();
    let v = chars_of(lower.as_str());
    split_tokens(&v, 0)
}

/// Ranks claims by the share of their words that occur in the query.
pub fn rank_by_overlap(claims: &Vec<Claim>, query: &str) -> (r: Vec<RankedClaim>)
    ensures
        r@ == overlap_ranking(claims@, query@),
{
    let qw = words_of(query);
    let ghost qv = qw@.map_values(|t: Vec<char>| t@);
    let mut scored: Vec<(ClaimId, Ratio)> = Vec::new();
    let mut i: usize = 0;
    while i < claims.len()
        invariant
            i <= claims.len(),
            qv == words(query@),
            qv == qw@.map_values(|t: Vec<char>| t@),
            scored@ =~= overlap_scores(claims@, qv).take(i as int),
        decreases claims.len() - i,
    {
        let cw = words_of(claims[i].text.as_str());
        let ghost cv = cw@.map_values(|t: Vec<char>| t@);
        let mut count: u64 = 0;
        let mut k: usize = 0;
        while k < cw.len()
            invariant
                k <= cw.len(),
                cv == cw@.map_values(|t: Vec<char>| t@),
                qv == qw@.map_values(|t: Vec<char>| t@),
                count == shared_count(cv.take(k as int), qv),
                count <= k,
            decreases cw.len() - k,
        {
            assert(cv.take(k + 1).drop_last() =~= cv.take(k as int));
            if word_in(&qw, &cw[k]) {
                count = count + 1;
            }
            k = k + 1;
        }
        assert(cv.take(cw.len() as int) =~= cv);
        let den: u64 = if cw.len() == 0 {
            1
        } else {
            cw.len() as u64
        };
        scored.push((claims[i].id, Ratio { num: count, den }));
        i = i + 1;
    }
    assert(overlap_scores(claims@, qv).take(claims.len() as int) =~= overlap_scores(claims@, qv));
    rank_scored(&scored)
}

/// Whether a word is one of the query words.
pub open spec fn in_query(query_words: Seq<Seq<char>>) -> spec_fn(Seq<char>) -> bool {
    |w: Seq<char>| query_words.contains(w)
}

proof fn lemma_shared_count_filter(ws: Seq<Seq<char>>, query_words: Seq<Seq<char>>)
    ensures
        shared_count(ws, query_words) == ws.filter(in_query(query_words)).len(),
        shared_count(ws, query_words) <= ws.len(),
    decreases ws.len(),
{
    reveal(Seq::filter);
    if ws.len() > 0 {
        lemma_shared_count_filter(ws.drop_last(), query_words);
    }
}

/// Law: the overlap score of a text is the share of its words that occur
/// among the query words: with `n > 0` words of which `m` occur in the
/// query, `score.num / score.den == m / n`; a text without words scores 0.
pub proof fn law_overlap_score_is_share(text: Seq<char>, query_words: Seq<Seq<char>>)
    requires
        words(text).len() <= u64::MAX,
    ensures
        overlap_score(text, query_words).den > 0,
        words(text).len() == 0 ==> overlap_score(text, query_words).num == 0,
        words(text).len() > 0 ==> overlap_score(text, query_words).num * words(text).len() == words(
            text,
        ).filter(in_query(query_words)).len() * overlap_score(text, query_words).den,
{
    lemma_shared_count_filter(words(text), query_words);
}

proof fn lemma_positive_from(s: Seq<(ClaimId, Ratio)>, i: int)
    requires
        0 <= i < positive(s).len(),
    ensures
        positive(s)[i].1.num > 0,
        exists|k: int| 0 <= k < s.len() && s[k] == positive(s)[i],
    decreases s.len(),
{
    let r = positive(s.drop_last());
    if s.last().1.num > 0 && i == r.len() {
        assert(s[s.len() - 1] == positive(s)[i]);
    } else {
        assert(positive(s)[i] == r[i]);
        lemma_positive_from(s.drop_last(), i);
        let k = choose|k: int| 0 <= k < s.drop_last().len() && s.drop_last()[k] == r[i];
        assert(s[k] == r[i]);
    }
}

proof fn lemma_sort_desc_from(s: Seq<(ClaimId, Ratio)>, i: int)
    requires
        0 <= i < sort_desc(s).len(),
    ensures
        exists|k: int| 0 <= k < s.len() && s[k] == sort_desc(s)[i],
    decreases s.len(),
{
    let t = sort_desc(s.drop_last());
    let x = s.last();
    let p = insert_pos(t, x);
    lemma_insert_pos_bounds(t, x);
    t.insert_ensures(p, x);
    if i == p {
        assert(s[s.len() - 1] == sort_desc(s)[i]);
    } else {
        let j = if i < p {
            i
        } else {
            i - 1
        };
        assert(sort_desc(s)[i] == t[j]);
        lemma_sort_desc_from(s.drop_last(), j);
        let k = choose|k: int| 0 <= k < s.drop_last().len() && s.drop_last()[k] == t[j];
        assert(s[k] == t[j]);
    }
}

/// Law: the word-overlap ranking puts claims in order of the share of
/// their words found among the query words: of any two ranked claims, the
/// one ranked first has a share at least as large (`m_a * n_b >= m_b * n_a`
/// for shares `m_a / n_a` and `m_b / n_b`), and every ranked claim has at
/// least one word in the query.
pub proof fn law_overlap_ranks_by_share(claims: Seq<Claim>, query: Seq<char>, i: int, j: int)
    requires
        forall|k: int| 0 <= k < claims.len() ==> words(#[trigger] claims[k].text@).len() <= u64::MAX,
        0 <= i < j < overlap_ranking(claims, query).len(),
    ensures
        exists|a: int, b: int|
            0 <= a < claims.len() && 0 <= b < claims.len() && claims[a].id == overlap_ranking(
                claims,
                query,
            )[i].claim_id && claims[b].id == overlap_ranking(claims, query)[j].claim_id && words(
                claims[a].text@,
            ).filter(in_query(words(query))).len() * words(claims[b].text@).len() >= words(
                claims[b].text@,
            ).filter(in_query(words(query))).len() * words(claims[a].text@).len() && words(
                claims[b].text@,
            ).filter(in_query(words(query))).len() > 0,
{
    let qw = words(query);
    let s = overlap_scores(claims, qw);
    assert(valid_scores(s)) by {
        assert forall|k: int| 0 <= k < s.len() implies (#[trigger] s[k]).1.den > 0 by {
            law_overlap_score_is_share(claims[k].text@, qw);
        }
    }
    law_ranking_best_first(s);
    let ps = positive(s);
    let t = sort_desc(ps);
    lemma_positive_valid(s);
    lemma_sort_desc(ps);
    lemma_sort_desc_from(ps, i);
    lemma_sort_desc_from(ps, j);
    let pi = choose|k: int| 0 <= k < ps.len() && ps[k] == t[i];
    let pj = choose|k: int| 0 <= k < ps.len() && ps[k] == t[j];
    lemma_positive_from(s, pi);
    lemma_positive_from(s, pj);
    let a = choose|k: int| 0 <= k < s.len() && s[k] == ps[pi];
    let b = choose|k: int| 0 <= k < s.len() && s[k] == ps[pj];
    let wa = words(claims[a].text@);
    let wb = words(claims[b].text@);
    let ma = wa.filter(in_query(qw)).len();
    let mb = wb.filter(in_query(qw)).len();
    lemma_shared_count_filter(wa, qw);
    lemma_shared_count_filter(wb, qw);
    assert(!ratio_lt(t[i].1, t[j].1));
    assert(t[i].1 == overlap_score(claims[a].text@, qw));
    assert(t[j].1 == overlap_score(claims[b].text@, qw));
    assert(wa.len() > 0 && wb.len() > 0);
    assert(t[i].1.num == ma && t[i].1.den == wa.len());
    assert(t[j].1.num == mb && t[j].1.den == wb.len());
    assert(ma * wb.len() >= mb * wa.len());
    assert(overlap_ranking(claims, query)[i].claim_id == claims[a].id);
    assert(overlap_ranking(claims, query)[j].claim_id == claims[b].id);
}

/// The first-match score of a claim text: `1 / (k + 1)` for the first query
/// word (position `k`) that occurs in the lowercased text, `0` if none does.
pub open spec fn first_match(lower_text: Seq<char>, query_words: Seq<Seq<char>>, k: int) -> Option<
    int,
>
    decreases query_words.len() - k,
{
    if k < 0 || k >= query_words.len() {
        None
    } else if has_sub(lower_text, query_words[k]) {
        Some(k)
    } else {
        first_match(lower_text, query_words, k + 1)
    }
}

pub open spec fn hint_score(text: Seq<char>, query_words: Seq<Seq<char>>) -> Ratio {
    match first_match(unicode_lowercase(text), query_words, 0) {
        Some(k) => Ratio { num: 1, den: (k + 1) as u64 },
        None => Ratio { num: 0, den: 1 },
    }
}

pub open spec fn hint_scores(claims: Seq<Claim>, query_words: Seq<Seq<char>>) -> Seq<
    (ClaimId, Ratio),
> {
    Seq::new(claims.len(), |i: int| (claims[i].id, hint_score(claims[i].text@, query_words)))
}

/// The ranking of claims by how early a query word occurs in them.
pub open spec fn hint_ranking(claims: Seq<Claim>, query: Seq<char>) -> Seq<RankedClaim> {
    ranking(hint_scores(claims, words(query)))
}

/// Ranks claims by the first query word that occurs in their lowercased
/// text: the earlier that word stands in the query, the higher the claim.
pub fn rank_by_graph_hint(claims: &Vec<Claim>, query: &str) -> (r: Vec<RankedClaim>)
    ensures
        r@ == hint_ranking(claims@, query@),
{
    let qw = words_of(query);
    let ghost qv = qw@.map_values(|t: Vec<char>| t@);
    let mut scored: Vec<(ClaimId, Ratio)> = Vec::new();
    let mut i: usize = 0;
    while i < claims.len()
        invariant
            i <= claims.len(),
            qv == words(query@),
            qv == qw@.map_values(|t: Vec<char>| t@),
            scored@ =~= hint_scores(claims@, qv).take(i as int),
        decreases claims.len() - i,
    {
        let text = chars_of(claims[i].text.as_str());
        let lower = lowercase_chars(&text);
        let mut k: usize = 0;
        let mut hit = false;
        while k < qw.len() && !hit
            invariant
                k <= qw.len(),
                qv == qw@.map_values(|t: Vec<char>| t@),
                hit ==> k < qw.len() && first_match(lower@, qv, 0) == Some(k as int),
                !hit ==> first_match(lower@, qv, 0) == first_match(lower@, qv, k as int),
            decreases qw.len() - k + (if hit { 0int } else { 1int }),
        {
            assert(qv[k as int] == qw@[k as int]@);
            if contains_seq(&lower, &qw[k]) {
                hit = true;
            } else {
                k = k + 1;
            }
        }
        let score = if hit {
            Ratio { num: 1, den: (k as u64) + 1 }
        } else {
            Ratio { num: 0, den: 1 }
        };
        scored.push((claims[i].id, score));
        i = i + 1;
    }
    assert(hint_scores(claims@, qv).take(claims.len() as int) =~= hint_scores(claims@, qv));
    rank_scored(&scored)
}

/// The rank list of claim ids that come best first: the `i`-th id gets rank `i + 1`.
pub fn rank_in_order(ids: &Vec<ClaimId>) -> (r: Vec<RankedClaim>)
    ensures
        r@.len() == ids@.len(),
        forall|i: int|
            0 <= i < ids@.len() ==> (#[trigger] r@[i]).claim_id == ids@[i] && r@[i].rank == i + 1,
{
    let mut out: Vec<RankedClaim> = Vec::new();
    let mut i: usize = 0;
    while i < ids.len()
        invariant
            i <= ids.len(),
            out@.len() == i,
            forall|k: int|
                0 <= k < i ==> (#[trigger] out@[k]).claim_id == ids@[k] && out@[k].rank == k + 1,
        decreases ids.len() - i,
    {
        out.push(RankedClaim::new(ids[i], i + 1));
        i = i + 1;
    }
    out
}

// ---------------------------------------------------------------------------
// Grouping numbers by claim
// ---------------------------------------------------------------------------

/// A claim and the numbers recorded for it in order (the ranks it has in
/// the retrieval paths, or the depths at which a graph walk reached it).
#[derive(Clone, Debug)]
pub struct ClaimNumbers {
    pub claim_id: ClaimId,
    pub values: Vec<usize>,
}

pub open spec fn group_view(g: Seq<ClaimNumbers>) -> Seq<(ClaimId, Seq<usize>)> {
    g.map_values(|c: ClaimNumbers| (c.claim_id, c.values@))
}

/// The index of the group of `id`, if there is one.
pub open spec fn group_index(g: Seq<(ClaimId, Seq<usize>)>, id: ClaimId) -> Option<int>
    decreases g.len(),
{
    if g.len() == 0 {
        None
    } else if g.last().0 == id {
        Some(g.len() - 1)
    } else {
        group_index(g.drop_last(), id)
    }
}

/// `entries` grouped by claim: one group per claim in the order claims
/// first appear, each with that claim's numbers in entry order.
pub open spec fn grouped(entries: Seq<(ClaimId, usize)>) -> Seq<(ClaimId, Seq<usize>)>
    decreases entries.len(),
{
    if entries.len() == 0 {
        Seq::empty()
    } else {
        let g = grouped(entries.drop_last());
        let e = entries.last();
        match group_index(g, e.0) {
            Some(k) => g.update(k, (e.0, g[k].1.push(e.1))),
            None => g.push((e.0, seq![e.1])),
        }
    }
}

proof fn lemma_group_index(g: Seq<(ClaimId, Seq<usize>)>, id: ClaimId)
    ensures
        match group_index(g, id) {
            Some(k) => 0 <= k < g.len() && g[k].0 == id,
            None => forall|k: int| 0 <= k < g.len() ==> g[k].0 != id,
        },
    decreases g.len(),
{
    if g.len() > 0 && g.last().0 != id {
        lemma_group_index(g.drop_last(), id);
        match group_index(g, id) {
            Some(k) => {
                assert(g[k] == g.drop_last()[k]);
            },
            None => {
                assert forall|k: int| 0 <= k < g.len() implies g[k].0 != id by {
                    if k < g.len() - 1 {
                        assert(g[k] == g.drop_last()[k]);
                    }
                }
            },
        }
    }
}

/// Every claim of an entry has a group.
pub(crate) proof fn lemma_grouped_has(entries: Seq<(ClaimId, usize)>, i: int)
    requires
        0 <= i < entries.len(),
    ensures
        exists|k: int|
            0 <= k < grouped(entries).len() && (#[trigger] grouped(entries)[k]).0 == entries[i].0,
    decreases entries.len(),
{
    let g = grouped(entries.drop_last());
    let e = entries.last();
    lemma_group_index(g, e.0);
    let r = grouped(entries);
    if i == entries.len() - 1 {
        match group_index(g, e.0) {
            Some(k) => {
                assert(r[k].0 == entries[i].0);
            },
            None => {
                assert(r[g.len() as int].0 == entries[i].0);
            },
        }
    } else {
        lemma_grouped_has(entries.drop_last(), i);
        let k = choose|k: int| 0 <= k < g.len() && (#[trigger] g[k]).0 == entries.drop_last()[i].0;
        match group_index(g, e.0) {
            Some(j) => {
                assert(r[k].0 == entries[i].0);
            },
            None => {
                assert(r[k] == g[k]);
            },
        }
    }
}

fn find_group(groups: &Vec<ClaimNumbers>, id: ClaimId) -> (r: Option<usize>)
    ensures
        match r {
            Some(k) => group_index(group_view(groups@), id) == Some(k as int),
            None => group_index(group_view(groups@), id) is None,
        },
{
    let mut p = groups.len();
    assert(groups@.take(groups.len() as int) =~= groups@);
    while p > 0
        invariant
            p <= groups.len(),
            group_index(group_view(groups@), id) == group_index(
                group_view(groups@.take(p as int)),
                id,
            ),
        decreases p,
    {
        assert(group_view(groups@.take(p as int)).drop_last() =~= group_view(
            groups@.take(p - 1),
        ));
        if groups[p - 1].claim_id == id {
            return Some(p - 1);
        }
        p = p - 1;
    }
    None
}

/// Adds one entry to the groups (see `grouped`).
pub fn add_to_groups(groups: &mut Vec<ClaimNumbers>, id: ClaimId, value: usize)
    ensures
        group_view(final(groups)@) == match group_index(group_view(old(groups)@), id) {
            Some(k) => group_view(old(groups)@).update(
                k,
                (id, group_view(old(groups)@)[k].1.push(value)),
            ),
            None => group_view(old(groups)@).push((id, seq![value])),
        },
{
    let ghost gv = group_view(groups@);
    proof {
        lemma_group_index(gv, id);
    }
    match find_group(groups, id) {
        Some(k) => {
            let mut values = groups[k].values.clone();
            values.push(value);
            groups.set(k, ClaimNumbers { claim_id: id, values });
            assert(group_view(groups@) =~= gv.update(k as int, (id, gv[k as int].1.push(value))));
        },
        None => {
            let mut values: Vec<usize> = Vec::new();
            values.push(value);
            assert(values@ =~= seq![value]);
            groups.push(ClaimNumbers { claim_id: id, values });
            assert(group_view(groups@) =~= gv.push((id, seq![value])));
        },
    }
}

pub open spec fn rank_entries(s: Seq<RankedClaim>) -> Seq<(ClaimId, usize)> {
    s.map_values(|r: RankedClaim| (r.claim_id, r.rank))
}

/// The ranks of the three retrieval paths grouped by claim (see `grouped`
/// of the paths' entries one after another): what reciprocal-rank fusion
/// sums over.
pub fn fusion_ranks(bm25: &Vec<RankedClaim>, vector: &Vec<RankedClaim>, graph: &Vec<RankedClaim>) -> (r:
    Vec<ClaimNumbers>)
    ensures
        group_view(r@) == grouped(rank_entries(bm25@ + vector@ + graph@)),
{
    let ghost entries = rank_entries(bm25@ + vector@ + graph@);
    let mut groups: Vec<ClaimNumbers> = Vec::new();
    let mut path: usize = 0;
    while path < 3
        invariant
            path <= 3,
            entries == rank_entries(bm25@ + vector@ + graph@),
            group_view(groups@) == grouped(
                entries.take(
                    if path == 0 {
                        0
                    } else if path == 1 {
                        bm25@.len() as int
                    } else if path == 2 {
                        (bm25@.len() + vector@.len()) as int
                    } else {
                        entries.len() as int
                    },
                ),
            ),
        decreases 3 - path,
    {
        let list = if path == 0 {
            bm25
        } else if path == 1 {
            vector
        } else {
            graph
        };
        let ghost base: int = if path == 0 {
            0
        } else if path == 1 {
            bm25@.len() as int
        } else {
            (bm25@.len() + vector@.len()) as int
        };
        assert(forall|k: int|
            0 <= k < list@.len() ==> entries[base + k] == (list@[k].claim_id, list@[k].rank));
        let mut i: usize = 0;
        while i < list.len()
            invariant
                i <= list.len(),
                0 <= base,
                base + list@.len() <= entries.len(),
                forall|k: int|
                    0 <= k < list@.len() ==> entries[base + k] == (list@[k].claim_id, list@[k].rank),
                group_view(groups@) == grouped(entries.take(base + i)),
            decreases list.len() - i,
        {
            let e = list[i];
            assert(entries.take(base + i + 1).drop_last() =~= entries.take(base + i));
            assert(entries.take(base + i + 1).last() == (e.claim_id, e.rank));
            add_to_groups(&mut groups, e.claim_id, e.rank);
            i = i + 1;
        }
        path = path + 1;
    }
    assert(entries.take(entries.len() as int) =~= entries);
    groups
}

// ---------------------------------------------------------------------------
// What fusion ranks
// ---------------------------------------------------------------------------

/// The rankings that fusion combines besides the keyword hits: the vector
/// hits, or the word-overlap ranking where there are none, and the graph
/// hits, or the first-match ranking where there are none.
pub open spec fn fusion_inputs(
    claims: Seq<Claim>,
    vector_hits: Seq<RankedClaim>,
    graph_hits: Seq<RankedClaim>,
    query: Seq<char>,
) -> (Seq<RankedClaim>, Seq<RankedClaim>) {
    (
        if vector_hits.len() == 0 {
            overlap_ranking(claims, query)
        } else {
            vector_hits
        },
        if graph_hits.len() == 0 {
            hint_ranking(claims, query)
        } else {
            graph_hits
        },
    )
}

/// The vector and graph rankings that fusion combines (see `fusion_inputs`).
pub fn fusion_paths(
    claims: &Vec<Claim>,
    vector_hits: &Vec<RankedClaim>,
    graph_hits: &Vec<RankedClaim>,
    query: &str,
) -> (r: (Vec<RankedClaim>, Vec<RankedClaim>))
    ensures
        (r.0@, r.1@) == fusion_inputs(claims@, vector_hits@, graph_hits@, query@),
{
    let vector = if vector_hits.len() == 0 {
        rank_by_overlap(claims, query)
    } else {
        vector_hits.clone()
    };
    let graph = if graph_hits.len() == 0 {
        rank_by_graph_hint(claims, query)
    } else {
        graph_hits.clone()
    };
    proof {
        assert(vector_hits.len() != 0 ==> vector@ =~= vector_hits@);
        assert(graph_hits.len() != 0 ==> graph@ =~= graph_hits@);
    }
    (vector, graph)
}

/// The first position of a claim with the given id, if there is one.
pub open spec fn claim_position_of(claims: Seq<Claim>, id: ClaimId) -> Option<int>
    decreases claims.len(),
{
    if claims.len() == 0 {
        None
    } else {
        match claim_position_of(claims.drop_last(), id) {
            Some(k) => Some(k),
            None => if claims.last().id == id {
                Some(claims.len() - 1)
            } else {
                None
            },
        }
    }
}

/// Where a fused id is found among the claims: its first position, if any
/// (see `claim_position_of`).
pub fn claim_position(claims: &Vec<Claim>, id: ClaimId) -> (r: Option<usize>)
    ensures
        match r {
            Some(k) => claim_position_of(claims@, id) == Some(k as int),
            None => claim_position_of(claims@, id) is None,
        },
{
    let mut i: usize = 0;
    while i < claims.len()
        invariant
            i <= claims.len(),
            claim_position_of(claims@.take(i as int), id) is None,
        decreases claims.len() - i,
    {
        assert(claims@.take(i + 1).drop_last() =~= claims@.take(i as int));
        if claims[i].id == id {
            proof {
                lemma_position_extends(claims@, id, (i + 1) as int);
            }
            return Some(i);
        }
        i = i + 1;
    }
    assert(claims@.take(claims.len() as int) =~= claims@);
    None
}

/// The first position found in a prefix stays the first position in the
/// whole sequence.
proof fn lemma_position_extends(claims: Seq<Claim>, id: ClaimId, n: int)
    requires
        0 <= n <= claims.len(),
        claim_position_of(claims.take(n), id) is Some,
    ensures
        claim_position_of(claims, id) == claim_position_of(claims.take(n), id),
    decreases claims.len() - n,
{
    if n < claims.len() {
        assert(claims.take(n + 1).drop_last() =~= claims.take(n));
        lemma_position_extends(claims, id, n + 1);
    } else {
        assert(claims.take(n) =~= claims);
    }
}

/// For the first `n` fused ids, in order: the index of each id that names
/// one of the claims, with that claim's first position.
pub open spec fn picks_upto(claims: Seq<Claim>, ids: Seq<ClaimId>, n: nat) -> Seq<(int, int)>
    decreases n,
{
    if n == 0 {
        Seq::empty()
    } else {
        let prev = picks_upto(claims, ids, (n - 1) as nat);
        match claim_position_of(claims, ids[n - 1]) {
            Some(k) => prev.push(((n - 1) as int, k)),
            None => prev,
        }
    }
}

/// The fused ids that name claims, paired with the claims' positions, in
/// fused order; `None` when no fused id names a claim (then every claim is
/// ranked on its own).
pub open spec fn fused_picks_of(claims: Seq<Claim>, ids: Seq<ClaimId>) -> Option<Seq<(int, int)>> {
    let p = picks_upto(claims, ids, ids.len());
    if p.len() == 0 {
        None
    } else {
        Some(p)
    }
}

/// Which claims the fused ids name (see `fused_picks_of`): pairs of the
/// index of a fused id and the position of its claim.
pub fn fused_picks(claims: &Vec<Claim>, ids: &Vec<ClaimId>) -> (r: Option<Vec<(usize, usize)>>)
    ensures
        match r {
            Some(v) => fused_picks_of(claims@, ids@) == Some(
                v@.map_values(|p: (usize, usize)| (p.0 as int, p.1 as int)),
            ),
            None => fused_picks_of(claims@, ids@) is None,
        },
{
    let mut out: Vec<(usize, usize)> = Vec::new();
    let mut i: usize = 0;
    while i < ids.len()
        invariant
            i <= ids.len(),
            out@.map_values(|p: (usize, usize)| (p.0 as int, p.1 as int)) == picks_upto(
                claims@,
                ids@,
                i as nat,
            ),
        decreases ids.len() - i,
    {
        let ghost before = out@.map_values(|p: (usize, usize)| (p.0 as int, p.1 as int));
        match claim_position(claims, ids[i]) {
            Some(k) => {
                out.push((i, k));
                assert(out@.map_values(|p: (usize, usize)| (p.0 as int, p.1 as int)) =~= before.push(
                    (i as int, k as int),
                ));
            },
            None => {},
        }
        i = i + 1;
    }
    if out.len() == 0 {
        None
    } else {
        Some(out)
    }
}

} // verus!
