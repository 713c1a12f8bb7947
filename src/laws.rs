//! Properties of the lazy match, proved over the model.
use vstd::prelude::*;
use crate::model::{
    in_initials_group, in_literal_group, initials, initials_group, initials_group_rule,
    initials_hit, lazy_match, first_letter_ok, matches_initials, literal_group, literal_group_rule, pick, unspaced,
};
use crate::phonetic::{lower_of, transliterations};

verus! {

/// The positions of `ts` whose entry satisfies `rule`, in increasing order.
pub open spec fn positions(ts: Seq<Seq<char>>, rule: spec_fn(Seq<char>) -> bool) -> Seq<int>
    decreases ts.len(),
{
    if ts.len() == 0 {
        seq![]
    } else if rule(ts.last()) {
        positions(ts.drop_last(), rule).push(ts.len() - 1)
    } else {
        positions(ts.drop_last(), rule)
    }
}

/// `g` lists, in increasing order of position, candidates of `cs` whose
/// transliterations satisfy `rule`.
pub open spec fn ordered_selection<T>(
    g: Seq<T>,
    cs: Seq<T>,
    ts: Seq<Seq<char>>,
    rule: spec_fn(Seq<char>) -> bool,
) -> bool {
    exists|ix: Seq<int>|
        {
            &&& ix.len() == g.len()
            &&& forall|k: int|
                0 <= k < ix.len() ==> {
                    &&& 0 <= #[trigger] ix[k] < cs.len()
                    &&& g[k] == cs[ix[k]]
                    &&& rule(ts[ix[k]])
                }
            &&& forall|k1: int, k2: int| 0 <= k1 < k2 < ix.len() ==> ix[k1] < ix[k2]
        }
}

proof fn lemma_pick_positions<T>(cs: Seq<T>, ts: Seq<Seq<char>>, rule: spec_fn(Seq<char>) -> bool)
    requires
        cs.len() == ts.len(),
    ensures
        ({
            let ix = positions(ts, rule);
            let g = pick(cs, ts, rule);
            &&& ix.len() == g.len()
            &&& forall|k: int|
                0 <= k < ix.len() ==> {
                    &&& 0 <= #[trigger] ix[k] < cs.len()
                    &&& g[k] == cs[ix[k]]
                    &&& rule(ts[ix[k]])
                }
            &&& forall|k1: int, k2: int| 0 <= k1 < k2 < ix.len() ==> ix[k1] < ix[k2]
        }),
    decreases cs.len(),
{
    if cs.len() > 0 {
        lemma_pick_positions(cs.drop_last(), ts.drop_last(), rule);
    }
}

/// Each group of the result lists, in input order, candidates whose
/// transliterations satisfy that group's rule, and the result is the first
/// group followed by the second.
pub proof fn lemma_groups_keep_input_order<T>(cs: Seq<T>, ts: Seq<Seq<char>>, q: Seq<char>)
    requires
        cs.len() == ts.len(),
    ensures
        ordered_selection(initials_group(cs, ts, q), cs, ts, initials_group_rule(q)),
        ordered_selection(literal_group(cs, ts, q), cs, ts, literal_group_rule(q)),
        lazy_match(cs, ts, q) matches Some(r) ==> r == initials_group(cs, ts, q) + literal_group(
            cs,
            ts,
            q,
        ),
{
    lemma_pick_positions(cs, ts, initials_group_rule(q));
    lemma_pick_positions(cs, ts, literal_group_rule(q));
}

/// Every string in the result is one of the candidates.
pub proof fn lemma_result_within_candidates<T>(cs: Seq<T>, ts: Seq<Seq<char>>, q: Seq<char>)
    requires
        cs.len() == ts.len(),
    ensures
        lazy_match(cs, ts, q) matches Some(r) ==> forall|k: int|
            0 <= k < r.len() ==> cs.contains(#[trigger] r[k]),
{
    lemma_pick_positions(cs, ts, initials_group_rule(q));
    lemma_pick_positions(cs, ts, literal_group_rule(q));
    if let Some(r) = lazy_match(cs, ts, q) {
        let g1 = initials_group(cs, ts, q);
        let ix1 = positions(ts, initials_group_rule(q));
        let ix2 = positions(ts, literal_group_rule(q));
        assert forall|k: int| 0 <= k < r.len() implies cs.contains(#[trigger] r[k]) by {
            if k < g1.len() {
                assert(cs[ix1[k]] == r[k]);
            } else {
                assert(cs[ix2[k - g1.len()]] == r[k]);
            }
        }
    }
}

/// Matching is a function of the candidates and the query: equal inputs
/// give equal results.
pub proof fn lemma_match_deterministic(cs1: Seq<&str>, q1: Seq<char>, cs2: Seq<&str>, q2: Seq<char>)
    requires
        cs1 == cs2,
        q1 == q2,
    ensures
        lazy_match(cs1, transliterations(cs1), lower_of(q1)) == lazy_match(
            cs2,
            transliterations(cs2),
            lower_of(q2),
        ),
{
}

proof fn lemma_initials_len(s: Seq<char>)
    ensures
        initials(s).len() <= s.len(),
    decreases s.len(),
{
    if s.len() > 0 {
        lemma_initials_len(s.drop_last());
    }
}

proof fn lemma_unspaced_len(s: Seq<char>)
    ensures
        unspaced(s).len() <= s.len(),
    decreases s.len(),
{
    if s.len() > 0 {
        lemma_unspaced_len(s.drop_last());
    }
}

/// A query longer than a candidate's transliteration (in the lowercase form
/// that is compared) matches that candidate by no rule.
pub proof fn lemma_long_query_never_matches(t: Seq<char>, q: Seq<char>)
    requires
        q.len() > lower_of(t).len(),
    ensures
        !in_initials_group(t, q),
        !in_literal_group(t, q),
{
    lemma_initials_len(lower_of(t));
    lemma_unspaced_len(lower_of(t));
}

/// No candidate lands in both groups; one matched by its initials lands in
/// the first.
pub proof fn lemma_groups_disjoint(t: Seq<char>, q: Seq<char>)
    ensures
        !(in_initials_group(t, q) && in_literal_group(t, q)),
        first_letter_ok(t, q) && matches_initials(t, q) ==> in_initials_group(t, q),
{
}

/// An initials match has exactly one query character per syllable, each the
/// first character of its syllable.
pub proof fn lemma_initials_hit_counts_syllables(t: Seq<char>, q: Seq<char>)
    ensures
        initials_hit(t, q) <==> (initials(t).len() == q.len() && forall|i: int|
            0 <= i < q.len() ==> #[trigger] initials(t)[i] == q[i]),
{
    if initials(t).len() == q.len() && forall|i: int|
        0 <= i < q.len() ==> #[trigger] initials(t)[i] == q[i] {
        assert(initials(t) =~= q);
    }
}

} // verus!
