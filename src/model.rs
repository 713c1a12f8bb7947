//! Mathematical model of the matching rules.
use vstd::prelude::*;
use crate::phonetic::lower_of;

verus! {

/// Unicode `White_Space`, the set that splits a transliteration into syllables.
pub open spec fn is_space(c: char) -> bool {
    let u = c as u32;
    ||| u == 0x20
    ||| 0x09 <= u <= 0x0d
    ||| u == 0x85
    ||| u == 0xa0
    ||| u == 0x1680
    ||| 0x2000 <= u <= 0x200a
    ||| u == 0x2028
    ||| u == 0x2029
    ||| u == 0x202f
    ||| u == 0x205f
    ||| u == 0x3000
}

/// Position `i` of `s` opens a syllable: a non-space character at the start
/// of `s` or right after a space.
pub open spec fn opens_syllable(s: Seq<char>, i: int) -> bool {
    &&& !is_space(s[i])
    &&& (i == 0 || is_space(s[i - 1]))
}

/// The first character of every syllable of `s`, in order.
pub open spec fn initials(s: Seq<char>) -> Seq<char>
    decreases s.len(),
{
    if s.len() == 0 {
        seq![]
    } else if opens_syllable(s, s.len() - 1) {
        initials(s.drop_last()).push(s.last())
    } else {
        initials(s.drop_last())
    }
}

/// `s` with every U+0020 space removed.
pub open spec fn unspaced(s: Seq<char>) -> Seq<char>
    decreases s.len(),
{
    if s.len() == 0 {
        seq![]
    } else if s.last() == ' ' {
        unspaced(s.drop_last())
    } else {
        unspaced(s.drop_last()).push(s.last())
    }
}

pub open spec fn is_prefix(p: Seq<char>, s: Seq<char>) -> bool {
    p.len() <= s.len() && s.subrange(0, p.len() as int) == p
}

/// The lowercase form of a transliteration starts with the query's first
/// character.
pub open spec fn first_letter_ok(t: Seq<char>, q: Seq<char>) -> bool {
    q.len() > 0 && lower_of(t).len() > 0 && lower_of(t)[0] == q[0]
}

/// One query character per syllable, each the initial of its syllable.
pub open spec fn initials_hit(t: Seq<char>, q: Seq<char>) -> bool {
    initials(t) == q
}

/// The initials rule, on the lowercase form of a transliteration.
pub open spec fn matches_initials(t: Seq<char>, q: Seq<char>) -> bool {
    initials_hit(lower_of(t), q)
}

/// The literal-prefix rule: the query is a prefix of the lowercase form of
/// a transliteration once its spaces are removed.
pub open spec fn matches_prefix(t: Seq<char>, q: Seq<char>) -> bool {
    is_prefix(q, unspaced(lower_of(t)))
}

/// The candidates of `cs` whose transliteration (same position in `ts`)
/// satisfies `rule`, in input order.
pub open spec fn pick<T>(cs: Seq<T>, ts: Seq<Seq<char>>, rule: spec_fn(Seq<char>) -> bool) -> Seq<
    T,
>
    decreases cs.len(),
{
    if cs.len() == 0 {
        seq![]
    } else if rule(ts.last()) {
        pick(cs.drop_last(), ts.drop_last(), rule).push(cs.last())
    } else {
        pick(cs.drop_last(), ts.drop_last(), rule)
    }
}

/// The character sequences of a list of strings.
pub open spec fn views(v: Seq<String>) -> Seq<Seq<char>> {
    v.map_values(|s: String| s@)
}

pub open spec fn first_rule(q: Seq<char>) -> spec_fn(Seq<char>) -> bool {
    |t: Seq<char>| first_letter_ok(t, q)
}

/// The rule of one matching stage: the initials one or the literal-prefix
/// one.
pub open spec fn stage_rule(by_initials: bool, q: Seq<char>) -> spec_fn(Seq<char>) -> bool {
    |t: Seq<char>| if by_initials { matches_initials(t, q) } else { matches_prefix(t, q) }
}

/// What a stage leaves in the pool: the candidates that its rule rejects.
pub open spec fn stage_rest(by_initials: bool, q: Seq<char>) -> spec_fn(Seq<char>) -> bool {
    |t: Seq<char>| !stage_rule(by_initials, q)(t)
}

/// Whether a candidate with transliteration `t` lands in the first group.
pub open spec fn in_initials_group(t: Seq<char>, q: Seq<char>) -> bool {
    first_letter_ok(t, q) && matches_initials(t, q)
}

/// Whether a candidate with transliteration `t` lands in the second group.
pub open spec fn in_literal_group(t: Seq<char>, q: Seq<char>) -> bool {
    first_letter_ok(t, q) && !matches_initials(t, q) && matches_prefix(t, q)
}

pub open spec fn initials_group_rule(q: Seq<char>) -> spec_fn(Seq<char>) -> bool {
    |t: Seq<char>| in_initials_group(t, q)
}

pub open spec fn literal_group_rule(q: Seq<char>) -> spec_fn(Seq<char>) -> bool {
    |t: Seq<char>| in_literal_group(t, q)
}

/// The first group: candidates matched by their initials.
pub open spec fn initials_group<T>(cs: Seq<T>, ts: Seq<Seq<char>>, q: Seq<char>) -> Seq<T> {
    pick(cs, ts, initials_group_rule(q))
}

/// The second group: the remaining candidates matched by literal prefix.
pub open spec fn literal_group<T>(cs: Seq<T>, ts: Seq<Seq<char>>, q: Seq<char>) -> Seq<T> {
    pick(cs, ts, literal_group_rule(q))
}

/// The result of a lazy match of query `q` over candidates `cs` with
/// transliterations `ts`: the first group followed by the second, or `None`
/// when both are empty.
pub open spec fn lazy_match<T>(cs: Seq<T>, ts: Seq<Seq<char>>, q: Seq<char>) -> Option<Seq<T>> {
    let r = initials_group(cs, ts, q) + literal_group(cs, ts, q);
    if r.len() == 0 {
        None
    } else {
        Some(r)
    }
}

pub open spec fn opt_view<T>(r: Option<Vec<T>>) -> Option<Seq<T>> {
    match r {
        Some(v) => Some(v@),
        None => None,
    }
}

/// Nothing is selected by a rule that accepts nothing.
pub proof fn lemma_pick_none<T>(cs: Seq<T>, ts: Seq<Seq<char>>, f: spec_fn(Seq<char>) -> bool)
    requires
        forall|t: Seq<char>| !#[trigger] f(t),
    ensures
        pick(cs, ts, f) == Seq::<T>::empty(),
    decreases cs.len(),
{
    if cs.len() > 0 {
        lemma_pick_none(cs.drop_last(), ts.drop_last(), f);
    }
}

/// Selecting with `f` and then with `g` is selecting with `f && g`.
pub proof fn lemma_pick_pick<T>(
    cs: Seq<T>,
    ts: Seq<Seq<char>>,
    f: spec_fn(Seq<char>) -> bool,
    g: spec_fn(Seq<char>) -> bool,
    h: spec_fn(Seq<char>) -> bool,
)
    requires
        cs.len() == ts.len(),
        forall|t: Seq<char>| #[trigger] h(t) == (f(t) && g(t)),
    ensures
        pick(cs, ts, f).len() == pick(ts, ts, f).len(),
        pick(pick(cs, ts, f), pick(ts, ts, f), g) == pick(cs, ts, h),
    decreases cs.len(),
{
    if cs.len() > 0 {
        lemma_pick_pick(cs.drop_last(), ts.drop_last(), f, g, h);
        let a = pick(cs.drop_last(), ts.drop_last(), f);
        let b = pick(ts.drop_last(), ts.drop_last(), f);
        if f(ts.last()) {
            assert(a.push(cs.last()).drop_last() =~= a);
            assert(b.push(ts.last()).drop_last() =~= b);
        }
    }
}

} // verus!
