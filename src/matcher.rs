//! The executable matchers.
use vstd::prelude::*;
use crate::model::{
    first_letter_ok, first_rule, initials, initials_group_rule, initials_hit, is_prefix, is_space,
    lazy_match, lemma_pick_none, lemma_pick_pick, literal_group_rule, matches_initials,
    opens_syllable, opt_view, pick, stage_rest, stage_rule, unspaced, views,
};
use crate::phonetic::{lower_of, lowercase};

verus! {

/// The characters of `s`, in order, read in one pass.
pub fn chars_of(s: &str) -> (r: Vec<char>)
    ensures
        r@ == s@,
{
    let mut r: Vec<char> = Vec::new();
    for c in it: s.chars()
        invariant
            it.seq() == s@,
            r@ == s@.take(it.index() as int),
    {
        proof {
            assert(r@.push(c) =~= s@.take(it.index() + 1));
        }
        r.push(c);
    }
    assert(r@ =~= s@);
    r
}

/// Whether `c` is Unicode white space.
pub fn is_space_char(c: char) -> (r: bool)
    ensures
        r == is_space(c),
{
    let u = c as u32;
    u == 0x20 || (0x09 <= u && u <= 0x0d) || u == 0x85 || u == 0xa0 || u == 0x1680 || (0x2000
        <= u && u <= 0x200a) || u == 0x2028 || u == 0x2029 || u == 0x202f || u == 0x205f || u
        == 0x3000
}

/// Whether `pinyin` names, one character each, the initials of the syllables
/// of the lowercase form of `py`: the syllable count equals the query
/// length, and the i-th query character is the first character of the i-th
/// syllable.
pub fn match_layzy_pinyin(py: &str, pinyin: &str) -> (r: bool)
    ensures
        r == matches_initials(py@, pinyin@),
{
    let low = lowercase(py);
    initials_match(low.as_str(), pinyin)
}

/// Whether `pinyin` names, one character each, the initials of the syllables
/// of `py`, compared as given.
pub fn initials_match(py: &str, pinyin: &str) -> (r: bool)
    ensures
        r == initials_hit(py@, pinyin@),
{
    let pc = chars_of(py);
    let qc = chars_of(pinyin);
    let n = pc.len();
    let m = qc.len();
    let mut k: usize = 0;
    let mut ok = true;
    let mut after_space = true;
    let mut i: usize = 0;
    while i < n
        invariant
            pc@ == py@,
            qc@ == pinyin@,
            n == py@.len(),
            m == pinyin@.len(),
            i <= n,
            k <= i,
            k == initials(py@.take(i as int)).len(),
            after_space == (i == 0 || is_space(py@[i - 1])),
            ok ==> k <= m && initials(py@.take(i as int)) == pinyin@.take(k as int),
            !ok ==> !is_prefix(initials(py@.take(i as int)), pinyin@),
        decreases n - i,
    {
        let c = pc[i];
        let sp = is_space_char(c);
        let ghost before = py@.take(i as int);
        let ghost after = py@.take(i + 1);
        assert(after.drop_last() =~= before);
        assert(opens_syllable(after, i as int) == (!sp && after_space));
        assert(initials(after) == if !sp && after_space {
            initials(before).push(c)
        } else {
            initials(before)
        });
        if !sp && after_space {
            if ok {
                if k >= m || qc[k] != c {
                    ok = false;
                    assert(!is_prefix(initials(after), pinyin@)) by {
                        if is_prefix(initials(after), pinyin@) {
                            assert(pinyin@.subrange(0, k + 1)[k as int] == initials(after)[k as int]);
                        }
                    }
                } else {
                    assert(pinyin@.take(k + 1) =~= pinyin@.take(k as int).push(c));
                }
            }
            assert(initials(before) =~= initials(after).subrange(0, initials(before).len() as int));
            proof {
                if !ok && is_prefix(initials(after), pinyin@) {
                    assert(pinyin@.subrange(0, k as int) =~= pinyin@.subrange(0, k + 1).subrange(
                        0,
                        k as int,
                    ));
                }
            }
            k = k + 1;
        }
        after_space = sp;
        i = i + 1;
    }
    assert(py@.take(n as int) =~= py@);
    assert(pinyin@.subrange(0, m as int) =~= pinyin@);
    if ok && k == m {
        assert(pinyin@.take(m as int) =~= pinyin@);
    }
    ok && k == m
}

/// Whether `q` is a prefix of `t` once the spaces of `t` are removed.
pub fn starts_with_unspaced(t: &str, q: &str) -> (r: bool)
    ensures
        r == is_prefix(q@, unspaced(t@)),
{
    let tc = chars_of(t);
    let qc = chars_of(q);
    let n = tc.len();
    let m = qc.len();
    let mut k: usize = 0;
    let mut ok = true;
    let mut i: usize = 0;
    while i < n
        invariant
            tc@ == t@,
            qc@ == q@,
            n == t@.len(),
            m == q@.len(),
            i <= n,
            k <= i,
            k == unspaced(t@.take(i as int)).len(),
            ok == (forall|x: int|
                0 <= x < k && x < m ==> #[trigger] unspaced(t@.take(i as int))[x] == q@[x]),
        decreases n - i,
    {
        let c = tc[i];
        let ghost before = t@.take(i as int);
        let ghost after = t@.take(i + 1);
        let ghost ok0 = ok;
        let ghost k0 = k;
        assert(after.drop_last() =~= before);
        if c != ' ' {
            assert(unspaced(after) == unspaced(before).push(c));
            if k < m && qc[k] != c {
                assert(unspaced(after)[k as int] != q@[k as int]);
                ok = false;
            }
            k = k + 1;
        } else {
            assert(unspaced(after) == unspaced(before));
        }
        proof {
            assert forall|x: int| 0 <= x < k0 implies #[trigger] unspaced(after)[x] == unspaced(
                before,
            )[x] by {}
            if ok {
                assert forall|x: int| 0 <= x < k && x < m implies #[trigger] unspaced(after)[x]
                    == q@[x] by {
                    if x < k0 {
                        assert(unspaced(before)[x] == q@[x]);
                    }
                }
            } else if ok0 {
                assert(unspaced(after)[k0 as int] != q@[k0 as int]);
            } else {
                let w = choose|x: int|
                    0 <= x < k0 && x < m && #[trigger] unspaced(before)[x] != q@[x];
                assert(unspaced(after)[w] != q@[w]);
            }
        }
        i = i + 1;
    }
    assert(t@.take(n as int) =~= t@);
    let r = ok && k >= m;
    if r {
        assert(unspaced(t@).subrange(0, m as int) =~= q@);
    }
    if ok && !r {
        assert(!is_prefix(q@, unspaced(t@)));
    }
    if !ok {
        assert(!is_prefix(q@, unspaced(t@))) by {
            let u = unspaced(t@);
            if is_prefix(q@, u) {
                assert forall|x: int| 0 <= x < k && x < m implies #[trigger] u[x] == q@[x] by {
                    assert(u.subrange(0, m as int)[x] == u[x]);
                }
            }
        }
    }
    r
}

/// Moves out of the pool, in order, the entries whose transliteration the
/// stage's rule accepts (the initials rule, or else the literal-prefix rule);
/// the pool keeps the others, in order.
fn split_pool<'a>(
    lst_py: &mut Vec<String>,
    lst_hz: &mut Vec<&'a str>,
    usr_ipt: &str,
    by_initials: bool,
) -> (r: (Vec<String>, Vec<&'a str>))
    requires
        old(lst_py)@.len() == old(lst_hz)@.len(),
    ensures
        final(lst_py)@.len() == final(lst_hz)@.len(),
        r.0@.len() == r.1@.len(),
        r.1@ == pick(old(lst_hz)@, views(old(lst_py)@), stage_rule(by_initials, usr_ipt@)),
        views(r.0@) == pick(
            views(old(lst_py)@),
            views(old(lst_py)@),
            stage_rule(by_initials, usr_ipt@),
        ),
        final(lst_hz)@ == pick(old(lst_hz)@, views(old(lst_py)@), stage_rest(by_initials, usr_ipt@)),
        views(final(lst_py)@) == pick(
            views(old(lst_py)@),
            views(old(lst_py)@),
            stage_rest(by_initials, usr_ipt@),
        ),
{
    let ghost ts = views(lst_py@);
    let ghost cs = lst_hz@;
    let ghost hit = stage_rule(by_initials, usr_ipt@);
    let ghost miss = stage_rest(by_initials, usr_ipt@);
    let mut hit_py: Vec<String> = Vec::new();
    let mut hit_hz: Vec<&'a str> = Vec::new();
    let mut rest_py: Vec<String> = Vec::new();
    let mut rest_hz: Vec<&'a str> = Vec::new();
    let n = lst_py.len();
    let mut i: usize = 0;
    while i < n
        invariant
            n == lst_py@.len(),
            n == lst_hz@.len(),
            ts == views(lst_py@),
            cs == lst_hz@,
            hit == stage_rule(by_initials, usr_ipt@),
            miss == stage_rest(by_initials, usr_ipt@),
            i <= n,
            hit_hz@ == pick(cs.take(i as int), ts.take(i as int), hit),
            views(hit_py@) == pick(ts.take(i as int), ts.take(i as int), hit),
            rest_hz@ == pick(cs.take(i as int), ts.take(i as int), miss),
            views(rest_py@) == pick(ts.take(i as int), ts.take(i as int), miss),
            hit_py@.len() == hit_hz@.len(),
            rest_py@.len() == rest_hz@.len(),
        decreases n - i,
    {
        let t = lst_py[i].as_str();
        let accepted = if by_initials {
            match_layzy_pinyin(t, usr_ipt)
        } else {
            let low = lowercase(t);
            starts_with_unspaced(low.as_str(), usr_ipt)
        };
        assert(cs.take(i + 1).drop_last() =~= cs.take(i as int));
        assert(ts.take(i + 1).drop_last() =~= ts.take(i as int));
        assert(ts.take(i + 1).last() == t@);
        assert(accepted == hit(t@));
        let s = lst_py[i].clone();
        let h = lst_hz[i];
        if accepted {
            proof {
                assert(views(hit_py@.push(s)) =~= views(hit_py@).push(s@));
            }
            hit_py.push(s);
            hit_hz.push(h);
        } else {
            proof {
                assert(views(rest_py@.push(s)) =~= views(rest_py@).push(s@));
            }
            rest_py.push(s);
            rest_hz.push(h);
        }
        i = i + 1;
    }
    assert(cs.take(n as int) =~= cs);
    assert(ts.take(n as int) =~= ts);
    *lst_py = rest_py;
    *lst_hz = rest_hz;
    (hit_py, hit_hz)
}

/// The first-letter filter: the pool of candidates, with their
/// transliterations, whose transliteration in lowercase starts with the
/// query's first character; `None` when no candidate does.
fn unicde_first_ascii_char_mached<'a>(
    lst_uc: &[&'a str],
    lst_ps: &[String],
    usr_ipt: &str,
) -> (r: Option<(Vec<String>, Vec<&'a str>)>)
    requires
        lst_uc@.len() == lst_ps@.len(),
        usr_ipt@.len() > 0,
    ensures
        match r {
            None => pick(lst_uc@, views(lst_ps@), first_rule(usr_ipt@)).len() == 0,
            Some((ps, hz)) => {
                &&& ps@.len() == hz@.len()
                &&& hz@.len() > 0
                &&& hz@ == pick(lst_uc@, views(lst_ps@), first_rule(usr_ipt@))
                &&& views(ps@) == pick(views(lst_ps@), views(lst_ps@), first_rule(usr_ipt@))
            },
        },
{
    let ghost ts = views(lst_ps@);
    let ghost cs = lst_uc@;
    let ghost rule = first_rule(usr_ipt@);
    let first = usr_ipt.get_char(0);
    let mut pool_ps: Vec<String> = Vec::new();
    let mut pool_hz: Vec<&'a str> = Vec::new();
    let n = lst_uc.len();
    let mut i: usize = 0;
    while i < n
        invariant
            n == cs.len(),
            n == ts.len(),
            ts == views(lst_ps@),
            cs == lst_uc@,
            rule == first_rule(usr_ipt@),
            usr_ipt@.len() > 0,
            first == usr_ipt@[0],
            i <= n,
            pool_hz@ == pick(cs.take(i as int), ts.take(i as int), rule),
            views(pool_ps@) == pick(ts.take(i as int), ts.take(i as int), rule),
            pool_ps@.len() == pool_hz@.len(),
        decreases n - i,
    {
        let t = lst_ps[i].as_str();
        let low = lowercase(t);
        let accepted = low.unicode_len() > 0 && low.as_str().get_char(0) == first;
        assert(cs.take(i + 1).drop_last() =~= cs.take(i as int));
        assert(ts.take(i + 1).drop_last() =~= ts.take(i as int));
        assert(ts.take(i + 1).last() == t@);
        assert(accepted == rule(t@));
        if accepted {
            let s = lst_ps[i].clone();
            proof {
                assert(views(pool_ps@.push(s)) =~= views(pool_ps@).push(s@));
            }
            pool_ps.push(s);
            pool_hz.push(lst_uc[i]);
        }
        i = i + 1;
    }
    assert(cs.take(n as int) =~= cs);
    assert(ts.take(n as int) =~= ts);
    if pool_hz.len() == 0 {
        None
    } else {
        Some((pool_ps, pool_hz))
    }
}

/// The initials stage: moves out of the pool the entries matched by their
/// initials; `None` when there is none.
fn uncode_layzy_pinyin_matched<'a>(
    lst_py: &mut Vec<String>,
    lst_hz: &mut Vec<&'a str>,
    usr_ipt: &str,
) -> (r: Option<(Vec<String>, Vec<&'a str>)>)
    requires
        old(lst_py)@.len() == old(lst_hz)@.len(),
    ensures
        final(lst_py)@.len() == final(lst_hz)@.len(),
        final(lst_hz)@ == pick(old(lst_hz)@, views(old(lst_py)@), stage_rest(true, usr_ipt@)),
        views(final(lst_py)@) == pick(
            views(old(lst_py)@),
            views(old(lst_py)@),
            stage_rest(true, usr_ipt@),
        ),
        match r {
            None => pick(old(lst_hz)@, views(old(lst_py)@), stage_rule(true, usr_ipt@)).len()
                == 0,
            Some((py, hz)) => {
                &&& hz@.len() > 0
                &&& hz@ == pick(old(lst_hz)@, views(old(lst_py)@), stage_rule(true, usr_ipt@))
                &&& views(py@) == pick(
                    views(old(lst_py)@),
                    views(old(lst_py)@),
                    stage_rule(true, usr_ipt@),
                )
            },
        },
{
    let (py, hz) = split_pool(lst_py, lst_hz, usr_ipt, true);
    if hz.len() == 0 {
        None
    } else {
        Some((py, hz))
    }
}

/// The literal-prefix stage: moves out of the pool the entries whose
/// transliteration, in lowercase and without spaces, starts with the query;
/// `None` when there is none.
fn unicode_ascii_matched<'a>(
    lst_ps: &mut Vec<String>,
    lst_uc: &mut Vec<&'a str>,
    usr_ipt: &str,
) -> (r: Option<(Vec<String>, Vec<&'a str>)>)
    requires
        old(lst_ps)@.len() == old(lst_uc)@.len(),
    ensures
        final(lst_ps)@.len() == final(lst_uc)@.len(),
        final(lst_uc)@ == pick(old(lst_uc)@, views(old(lst_ps)@), stage_rest(false, usr_ipt@)),
        views(final(lst_ps)@) == pick(
            views(old(lst_ps)@),
            views(old(lst_ps)@),
            stage_rest(false, usr_ipt@),
        ),
        match r {
            None => pick(old(lst_uc)@, views(old(lst_ps)@), stage_rule(false, usr_ipt@)).len()
                == 0,
            Some((ps, uc)) => {
                &&& uc@.len() > 0
                &&& uc@ == pick(old(lst_uc)@, views(old(lst_ps)@), stage_rule(false, usr_ipt@))
                &&& views(ps@) == pick(
                    views(old(lst_ps)@),
                    views(old(lst_ps)@),
                    stage_rule(false, usr_ipt@),
                )
            },
        },
{
    let (ps, uc) = split_pool(lst_ps, lst_uc, usr_ipt, false);
    if uc.len() == 0 {
        None
    } else {
        Some((ps, uc))
    }
}

/// Lazy match of the query `ipt` over candidates `lst_uc`, whose
/// transliterations are `lst_ps` (one per candidate, same order), compared
/// in lowercase: the candidates matched by their syllable initials, then the
/// remaining ones whose transliteration without spaces starts with the
/// query, each group in input order. Only candidates whose transliteration
/// starts with the query's first character are considered. `None` when
/// there is none, and for an empty query.
pub fn match_transliterated<'a>(lst_uc: &[&'a str], lst_ps: &[String], ipt: &str) -> (r: Option<
    Vec<&'a str>,
>)
    requires
        lst_uc@.len() == lst_ps@.len(),
    ensures
        opt_view(r) == if ipt@.len() == 0 {
            None
        } else {
            lazy_match(lst_uc@, views(lst_ps@), lower_of(ipt@))
        },
{
    if ipt.unicode_len() == 0 {
        return None;
    }
    let low = lowercase(ipt);
    let ipt = low.as_str();
    let ghost cs = lst_uc@;
    let ghost ts = views(lst_ps@);
    let ghost q = ipt@;
    let ghost after_initials = |t: Seq<char>| first_letter_ok(t, q) && !matches_initials(t, q);
    if ipt.unicode_len() == 0 {
        proof {
            lemma_pick_none(cs, ts, initials_group_rule(q));
            lemma_pick_none(cs, ts, literal_group_rule(q));
        }
        return None;
    }
    proof {
        lemma_pick_pick(cs, ts, first_rule(q), stage_rule(true, q), initials_group_rule(q));
        lemma_pick_pick(cs, ts, first_rule(q), stage_rest(true, q), after_initials);
        lemma_pick_pick(ts, ts, first_rule(q), stage_rest(true, q), after_initials);
        lemma_pick_pick(cs, ts, after_initials, stage_rule(false, q), literal_group_rule(q));
    }
    match unicde_first_ascii_char_mached(lst_uc, lst_ps, ipt) {
        None => None,
        Some((mut lst_ps, mut lst_uc)) => {
            let matched_lzy_py = uncode_layzy_pinyin_matched(&mut lst_ps, &mut lst_uc, ipt);
            let matched_uc = unicode_ascii_matched(&mut lst_ps, &mut lst_uc, ipt);
            match (matched_lzy_py, matched_uc) {
                (Some((_, mut lz_py)), Some((_, mut uc))) => {
                    lz_py.append(&mut uc);
                    Some(lz_py)
                },
                (Some((_, lz_py)), None) => {
                    assert(lz_py@ + Seq::<&'a str>::empty() =~= lz_py@);
                    Some(lz_py)
                },
                (None, Some((_, uc))) => {
                    assert(Seq::<&'a str>::empty() + uc@ =~= uc@);
                    Some(uc)
                },
                (None, None) => None,
            }
        },
    }
}

} // verus!
