//! Transliteration of candidates and case folding of the query, both done by
//! outside code whose results are named here.
use vstd::prelude::*;
use crate::model::views;

verus! {

/// The ASCII transliteration that `deunicode` gives of a string.
pub uninterp spec fn deunicode_of(s: Seq<char>) -> Seq<char>;

/// The lowercase form that `str::to_lowercase` gives of a string.
pub uninterp spec fn lower_of(s: Seq<char>) -> Seq<char>;

/// Relies on deunicode::deunicode: its ASCII transliteration of `s` depends
/// on the characters of `s` alone.
#[verifier::external_body]
fn transliterate(s: &str) -> (r: String)
    ensures
        r@ == deunicode_of(s@),
{
    deunicode::deunicode(s)
}

/// Relies on str::to_lowercase: its result depends on the characters of `s`
/// alone.
#[verifier::external_body]
pub(crate) fn lowercase(s: &str) -> (r: String)
    ensures
        r@ == lower_of(s@),
{
    s.to_lowercase()
}

/// The transliteration of every candidate.
pub open spec fn transliterations(cs: Seq<&str>) -> Seq<Seq<char>> {
    cs.map_values(|c: &str| deunicode_of(c@))
}

/// The transliteration of every candidate, in order.
pub fn transliterate_all(lst_uc: &[&str]) -> (r: Vec<String>)
    ensures
        views(r@) == transliterations(lst_uc@),
{
    let mut r: Vec<String> = Vec::new();
    let n = lst_uc.len();
    let mut i: usize = 0;
    while i < n
        invariant
            n == lst_uc@.len(),
            i <= n,
            views(r@) == transliterations(lst_uc@.take(i as int)),
        decreases n - i,
    {
        let s = transliterate(lst_uc[i]);
        proof {
            assert(views(r@.push(s)) =~= views(r@).push(s@));
            assert(transliterations(lst_uc@.take(i + 1)) =~= transliterations(
                lst_uc@.take(i as int),
            ).push(deunicode_of(lst_uc@[i as int]@)));
        }
        r.push(s);
        i = i + 1;
    }
    assert(lst_uc@.take(n as int) =~= lst_uc@);
    r
}

} // verus!
