//! Lazy matching of native-script strings against a short Latin query,
//! through their phonetic (romanized) transliteration.
use vstd::prelude::*;

pub mod matcher;
pub mod laws;
pub mod model;
pub mod phonetic;

pub use matcher::match_transliterated;

use model::{lazy_match, opt_view};
use phonetic::{lower_of, transliterate_all, transliterations};

verus! {

/// Matches each candidate, through its transliteration in lowercase,
/// against the user's query in lowercase: first the candidates whose
/// syllable initials spell the query, then the remaining ones whose
/// transliteration without spaces starts with it; each group in input order.
/// Only candidates whose transliteration starts with the query's first
/// character are considered. `None` when nothing matches, and for an empty
/// query.
pub fn unicode_layzy_match<'a>(lst_uc: &[&'a str], usr_ipt: &str) -> (r: Option<Vec<&'a str>>)
    ensures
        usr_ipt@.len() == 0 ==> r is None,
        usr_ipt@.len() > 0 ==> opt_view(r) == lazy_match(
            lst_uc@,
            transliterations(lst_uc@),
            lower_of(usr_ipt@),
        ),
{
    let lst_ps = transliterate_all(lst_uc);
    match_transliterated(lst_uc, lst_ps.as_slice(), usr_ipt)
}

} // verus!
