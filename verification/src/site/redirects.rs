//! Redirect targets of the retired listings; the worker attaches only the
//! status and the header.
use vstd::prelude::*;

use crate::content::routes::opt_view;
use crate::text::{chars_of, concat, find_char, first_index_of, owned, split_chars, split_on};

verus! {

pub open spec fn spec_posts_redirect_location(query: Option<Seq<char>>) -> Seq<char> {
    match query {
        Some(q) => if q.len() > 0 {
            "/writing"@ + "?"@ + q
        } else {
            "/writing"@
        },
        None => "/writing"@,
    }
}

/// Where the retired `/posts` listing lands: the writing archive, with the
/// whole query carried verbatim so old filter links land filtered.
pub fn posts_redirect_location(query: Option<&str>) -> (r: String)
    ensures
        r@ == spec_posts_redirect_location(opt_view(query)),
{
    match query {
        Some(q) => {
            if chars_of(q).len() > 0 {
                crate::text::concat3(crate::content::routes::WRITING_PATH, "?", q)
            } else {
                owned(crate::content::routes::WRITING_PATH)
            }
        },
        None => owned(crate::content::routes::WRITING_PATH),
    }
}

/// The name of one `name=value` query parameter.
pub open spec fn param_name(p: Seq<char>) -> Seq<char> {
    match first_index_of(p, '=') {
        Some(i) => p.take(i),
        None => p,
    }
}

/// The query carries the filter parameter `q`.
pub open spec fn has_filter_param(query: Seq<char>) -> bool {
    exists|i: int| 0 <= i < split_on(query, '&').len() && param_name(#[trigger] split_on(query, '&')[i]) == "q"@
}

pub open spec fn spec_home_redirect_location(query: Option<Seq<char>>) -> Option<Seq<char>> {
    match query {
        Some(q) => if has_filter_param(q) {
            Some("/writing"@ + "?"@ + q)
        } else {
            None
        },
        None => None,
    }
}

/// The home briefly hosted the filter: a query carrying the filter
/// parameter moves whole to the writing page; any other query stays.
pub fn home_redirect_location(query: Option<&str>) -> (r: Option<String>)
    ensures
        match r {
            Some(s) => spec_home_redirect_location(opt_view(query)) == Some(s@),
            None => spec_home_redirect_location(opt_view(query)) is None,
        },
{
    let q = match query {
        Some(q) => q,
        None => return None,
    };
    let pieces = split_chars(&chars_of(q), '&');
    let filter = chars_of("q");
    let mut i: usize = 0;
    while i < pieces.len()
        invariant
            i <= pieces@.len(),
            pieces@.len() == split_on(q@, '&').len(),
            forall|k: int| 0 <= k < pieces@.len() ==> (#[trigger] pieces@[k])@ == split_on(q@, '&')[k],
            filter@ == "q"@,
            opt_view(query) == Some(q@),
            forall|k: int| 0 <= k < i ==> param_name(#[trigger] split_on(q@, '&')[k]) != "q"@,
        decreases pieces@.len() - i,
    {
        let p = &pieces[i];
        let name = match find_char(p, '=') {
            Some(j) => crate::text::head_chars(p, j),
            None => p.clone(),
        };
        assert(name@ == param_name(split_on(q@, '&')[i as int]));
        if crate::text::seq_eq(&name, &filter) {
            assert(has_filter_param(q@));
            return Some(crate::text::concat3(crate::content::routes::WRITING_PATH, "?", q));
        }
        i += 1;
    }
    None
}

} // verus!
