use crate::chars::copy_range;
use vstd::prelude::*;

verus! {

/// The text of the absolute URL that joining `href` against the absolute base
/// URL `base` yields, or nothing when the base does not parse as an absolute
/// URL or the join fails.  A function of the two strings alone.
pub uninterp spec fn url_join(base: Seq<char>, href: Seq<char>) -> Option<Seq<char>>;

/// Relies on `url::Url::parse`, `Url::join` and `Url`'s serialization: the
/// joined URL is computed from the two strings alone, `None` exactly when
/// parsing the base or joining fails.  A returned serialization re-joins to
/// itself: it always carries its scheme (and, for special schemes, the
/// authority slashes), so joining ignores the base, and parsing a `Url`'s own
/// serialization reproduces it — an invariant the crate itself asserts
/// (`check_invariants`).
#[verifier::external_body]
fn join_url(base: &Vec<char>, href: &Vec<char>) -> (r: Option<Vec<char>>)
    ensures
        match r {
            Some(u) => url_join(base@, href@) == Some(u@) && url_join(base@, u@) == Some(u@),
            None => url_join(base@, href@) is None,
        },
{
    let b: String = base.iter().collect();
    let h: String = href.iter().collect();
    match url::Url::parse(&b).and_then(|u| u.join(&h)) {
        Ok(u) => Some(u.to_string().chars().collect()),
        Err(_) => None,
    }
}

/// How a possibly-relative reference resolves: an empty reference stays
/// empty; without a base the reference is kept as it stands; with one, the
/// join's result is used, and the reference is kept when the join fails.
pub open spec fn spec_resolve(href: Seq<char>, base: Seq<char>) -> Seq<char> {
    if href.len() == 0 {
        Seq::empty()
    } else if base.len() == 0 {
        href
    } else {
        match url_join(base, href) {
            Some(u) => u,
            None => href,
        }
    }
}

/// Resolution is idempotent: the second `ensures` clause says a resolved
/// reference resolves to itself against the same base.
pub fn resolve_url(href: &Vec<char>, base: &Vec<char>) -> (r: Vec<char>)
    ensures
        r@ == spec_resolve(href@, base@),
        spec_resolve(r@, base@) == r@,
{
    if href.len() == 0 {
        let r: Vec<char> = Vec::new();
        proof {
            assert(r@ =~= spec_resolve(href@, base@));
            assert(r@ =~= spec_resolve(r@, base@));
        }
        return r;
    }
    if base.len() == 0 {
        return copy_range(href, 0, href.len());
    }
    match join_url(base, href) {
        Some(u) => {
            proof {
                if u@.len() == 0 {
                    assert(spec_resolve(u@, base@) =~= u@);
                }
            }
            u
        },
        None => copy_range(href, 0, href.len()),
    }
}

} // verus!
