//! Location resolution: find the first catalog entry whose slug contains
//! the requested key as a substring (first-match-wins by catalog order).

use vstd::prelude::*;
use crate::model::{MenuError, Restaurant, RestaurantV};
use crate::strutil::{contains_str, spec_contains};

verus! {

/// The key matches a location when its slug contains the key.
pub open spec fn slug_matches(r: RestaurantV, key: Seq<char>) -> bool {
    spec_contains(r.slug, key)
}

/// `i` is the first index of `catalog` whose slug contains `key`.
pub open spec fn resolve_ok(catalog: Seq<RestaurantV>, key: Seq<char>, i: int) -> bool {
    &&& 0 <= i < catalog.len()
    &&& slug_matches(catalog[i], key)
    &&& forall|j: int| 0 <= j < i ==> !slug_matches(catalog[j], key)
}

/// No entry of `catalog` matches `key`.
pub open spec fn resolve_fails(catalog: Seq<RestaurantV>, key: Seq<char>) -> bool {
    forall|j: int| 0 <= j < catalog.len() ==> !slug_matches(catalog[j], key)
}

/// Returns the index of the first location whose slug contains `key`, or
/// `LocationNotFound` exactly when no slug does.
pub fn find_by_slug(catalog: &Vec<Restaurant>, key: &str) -> (r: Result<usize, MenuError>)
    ensures
        match r {
            Ok(i) => resolve_ok(catalog.deep_view(), key@, i as int),
            Err(e) => e == MenuError::LocationNotFound && resolve_fails(
                catalog.deep_view(),
                key@,
            ),
        },
{
    let ghost cv = catalog.deep_view();
    let mut i: usize = 0;
    while i < catalog.len()
        invariant
            cv == catalog.deep_view(),
            cv.len() == catalog@.len(),
            i <= catalog@.len(),
            forall|j: int| 0 <= j < i ==> !slug_matches(cv[j], key@),
        decreases catalog@.len() - i,
    {
        if contains_str(catalog[i].slug.as_str(), key) {
            return Ok(i);
        }
        i = i + 1;
    }
    Err(MenuError::LocationNotFound)
}

} // verus!
