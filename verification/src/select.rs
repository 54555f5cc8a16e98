//! Menu selection: within a location's dated menus, pick the first entry
//! whose date label contains the requested label. A degraded catalog
//! variant carries exactly one undated menu; it is returned as-is.

use vstd::prelude::*;
use crate::model::{MenuData, MenuError, MenuListV};
use crate::strutil::{contains_str, spec_contains};

verus! {

/// The menu entry's date label contains the requested label.
pub open spec fn date_matches(m: MenuListV, label: Seq<char>) -> bool {
    spec_contains(m.date, label)
}

/// Degraded catalog variant: exactly one menu entry, with no date label.
pub open spec fn single_undated(menus: Seq<MenuListV>) -> bool {
    menus.len() == 1 && menus[0].date.len() == 0
}

/// `i` is the first index of `menus` whose date label contains `label`.
pub open spec fn select_ok(menus: Seq<MenuListV>, label: Seq<char>, i: int) -> bool {
    &&& 0 <= i < menus.len()
    &&& date_matches(menus[i], label)
    &&& forall|j: int| 0 <= j < i ==> !date_matches(menus[j], label)
}

/// The index the selector must return, degraded variant included.
pub open spec fn select_result(menus: Seq<MenuListV>, label: Seq<char>, i: int) -> bool {
    if single_undated(menus) {
        i == 0
    } else {
        select_ok(menus, label, i)
    }
}

/// No entry matches and the degraded variant does not apply.
pub open spec fn select_fails(menus: Seq<MenuListV>, label: Seq<char>) -> bool {
    !single_undated(menus) && forall|j: int|
        0 <= j < menus.len() ==> !date_matches(menus[j], label)
}

/// Returns the index of the menu for `date` within `data.menus`, or
/// `MenuNotFound` exactly when no date label contains `date` (unless the
/// degraded single-undated-menu variant applies, which selects entry 0).
pub fn get_menu_index_by_date(data: &MenuData, date: &str) -> (r: Result<usize, MenuError>)
    ensures
        match r {
            Ok(i) => select_result(data.menus.deep_view(), date@, i as int),
            Err(e) => e == MenuError::MenuNotFound && select_fails(
                data.menus.deep_view(),
                date@,
            ),
        },
{
    let ghost mv = data.menus.deep_view();
    if data.menus.len() == 1 && data.menus[0].date.as_str().is_empty() {
        return Ok(0);
    }
    let mut i: usize = 0;
    while i < data.menus.len()
        invariant
            mv == data.menus.deep_view(),
            mv.len() == data.menus@.len(),
            i <= data.menus@.len(),
            !single_undated(mv),
            forall|j: int| 0 <= j < i ==> !date_matches(mv[j], date@),
        decreases data.menus@.len() - i,
    {
        if contains_str(data.menus[i].date.as_str(), date) {
            return Ok(i);
        }
        i = i + 1;
    }
    Err(MenuError::MenuNotFound)
}

} // verus!
