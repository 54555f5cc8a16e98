//! The composed pipeline: resolve a location, select the day's menu and
//! render it, plus the `DD.MM.` date-label formatter that callers use to
//! derive the selection label from a calendar date.

use vstd::prelude::*;
use crate::codec::{decode_catalog, spec_decode_catalog};
use crate::model::{MenuError, Restaurant, RestaurantV};
use crate::render::{format_message, spec_render};
use crate::resolve::{find_by_slug, resolve_fails, resolve_ok};
use crate::select::{get_menu_index_by_date, select_fails, select_result};
use crate::strutil::string_from_chars;

verus! {

/// What a successful pipeline run returns: the rendered menu of the first
/// location matching `key`, selected by `today`.
pub open spec fn pipeline_ok(
    catalog: Seq<RestaurantV>,
    key: Seq<char>,
    today: Seq<char>,
    out: Seq<char>,
) -> bool {
    exists|i: int, j: int|
        {
            &&& #[trigger] resolve_ok(catalog, key, i)
            &&& #[trigger] select_result(catalog[i].menu_data.menus, today, j)
            &&& out == spec_render(catalog[i].menu_data.menus[j])
        }
}

/// The resolved location exists but carries no menu for `today`.
pub open spec fn pipeline_no_menu(
    catalog: Seq<RestaurantV>,
    key: Seq<char>,
    today: Seq<char>,
) -> bool {
    exists|i: int|
        {
            &&& #[trigger] resolve_ok(catalog, key, i)
            &&& select_fails(catalog[i].menu_data.menus, today)
        }
}

/// Resolves `key` in `catalog`, selects the menu labelled by `today`, and
/// renders it. Errors say exactly which stage failed.
pub fn menu_text(catalog: &Vec<Restaurant>, key: &str, today: &str) -> (r: Result<
    String,
    MenuError,
>)
    ensures
        match r {
            Ok(s) => pipeline_ok(catalog.deep_view(), key@, today@, s@),
            Err(e) => {
                ||| (e == MenuError::LocationNotFound && resolve_fails(
                    catalog.deep_view(),
                    key@,
                ))
                ||| (e == MenuError::MenuNotFound && pipeline_no_menu(
                    catalog.deep_view(),
                    key@,
                    today@,
                ))
            },
        },
{
    let i = match find_by_slug(catalog, key) {
        Ok(i) => i,
        Err(e) => {
            return Err(e);
        },
    };
    let restaurant = &catalog[i];
    let j = match get_menu_index_by_date(&restaurant.menu_data, today) {
        Ok(j) => j,
        Err(e) => {
            return Err(e);
        },
    };
    let s = format_message(&restaurant.menu_data.menus[j]);
    proof {
        let cv = catalog.deep_view();
        assert(resolve_ok(cv, key@, i as int));
        assert(select_result(cv[i as int].menu_data.menus, today@, j as int));
        assert(s@ == spec_render(cv[i as int].menu_data.menus[j as int]));
    }
    Ok(s)
}

/// The whole core in one operation: decodes the fetched catalog text and
/// renders the menu that `key` and `today` select from it. The caller
/// supplies the body of the upstream response and delivers the result.
pub fn get_menu_text(body: &str, key: &str, today: &str) -> (r: Result<String, MenuError>)
    ensures
        match r {
            Ok(s) => spec_decode_catalog(body@) matches Some(c) && pipeline_ok(
                c,
                key@,
                today@,
                s@,
            ),
            Err(e) => {
                ||| (e == MenuError::Fetch && spec_decode_catalog(body@) is None)
                ||| (spec_decode_catalog(body@) matches Some(c) && ((e
                    == MenuError::LocationNotFound && resolve_fails(c, key@)) || (e
                    == MenuError::MenuNotFound && pipeline_no_menu(c, key@, today@))))
            },
        },
{
    let catalog = match decode_catalog(body) {
        Ok(catalog) => catalog,
        Err(e) => {
            return Err(e);
        },
    };
    menu_text(&catalog, key, today)
}

/// Zero-padded decimal digit pair helpers for the date label.
pub open spec fn digit_char(d: int) -> char {
    if d == 0 {
        '0'
    } else if d == 1 {
        '1'
    } else if d == 2 {
        '2'
    } else if d == 3 {
        '3'
    } else if d == 4 {
        '4'
    } else if d == 5 {
        '5'
    } else if d == 6 {
        '6'
    } else if d == 7 {
        '7'
    } else if d == 8 {
        '8'
    } else {
        '9'
    }
}

/// The selection label for day `d` of month `m`: `DD.MM.`, zero-padded.
pub open spec fn spec_date_label(d: int, m: int) -> Seq<char> {
    seq![
        digit_char(d / 10),
        digit_char(d % 10),
        '.',
        digit_char(m / 10),
        digit_char(m % 10),
        '.',
    ]
}

fn push_two_digits(out: &mut Vec<char>, n: u8)
    requires
        n < 100,
    ensures
        final(out)@ == old(out)@ + seq![digit_char(n as int / 10), digit_char(n as int % 10)],
{
    let hi = n / 10;
    let lo = n % 10;
    let hc = if hi == 0 {
        '0'
    } else if hi == 1 {
        '1'
    } else if hi == 2 {
        '2'
    } else if hi == 3 {
        '3'
    } else if hi == 4 {
        '4'
    } else if hi == 5 {
        '5'
    } else if hi == 6 {
        '6'
    } else if hi == 7 {
        '7'
    } else if hi == 8 {
        '8'
    } else {
        '9'
    };
    let lc = if lo == 0 {
        '0'
    } else if lo == 1 {
        '1'
    } else if lo == 2 {
        '2'
    } else if lo == 3 {
        '3'
    } else if lo == 4 {
        '4'
    } else if lo == 5 {
        '5'
    } else if lo == 6 {
        '6'
    } else if lo == 7 {
        '7'
    } else if lo == 8 {
        '8'
    } else {
        '9'
    };
    out.push(hc);
    out.push(lc);
    proof {
        assert(out@ =~= old(out)@ + seq![digit_char(n as int / 10), digit_char(n as int % 10)]);
    }
}

/// Formats a calendar date as the `DD.MM.` selection label.
pub fn date_label(day: u8, month: u8) -> (r: String)
    requires
        1 <= day <= 31,
        1 <= month <= 12,
    ensures
        r@ == spec_date_label(day as int, month as int),
{
    let mut out: Vec<char> = Vec::new();
    push_two_digits(&mut out, day);
    out.push('.');
    push_two_digits(&mut out, month);
    out.push('.');
    proof {
        assert(out@ =~= spec_date_label(day as int, month as int));
    }
    string_from_chars(&out)
}

} // verus!
