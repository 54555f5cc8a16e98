//! The catalog codec: canonical JSON encoding of the restaurant catalog,
//! a tolerant parser for it, and the proof that decoding inverts encoding.
//! The decoder accepts whitespace between tokens, object fields in any
//! order, unknown extra fields (ignored), and the standard string escapes;
//! a missing required field, a duplicate field, a type mismatch or
//! malformed syntax is a fetch error.

use vstd::prelude::*;
use crate::jsonprim::{
    at_least, enc_i32_into, enc_str_into, is_digit, is_json_ws, lemma_enc_nat_digits,
    lemma_rt_int, lemma_rt_str, lemma_subrange_split, parse_int_val, parse_string, past,
    push_lit, skip_value, skip_ws, spec_enc_int, spec_enc_str, spec_enc_str_body,
    spec_parse_int, spec_parse_str, spec_skip_value, spec_skip_ws,
};
use crate::model::{
    Menu, MenuData, MenuDataV, MenuError, MenuList, MenuListV, MenuV, Price, PriceOptions,
    PriceOptionsV, PriceV, Restaurant, RestaurantV,
};
use crate::strutil::{str_eq, str_to_chars, string_from_chars};

verus! {

// ------------------------------------------------------------ wellformed

/// `n` fits the upstream numeric field type.
pub open spec fn i32_bounded(n: int) -> bool {
    -2147483648 <= n && n <= 2147483647
}

/// The numeric fields of one catalog entry are in range.
pub open spec fn restaurant_wf(r: RestaurantV) -> bool {
    i32_bounded(r.id) && i32_bounded(r.menu_data.id) && i32_bounded(r.menu_data.areacode)
}

/// The numeric fields of every catalog entry are in range.
pub open spec fn catalog_wf(c: Seq<RestaurantV>) -> bool {
    forall|k: int| 0 <= k < c.len() ==> restaurant_wf(#[trigger] c[k])
}

// ------------------------------------------------------------ spec enc

#[verifier::opaque]
pub open spec fn spec_enc_price_options(p: PriceOptionsV) -> Seq<char> {
    "{\"student\":"@ + (spec_enc_str(p.student) + (",\"normal\":"@ + (spec_enc_str(p.normal)
        + "}"@)))
}

#[verifier::opaque]
pub open spec fn spec_enc_price(p: PriceV) -> Seq<char> {
    "{\"name\":"@ + (spec_enc_str(p.name) + (",\"value\":"@ + (spec_enc_price_options(p.value)
        + "}"@)))
}

#[verifier::opaque]
pub open spec fn spec_enc_menu(m: MenuV) -> Seq<char> {
    "{\"price\":"@ + (spec_enc_price(m.price) + (",\"name\":"@ + (spec_enc_str(m.name) + "}"@)))
}

pub open spec fn spec_enc_menu_seq(ms: Seq<MenuV>) -> Seq<char>
    decreases ms.len(),
{
    if ms.len() == 0 {
        Seq::empty()
    } else if ms.len() == 1 {
        spec_enc_menu(ms[0])
    } else {
        spec_enc_menu(ms[0]) + (seq![','] + spec_enc_menu_seq(ms.drop_first()))
    }
}

pub open spec fn spec_enc_menu_arr(ms: Seq<MenuV>) -> Seq<char> {
    seq!['['] + (spec_enc_menu_seq(ms) + seq![']'])
}

#[verifier::opaque]
pub open spec fn spec_enc_menulist(ml: MenuListV) -> Seq<char> {
    "{\"data\":"@ + (spec_enc_menu_arr(ml.data) + (",\"date\":"@ + (spec_enc_str(ml.date)
        + "}"@)))
}

pub open spec fn spec_enc_menulist_seq(ms: Seq<MenuListV>) -> Seq<char>
    decreases ms.len(),
{
    if ms.len() == 0 {
        Seq::empty()
    } else if ms.len() == 1 {
        spec_enc_menulist(ms[0])
    } else {
        spec_enc_menulist(ms[0]) + (seq![','] + spec_enc_menulist_seq(ms.drop_first()))
    }
}

pub open spec fn spec_enc_menulist_arr(ms: Seq<MenuListV>) -> Seq<char> {
    seq!['['] + (spec_enc_menulist_seq(ms) + seq![']'])
}

#[verifier::opaque]
pub open spec fn spec_enc_menudata(md: MenuDataV) -> Seq<char> {
    "{\"name\":"@ + (spec_enc_str(md.name) + (",\"id\":"@ + (spec_enc_int(md.id)
        + (",\"areacode\":"@ + (spec_enc_int(md.areacode) + (",\"menus\":"@
        + (spec_enc_menulist_arr(md.menus) + "}"@)))))))
}

#[verifier::opaque]
pub open spec fn spec_enc_restaurant(r: RestaurantV) -> Seq<char> {
    "{\"id\":"@ + (spec_enc_int(r.id) + (",\"title\":"@ + (spec_enc_str(r.title)
        + (",\"slug\":"@ + (spec_enc_str(r.slug) + (",\"permalink\":"@
        + (spec_enc_str(r.permalink) + (",\"address\":"@ + (spec_enc_str(r.address)
        + (",\"menuData\":"@ + (spec_enc_menudata(r.menu_data) + "}"@)))))))))))
}

pub open spec fn spec_enc_restaurant_seq(c: Seq<RestaurantV>) -> Seq<char>
    decreases c.len(),
{
    if c.len() == 0 {
        Seq::empty()
    } else if c.len() == 1 {
        spec_enc_restaurant(c[0])
    } else {
        spec_enc_restaurant(c[0]) + (seq![','] + spec_enc_restaurant_seq(c.drop_first()))
    }
}

/// The canonical JSON text of a whole catalog.
pub open spec fn spec_enc_catalog(c: Seq<RestaurantV>) -> Seq<char> {
    seq!['['] + (spec_enc_restaurant_seq(c) + seq![']'])
}

// ------------------------------------------------------------ spec parse

/// An unknown member's value, skipped; kept behind its own name so that
/// record parsing stays small to reason about.
#[verifier::opaque]
pub open spec fn spec_skip_unknown(s: Seq<char>, v: int) -> Option<int> {
    spec_skip_value(s, v)
}

/// The view of an optional owned string field slot.
pub open spec fn opt_chars(o: Option<String>) -> Option<Seq<char>> {
    match o {
        Some(x) => Some(x@),
        None => None,
    }
}

/// The view of an optional numeric field slot.
pub open spec fn opt_i32(o: Option<i32>) -> Option<int> {
    match o {
        Some(x) => Some(x as int),
        None => None,
    }
}

/// The view of an optional price-pair field slot.
pub open spec fn opt_po(o: Option<PriceOptions>) -> Option<PriceOptionsV> {
    match o {
        Some(x) => Some(x@),
        None => None,
    }
}

/// The view of an optional price field slot.
pub open spec fn opt_price(o: Option<Price>) -> Option<PriceV> {
    match o {
        Some(x) => Some(x@),
        None => None,
    }
}

/// The view of an optional menu-block field slot.
pub open spec fn opt_md(o: Option<MenuData>) -> Option<MenuDataV> {
    match o {
        Some(x) => Some(x@),
        None => None,
    }
}

/// The view of an optional dish-list field slot.
pub open spec fn opt_menus(o: Option<Vec<Menu>>) -> Option<Seq<MenuV>> {
    match o {
        Some(x) => Some(x.deep_view()),
        None => None,
    }
}

/// The view of an optional daily-menu-list field slot.
pub open spec fn opt_menulists(o: Option<Vec<MenuList>>) -> Option<Seq<MenuListV>> {
    match o {
        Some(x) => Some(x.deep_view()),
        None => None,
    }
}

pub open spec fn spec_price_options_members(s: Seq<char>, i: int, f1: Option<Seq<char>>, f2: Option<Seq<char>>) -> Option<(PriceOptionsV, int)>
    decreases s.len() - i,
{
    if i < 0 || i >= s.len() {
        None
    } else {
        match spec_parse_str(s, i) {
            None => None,
            Some((key, j0)) => {
                let j = past(i, j0, s.len() as int);
                let j2 = at_least(j, spec_skip_ws(s, j), s.len() as int);
                if j2 < s.len() && s[j2] == ':' {
                    let v = at_least(j2 + 1, spec_skip_ws(s, j2 + 1), s.len() as int);
                    let step: Option<(Option<Seq<char>>, Option<Seq<char>>, int)> = if key == "student"@ {
                        if f1 is Some {
                            None
                        } else {
                            match spec_parse_str(s, v) {
                                Some((t, k)) => Some((Some(t), f2, k)),
                                None => None,
                            }
                        }
                    } else if key == "normal"@ {
                        if f2 is Some {
                            None
                        } else {
                            match spec_parse_str(s, v) {
                                Some((t, k)) => Some((f1, Some(t), k)),
                                None => None,
                            }
                        }
                    } else {
                        match spec_skip_unknown(s, v) {
                            Some(k) => Some((f1, f2, k)),
                            None => None,
                        }
                    };
                    match step {
                        None => None,
                        Some((g1, g2, k0)) => {
                            let k = past(v, k0, s.len() as int);
                            let k2 = at_least(k, spec_skip_ws(s, k), s.len() as int);
                            if k2 < s.len() && s[k2] == ',' {
                                let m2 = at_least(k2 + 1, spec_skip_ws(s, k2 + 1), s.len() as int);
                                spec_price_options_members(s, m2, g1, g2)
                            } else if k2 < s.len() && s[k2] == '}' {
                                match (g1, g2) {
                                    (Some(a1), Some(a2)) => Some((PriceOptionsV { student: a1, normal: a2 }, k2 + 1)),
                                    _ => None,
                                }
                            } else {
                                None
                            }
                        },
                    }
                } else {
                    None
                }
            },
        }
    }
}

#[verifier::opaque]
pub open spec fn spec_parse_price_options(s: Seq<char>, i: int) -> Option<(PriceOptionsV, int)> {
    if 0 <= i && i < s.len() && s[i] == '{' {
        spec_price_options_members(s, spec_skip_ws(s, i + 1), None, None)
    } else {
        None
    }
}

pub open spec fn spec_price_members(s: Seq<char>, i: int, f1: Option<Seq<char>>, f2: Option<PriceOptionsV>) -> Option<(PriceV, int)>
    decreases s.len() - i,
{
    if i < 0 || i >= s.len() {
        None
    } else {
        match spec_parse_str(s, i) {
            None => None,
            Some((key, j0)) => {
                let j = past(i, j0, s.len() as int);
                let j2 = at_least(j, spec_skip_ws(s, j), s.len() as int);
                if j2 < s.len() && s[j2] == ':' {
                    let v = at_least(j2 + 1, spec_skip_ws(s, j2 + 1), s.len() as int);
                    let step: Option<(Option<Seq<char>>, Option<PriceOptionsV>, int)> = if key == "name"@ {
                        if f1 is Some {
                            None
                        } else {
                            match spec_parse_str(s, v) {
                                Some((t, k)) => Some((Some(t), f2, k)),
                                None => None,
                            }
                        }
                    } else if key == "value"@ {
                        if f2 is Some {
                            None
                        } else {
                            match spec_parse_price_options(s, v) {
                                Some((t, k)) => Some((f1, Some(t), k)),
                                None => None,
                            }
                        }
                    } else {
                        match spec_skip_unknown(s, v) {
                            Some(k) => Some((f1, f2, k)),
                            None => None,
                        }
                    };
                    match step {
                        None => None,
                        Some((g1, g2, k0)) => {
                            let k = past(v, k0, s.len() as int);
                            let k2 = at_least(k, spec_skip_ws(s, k), s.len() as int);
                            if k2 < s.len() && s[k2] == ',' {
                                let m2 = at_least(k2 + 1, spec_skip_ws(s, k2 + 1), s.len() as int);
                                spec_price_members(s, m2, g1, g2)
                            } else if k2 < s.len() && s[k2] == '}' {
                                match (g1, g2) {
                                    (Some(a1), Some(a2)) => Some((PriceV { name: a1, value: a2 }, k2 + 1)),
                                    _ => None,
                                }
                            } else {
                                None
                            }
                        },
                    }
                } else {
                    None
                }
            },
        }
    }
}

#[verifier::opaque]
pub open spec fn spec_parse_price(s: Seq<char>, i: int) -> Option<(PriceV, int)> {
    if 0 <= i && i < s.len() && s[i] == '{' {
        spec_price_members(s, spec_skip_ws(s, i + 1), None, None)
    } else {
        None
    }
}

pub open spec fn spec_menu_members(s: Seq<char>, i: int, f1: Option<PriceV>, f2: Option<Seq<char>>) -> Option<(MenuV, int)>
    decreases s.len() - i,
{
    if i < 0 || i >= s.len() {
        None
    } else {
        match spec_parse_str(s, i) {
            None => None,
            Some((key, j0)) => {
                let j = past(i, j0, s.len() as int);
                let j2 = at_least(j, spec_skip_ws(s, j), s.len() as int);
                if j2 < s.len() && s[j2] == ':' {
                    let v = at_least(j2 + 1, spec_skip_ws(s, j2 + 1), s.len() as int);
                    let step: Option<(Option<PriceV>, Option<Seq<char>>, int)> = if key == "price"@ {
                        if f1 is Some {
                            None
                        } else {
                            match spec_parse_price(s, v) {
                                Some((t, k)) => Some((Some(t), f2, k)),
                                None => None,
                            }
                        }
                    } else if key == "name"@ {
                        if f2 is Some {
                            None
                        } else {
                            match spec_parse_str(s, v) {
                                Some((t, k)) => Some((f1, Some(t), k)),
                                None => None,
                            }
                        }
                    } else {
                        match spec_skip_unknown(s, v) {
                            Some(k) => Some((f1, f2, k)),
                            None => None,
                        }
                    };
                    match step {
                        None => None,
                        Some((g1, g2, k0)) => {
                            let k = past(v, k0, s.len() as int);
                            let k2 = at_least(k, spec_skip_ws(s, k), s.len() as int);
                            if k2 < s.len() && s[k2] == ',' {
                                let m2 = at_least(k2 + 1, spec_skip_ws(s, k2 + 1), s.len() as int);
                                spec_menu_members(s, m2, g1, g2)
                            } else if k2 < s.len() && s[k2] == '}' {
                                match (g1, g2) {
                                    (Some(a1), Some(a2)) => Some((MenuV { price: a1, name: a2 }, k2 + 1)),
                                    _ => None,
                                }
                            } else {
                                None
                            }
                        },
                    }
                } else {
                    None
                }
            },
        }
    }
}

#[verifier::opaque]
pub open spec fn spec_parse_menu(s: Seq<char>, i: int) -> Option<(MenuV, int)> {
    if 0 <= i && i < s.len() && s[i] == '{' {
        spec_menu_members(s, spec_skip_ws(s, i + 1), None, None)
    } else {
        None
    }
}

#[verifier::opaque]
pub open spec fn spec_parse_menu_elems(s: Seq<char>, i: int) -> Option<(Seq<MenuV>, int)>
    decreases s.len() - i,
{
    if i < 0 || i >= s.len() {
        None
    } else {
        match spec_parse_menu(s, i) {
            None => None,
            Some((m, j0)) => {
                let j = past(i, j0, s.len() as int);
                let j2 = at_least(j, spec_skip_ws(s, j), s.len() as int);
                if j2 < s.len() && s[j2] == ',' {
                    let nx = at_least(j2 + 1, spec_skip_ws(s, j2 + 1), s.len() as int);
                    match spec_parse_menu_elems(s, nx) {
                        Some((ms, k)) => Some((seq![m] + ms, k)),
                        None => None,
                    }
                } else if j2 < s.len() && s[j2] == ']' {
                    Some((seq![m], j2 + 1))
                } else {
                    None
                }
            },
        }
    }
}

#[verifier::opaque]
pub open spec fn spec_parse_menu_arr(s: Seq<char>, i: int) -> Option<(Seq<MenuV>, int)> {
    if 0 <= i && i < s.len() && s[i] == '[' {
        let j = spec_skip_ws(s, i + 1);
        if 0 <= j && j < s.len() && s[j] == ']' {
            Some((Seq::empty(), j + 1))
        } else {
            spec_parse_menu_elems(s, j)
        }
    } else {
        None
    }
}

pub open spec fn spec_menulist_members(s: Seq<char>, i: int, f1: Option<Seq<MenuV>>, f2: Option<Seq<char>>) -> Option<(MenuListV, int)>
    decreases s.len() - i,
{
    if i < 0 || i >= s.len() {
        None
    } else {
        match spec_parse_str(s, i) {
            None => None,
            Some((key, j0)) => {
                let j = past(i, j0, s.len() as int);
                let j2 = at_least(j, spec_skip_ws(s, j), s.len() as int);
                if j2 < s.len() && s[j2] == ':' {
                    let v = at_least(j2 + 1, spec_skip_ws(s, j2 + 1), s.len() as int);
                    let step: Option<(Option<Seq<MenuV>>, Option<Seq<char>>, int)> = if key == "data"@ {
                        if f1 is Some {
                            None
                        } else {
                            match spec_parse_menu_arr(s, v) {
                                Some((t, k)) => Some((Some(t), f2, k)),
                                None => None,
                            }
                        }
                    } else if key == "date"@ {
                        if f2 is Some {
                            None
                        } else {
                            match spec_parse_str(s, v) {
                                Some((t, k)) => Some((f1, Some(t), k)),
                                None => None,
                            }
                        }
                    } else {
                        match spec_skip_unknown(s, v) {
                            Some(k) => Some((f1, f2, k)),
                            None => None,
                        }
                    };
                    match step {
                        None => None,
                        Some((g1, g2, k0)) => {
                            let k = past(v, k0, s.len() as int);
                            let k2 = at_least(k, spec_skip_ws(s, k), s.len() as int);
                            if k2 < s.len() && s[k2] == ',' {
                                let m2 = at_least(k2 + 1, spec_skip_ws(s, k2 + 1), s.len() as int);
                                spec_menulist_members(s, m2, g1, g2)
                            } else if k2 < s.len() && s[k2] == '}' {
                                match (g1, g2) {
                                    (Some(a1), Some(a2)) => Some((MenuListV { data: a1, date: a2 }, k2 + 1)),
                                    _ => None,
                                }
                            } else {
                                None
                            }
                        },
                    }
                } else {
                    None
                }
            },
        }
    }
}

#[verifier::opaque]
pub open spec fn spec_parse_menulist(s: Seq<char>, i: int) -> Option<(MenuListV, int)> {
    if 0 <= i && i < s.len() && s[i] == '{' {
        spec_menulist_members(s, spec_skip_ws(s, i + 1), None, None)
    } else {
        None
    }
}

#[verifier::opaque]
pub open spec fn spec_parse_menulist_elems(s: Seq<char>, i: int) -> Option<(Seq<MenuListV>, int)>
    decreases s.len() - i,
{
    if i < 0 || i >= s.len() {
        None
    } else {
        match spec_parse_menulist(s, i) {
            None => None,
            Some((m, j0)) => {
                let j = past(i, j0, s.len() as int);
                let j2 = at_least(j, spec_skip_ws(s, j), s.len() as int);
                if j2 < s.len() && s[j2] == ',' {
                    let nx = at_least(j2 + 1, spec_skip_ws(s, j2 + 1), s.len() as int);
                    match spec_parse_menulist_elems(s, nx) {
                        Some((ms, k)) => Some((seq![m] + ms, k)),
                        None => None,
                    }
                } else if j2 < s.len() && s[j2] == ']' {
                    Some((seq![m], j2 + 1))
                } else {
                    None
                }
            },
        }
    }
}

#[verifier::opaque]
pub open spec fn spec_parse_menulist_arr(s: Seq<char>, i: int) -> Option<(Seq<MenuListV>, int)> {
    if 0 <= i && i < s.len() && s[i] == '[' {
        let j = spec_skip_ws(s, i + 1);
        if 0 <= j && j < s.len() && s[j] == ']' {
            Some((Seq::empty(), j + 1))
        } else {
            spec_parse_menulist_elems(s, j)
        }
    } else {
        None
    }
}

/// One object member of this record: the value for `key` parsed at `v`,
/// filling its slot, or an unknown member skipped.
pub open spec fn spec_menudata_step(s: Seq<char>, v: int, key: Seq<char>, f1: Option<Seq<char>>, f2: Option<int>, f3: Option<int>, f4: Option<Seq<MenuListV>>) -> Option<(Option<Seq<char>>, Option<int>, Option<int>, Option<Seq<MenuListV>>, int)> {
    if key == "name"@ {
        if f1 is Some {
            None
        } else {
            match spec_parse_str(s, v) {
                Some((t, k)) => Some((Some(t), f2, f3, f4, k)),
                None => None,
            }
        }
    } else if key == "id"@ {
        if f2 is Some {
            None
        } else {
            match spec_parse_int(s, v) {
                Some((t, k)) => Some((f1, Some(t), f3, f4, k)),
                None => None,
            }
        }
    } else if key == "areacode"@ {
        if f3 is Some {
            None
        } else {
            match spec_parse_int(s, v) {
                Some((t, k)) => Some((f1, f2, Some(t), f4, k)),
                None => None,
            }
        }
    } else if key == "menus"@ {
        if f4 is Some {
            None
        } else {
            match spec_parse_menulist_arr(s, v) {
                Some((t, k)) => Some((f1, f2, f3, Some(t), k)),
                None => None,
            }
        }
    } else {
        match spec_skip_unknown(s, v) {
            Some(k) => Some((f1, f2, f3, f4, k)),
            None => None,
        }
    }
}

pub open spec fn spec_menudata_members(s: Seq<char>, i: int, f1: Option<Seq<char>>, f2: Option<int>, f3: Option<int>, f4: Option<Seq<MenuListV>>) -> Option<(MenuDataV, int)>
    decreases s.len() - i,
{
    if i < 0 || i >= s.len() {
        None
    } else {
        match spec_parse_str(s, i) {
            None => None,
            Some((key, j0)) => {
                let j = past(i, j0, s.len() as int);
                let j2 = at_least(j, spec_skip_ws(s, j), s.len() as int);
                if j2 < s.len() && s[j2] == ':' {
                    let v = at_least(j2 + 1, spec_skip_ws(s, j2 + 1), s.len() as int);
                    let step = spec_menudata_step(s, v, key, f1, f2, f3, f4);
                    match step {
                        None => None,
                        Some((g1, g2, g3, g4, k0)) => {
                            let k = past(v, k0, s.len() as int);
                            let k2 = at_least(k, spec_skip_ws(s, k), s.len() as int);
                            if k2 < s.len() && s[k2] == ',' {
                                let m2 = at_least(k2 + 1, spec_skip_ws(s, k2 + 1), s.len() as int);
                                spec_menudata_members(s, m2, g1, g2, g3, g4)
                            } else if k2 < s.len() && s[k2] == '}' {
                                match (g1, g2, g3, g4) {
                                    (Some(a1), Some(a2), Some(a3), Some(a4)) => Some((MenuDataV { name: a1, id: a2, areacode: a3, menus: a4 }, k2 + 1)),
                                    _ => None,
                                }
                            } else {
                                None
                            }
                        },
                    }
                } else {
                    None
                }
            },
        }
    }
}

#[verifier::opaque]
pub open spec fn spec_parse_menudata(s: Seq<char>, i: int) -> Option<(MenuDataV, int)> {
    if 0 <= i && i < s.len() && s[i] == '{' {
        spec_menudata_members(s, spec_skip_ws(s, i + 1), None, None, None, None)
    } else {
        None
    }
}

/// One object member of this record: the value for `key` parsed at `v`,
/// filling its slot, or an unknown member skipped.
pub open spec fn spec_restaurant_step(s: Seq<char>, v: int, key: Seq<char>, f1: Option<int>, f2: Option<Seq<char>>, f3: Option<Seq<char>>, f4: Option<Seq<char>>, f5: Option<Seq<char>>, f6: Option<MenuDataV>) -> Option<(Option<int>, Option<Seq<char>>, Option<Seq<char>>, Option<Seq<char>>, Option<Seq<char>>, Option<MenuDataV>, int)> {
    if key == "id"@ {
        if f1 is Some {
            None
        } else {
            match spec_parse_int(s, v) {
                Some((t, k)) => Some((Some(t), f2, f3, f4, f5, f6, k)),
                None => None,
            }
        }
    } else if key == "title"@ {
        if f2 is Some {
            None
        } else {
            match spec_parse_str(s, v) {
                Some((t, k)) => Some((f1, Some(t), f3, f4, f5, f6, k)),
                None => None,
            }
        }
    } else if key == "slug"@ {
        if f3 is Some {
            None
        } else {
            match spec_parse_str(s, v) {
                Some((t, k)) => Some((f1, f2, Some(t), f4, f5, f6, k)),
                None => None,
            }
        }
    } else if key == "permalink"@ {
        if f4 is Some {
            None
        } else {
            match spec_parse_str(s, v) {
                Some((t, k)) => Some((f1, f2, f3, Some(t), f5, f6, k)),
                None => None,
            }
        }
    } else if key == "address"@ {
        if f5 is Some {
            None
        } else {
            match spec_parse_str(s, v) {
                Some((t, k)) => Some((f1, f2, f3, f4, Some(t), f6, k)),
                None => None,
            }
        }
    } else if key == "menuData"@ {
        if f6 is Some {
            None
        } else {
            match spec_parse_menudata(s, v) {
                Some((t, k)) => Some((f1, f2, f3, f4, f5, Some(t), k)),
                None => None,
            }
        }
    } else {
        match spec_skip_unknown(s, v) {
            Some(k) => Some((f1, f2, f3, f4, f5, f6, k)),
            None => None,
        }
    }
}

pub open spec fn spec_restaurant_members(s: Seq<char>, i: int, f1: Option<int>, f2: Option<Seq<char>>, f3: Option<Seq<char>>, f4: Option<Seq<char>>, f5: Option<Seq<char>>, f6: Option<MenuDataV>) -> Option<(RestaurantV, int)>
    decreases s.len() - i,
{
    if i < 0 || i >= s.len() {
        None
    } else {
        match spec_parse_str(s, i) {
            None => None,
            Some((key, j0)) => {
                let j = past(i, j0, s.len() as int);
                let j2 = at_least(j, spec_skip_ws(s, j), s.len() as int);
                if j2 < s.len() && s[j2] == ':' {
                    let v = at_least(j2 + 1, spec_skip_ws(s, j2 + 1), s.len() as int);
                    let step = spec_restaurant_step(s, v, key, f1, f2, f3, f4, f5, f6);
                    match step {
                        None => None,
                        Some((g1, g2, g3, g4, g5, g6, k0)) => {
                            let k = past(v, k0, s.len() as int);
                            let k2 = at_least(k, spec_skip_ws(s, k), s.len() as int);
                            if k2 < s.len() && s[k2] == ',' {
                                let m2 = at_least(k2 + 1, spec_skip_ws(s, k2 + 1), s.len() as int);
                                spec_restaurant_members(s, m2, g1, g2, g3, g4, g5, g6)
                            } else if k2 < s.len() && s[k2] == '}' {
                                match (g1, g2, g3, g4, g5, g6) {
                                    (Some(a1), Some(a2), Some(a3), Some(a4), Some(a5), Some(a6)) => Some((RestaurantV { id: a1, title: a2, slug: a3, permalink: a4, address: a5, menu_data: a6 }, k2 + 1)),
                                    _ => None,
                                }
                            } else {
                                None
                            }
                        },
                    }
                } else {
                    None
                }
            },
        }
    }
}

#[verifier::opaque]
pub open spec fn spec_parse_restaurant(s: Seq<char>, i: int) -> Option<(RestaurantV, int)> {
    if 0 <= i && i < s.len() && s[i] == '{' {
        spec_restaurant_members(s, spec_skip_ws(s, i + 1), None, None, None, None, None, None)
    } else {
        None
    }
}

#[verifier::opaque]
pub open spec fn spec_parse_restaurant_elems(s: Seq<char>, i: int) -> Option<(Seq<RestaurantV>, int)>
    decreases s.len() - i,
{
    if i < 0 || i >= s.len() {
        None
    } else {
        match spec_parse_restaurant(s, i) {
            None => None,
            Some((m, j0)) => {
                let j = past(i, j0, s.len() as int);
                let j2 = at_least(j, spec_skip_ws(s, j), s.len() as int);
                if j2 < s.len() && s[j2] == ',' {
                    let nx = at_least(j2 + 1, spec_skip_ws(s, j2 + 1), s.len() as int);
                    match spec_parse_restaurant_elems(s, nx) {
                        Some((ms, k)) => Some((seq![m] + ms, k)),
                        None => None,
                    }
                } else if j2 < s.len() && s[j2] == ']' {
                    Some((seq![m], j2 + 1))
                } else {
                    None
                }
            },
        }
    }
}

#[verifier::opaque]
pub open spec fn spec_parse_restaurant_arr(s: Seq<char>, i: int) -> Option<(Seq<RestaurantV>, int)> {
    if 0 <= i && i < s.len() && s[i] == '[' {
        let j = spec_skip_ws(s, i + 1);
        if 0 <= j && j < s.len() && s[j] == ']' {
            Some((Seq::empty(), j + 1))
        } else {
            spec_parse_restaurant_elems(s, j)
        }
    } else {
        None
    }
}

/// The catalog is the top-level array of locations.
pub open spec fn spec_parse_catalog(s: Seq<char>, i: int) -> Option<(Seq<RestaurantV>, int)> {
    spec_parse_restaurant_arr(s, i)
}

/// The decoded catalog: leading and trailing whitespace allowed, and the
/// parse must consume the whole input.
pub open spec fn spec_decode_catalog(s: Seq<char>) -> Option<Seq<RestaurantV>> {
    let i = spec_skip_ws(s, 0);
    match spec_parse_catalog(s, i) {
        Some((c, j)) => if 0 <= j <= s.len() && spec_skip_ws(s, j) == s.len() {
            Some(c)
        } else {
            None
        },
        None => None,
    }
}

// ------------------------------------------------------------ round trip

proof fn lemma_enc_price_options_head(x: PriceOptionsV)
    ensures
        spec_enc_price_options(x).len() > 0,
        spec_enc_price_options(x)[0] == '{',
{
    reveal(spec_enc_price_options);
    reveal_strlit("{\"student\":");
}

proof fn lemma_enc_price_head(x: PriceV)
    ensures
        spec_enc_price(x).len() > 0,
        spec_enc_price(x)[0] == '{',
{
    reveal(spec_enc_price);
    reveal_strlit("{\"name\":");
}

proof fn lemma_enc_menu_head(x: MenuV)
    ensures
        spec_enc_menu(x).len() > 0,
        spec_enc_menu(x)[0] == '{',
{
    reveal(spec_enc_menu);
    reveal_strlit("{\"price\":");
}

proof fn lemma_enc_menulist_head(x: MenuListV)
    ensures
        spec_enc_menulist(x).len() > 0,
        spec_enc_menulist(x)[0] == '{',
{
    reveal(spec_enc_menulist);
    reveal_strlit("{\"data\":");
}

proof fn lemma_enc_menudata_head(x: MenuDataV)
    ensures
        spec_enc_menudata(x).len() > 0,
        spec_enc_menudata(x)[0] == '{',
{
    reveal(spec_enc_menudata);
    reveal_strlit("{\"name\":");
}

proof fn lemma_enc_restaurant_head(x: RestaurantV)
    ensures
        spec_enc_restaurant(x).len() > 0,
        spec_enc_restaurant(x)[0] == '{',
{
    reveal(spec_enc_restaurant);
    reveal_strlit("{\"id\":");
}

#[verifier::rlimit(100)]
proof fn lemma_rt_price_options(s: Seq<char>, p: PriceOptionsV, i: int)
    requires
        0 <= i,
        i + spec_enc_price_options(p).len() <= s.len(),
        s.subrange(i, i + spec_enc_price_options(p).len() as int) == spec_enc_price_options(p),
    ensures
        spec_parse_price_options(s, i) == Some::<(PriceOptionsV, int)>((p, i + spec_enc_price_options(p).len())),
{
    reveal(spec_parse_price_options);
    let l1 = "{\"student\":"@;
    let e1 = spec_enc_str(p.student);
    let l2 = ",\"normal\":"@;
    let e2 = spec_enc_str(p.normal);
    let l3 = "}"@;
    let enc = spec_enc_price_options(p);
    reveal(spec_enc_price_options);
    assert(enc =~= l1 + (e1 + (l2 + (e2 + (l3)))));
    lemma_subrange_split(s, i, l1, e1 + (l2 + (e2 + (l3))));
    let i1 = i + l1.len() as int;
    lemma_subrange_split(s, i1, e1, l2 + (e2 + (l3)));
    let i2 = i1 + e1.len() as int;
    lemma_subrange_split(s, i2, l2, e2 + (l3));
    let i3 = i2 + l2.len() as int;
    lemma_subrange_split(s, i3, e2, l3);
    let i4 = i3 + e2.len() as int;
    reveal_strlit("{\"student\":");
    reveal_strlit(",\"normal\":");
    reveal_strlit("}");
    reveal_strlit("\"student\"");
    reveal_strlit("student");
    reveal_strlit("\"normal\"");
    reveal_strlit("normal");
    assert(spec_enc_str("student"@) =~= "\"student\""@) by {
        reveal_with_fuel(spec_enc_str_body, 16);
        reveal_strlit("student");
        reveal_strlit("\"student\"");
    }
    assert(spec_enc_str("normal"@) =~= "\"normal\""@) by {
        reveal_with_fuel(spec_enc_str_body, 16);
        reveal_strlit("normal");
        reveal_strlit("\"normal\"");
    }
    // member 1: "student"
    assert(l1 =~= seq!['{'] + ("\"student\""@ + seq![':']));
    lemma_subrange_split(s, i, seq!['{'], "\"student\""@ + seq![':']);
    assert(s.subrange(i, i + 1)[0] == s[i]);
    assert(s[i] == '{');
    lemma_subrange_split(s, i + 1, "\"student\""@, seq![':']);
    assert(s.subrange(i + 1, i + 1 + "\"student\""@.len())[0] == s[i + 1]);
    assert(s[i + 1] == '"');
    assert(s.subrange(i + 1 + "\"student\""@.len(), i + 1 + "\"student\""@.len() + 1)[0] == s[i + 1 + "\"student\""@.len() as int]);
    assert(s[i + 1 + "\"student\""@.len() as int] == ':');
    lemma_rt_str(s, "student"@, i + 1);
    // member 2: "normal"
    assert(l2 =~= seq![','] + ("\"normal\""@ + seq![':']));
    lemma_subrange_split(s, i2, seq![','], "\"normal\""@ + seq![':']);
    assert(s.subrange(i2, i2 + 1)[0] == s[i2]);
    assert(s[i2] == ',');
    lemma_subrange_split(s, i2 + 1, "\"normal\""@, seq![':']);
    assert(s.subrange(i2 + 1, i2 + 1 + "\"normal\""@.len())[0] == s[i2 + 1]);
    assert(s[i2 + 1] == '"');
    assert(s.subrange(i2 + 1 + "\"normal\""@.len(), i2 + 1 + "\"normal\""@.len() + 1)[0] == s[i2 + 1 + "\"normal\""@.len() as int]);
    assert(s[i2 + 1 + "\"normal\""@.len() as int] == ':');
    lemma_rt_str(s, "normal"@, i2 + 1);
    assert(s.subrange(i4, i4 + 1)[0] == s[i4]);
    assert(s[i4] == '}');
    assert(s.subrange(i1, i2)[0] == s[i1]);
    assert(s[i1] == '"');
    lemma_rt_str(s, p.student, i1);
    assert(s.subrange(i3, i4)[0] == s[i3]);
    assert(s[i3] == '"');
    lemma_rt_str(s, p.normal, i3);
    assert(p =~= (PriceOptionsV { student: p.student, normal: p.normal }));
    assert(spec_price_options_members(s, i2 + 1, Some(p.student), None) == Some::<(PriceOptionsV, int)>((p, i4 + 1)));
    assert(spec_price_options_members(s, i + 1, None, None) == Some::<(PriceOptionsV, int)>((p, i4 + 1)));
    assert(i4 + 1 == i + enc.len());
}

#[verifier::rlimit(100)]
proof fn lemma_rt_price(s: Seq<char>, p: PriceV, i: int)
    requires
        0 <= i,
        i + spec_enc_price(p).len() <= s.len(),
        s.subrange(i, i + spec_enc_price(p).len() as int) == spec_enc_price(p),
    ensures
        spec_parse_price(s, i) == Some::<(PriceV, int)>((p, i + spec_enc_price(p).len())),
{
    reveal(spec_parse_price);
    let l1 = "{\"name\":"@;
    let e1 = spec_enc_str(p.name);
    let l2 = ",\"value\":"@;
    let e2 = spec_enc_price_options(p.value);
    let l3 = "}"@;
    let enc = spec_enc_price(p);
    reveal(spec_enc_price);
    assert(enc =~= l1 + (e1 + (l2 + (e2 + (l3)))));
    lemma_subrange_split(s, i, l1, e1 + (l2 + (e2 + (l3))));
    let i1 = i + l1.len() as int;
    lemma_subrange_split(s, i1, e1, l2 + (e2 + (l3)));
    let i2 = i1 + e1.len() as int;
    lemma_subrange_split(s, i2, l2, e2 + (l3));
    let i3 = i2 + l2.len() as int;
    lemma_subrange_split(s, i3, e2, l3);
    let i4 = i3 + e2.len() as int;
    reveal_strlit("{\"name\":");
    reveal_strlit(",\"value\":");
    reveal_strlit("}");
    reveal_strlit("\"name\"");
    reveal_strlit("name");
    reveal_strlit("\"value\"");
    reveal_strlit("value");
    reveal_strlit("{\"student\":");
    assert(spec_enc_str("name"@) =~= "\"name\""@) by {
        reveal_with_fuel(spec_enc_str_body, 16);
        reveal_strlit("name");
        reveal_strlit("\"name\"");
    }
    assert(spec_enc_str("value"@) =~= "\"value\""@) by {
        reveal_with_fuel(spec_enc_str_body, 16);
        reveal_strlit("value");
        reveal_strlit("\"value\"");
    }
    // member 1: "name"
    assert(l1 =~= seq!['{'] + ("\"name\""@ + seq![':']));
    lemma_subrange_split(s, i, seq!['{'], "\"name\""@ + seq![':']);
    assert(s.subrange(i, i + 1)[0] == s[i]);
    assert(s[i] == '{');
    lemma_subrange_split(s, i + 1, "\"name\""@, seq![':']);
    assert(s.subrange(i + 1, i + 1 + "\"name\""@.len())[0] == s[i + 1]);
    assert(s[i + 1] == '"');
    assert(s.subrange(i + 1 + "\"name\""@.len(), i + 1 + "\"name\""@.len() + 1)[0] == s[i + 1 + "\"name\""@.len() as int]);
    assert(s[i + 1 + "\"name\""@.len() as int] == ':');
    lemma_rt_str(s, "name"@, i + 1);
    // member 2: "value"
    assert(l2 =~= seq![','] + ("\"value\""@ + seq![':']));
    lemma_subrange_split(s, i2, seq![','], "\"value\""@ + seq![':']);
    assert(s.subrange(i2, i2 + 1)[0] == s[i2]);
    assert(s[i2] == ',');
    lemma_subrange_split(s, i2 + 1, "\"value\""@, seq![':']);
    assert(s.subrange(i2 + 1, i2 + 1 + "\"value\""@.len())[0] == s[i2 + 1]);
    assert(s[i2 + 1] == '"');
    assert(s.subrange(i2 + 1 + "\"value\""@.len(), i2 + 1 + "\"value\""@.len() + 1)[0] == s[i2 + 1 + "\"value\""@.len() as int]);
    assert(s[i2 + 1 + "\"value\""@.len() as int] == ':');
    lemma_rt_str(s, "value"@, i2 + 1);
    assert(s.subrange(i4, i4 + 1)[0] == s[i4]);
    assert(s[i4] == '}');
    assert(s.subrange(i1, i2)[0] == s[i1]);
    assert(s[i1] == '"');
    lemma_rt_str(s, p.name, i1);
    lemma_enc_price_options_head(p.value);
    assert(s.subrange(i3, i4)[0] == s[i3]);
    assert(e2[0] == '{');
    assert(s[i3] == '{');
    lemma_rt_price_options(s, p.value, i3);
    assert(p =~= (PriceV { name: p.name, value: p.value }));
    assert(spec_price_members(s, i2 + 1, Some(p.name), None) == Some::<(PriceV, int)>((p, i4 + 1)));
    assert(spec_price_members(s, i + 1, None, None) == Some::<(PriceV, int)>((p, i4 + 1)));
    assert(i4 + 1 == i + enc.len());
}

/// Canonical-text walk of `spec_menu_members` from its member 2 on;
/// `p` is where that member's separator and key begin.
#[verifier::rlimit(100)]
proof fn lemma_rt_menu_m2(s: Seq<char>, m: MenuV, i: int, p: int)
    requires
        0 <= i,
        i + spec_enc_menu(m).len() <= s.len(),
        s.subrange(i, i + spec_enc_menu(m).len() as int) == spec_enc_menu(m),
        p == i + "{\"price\":"@.len() + spec_enc_price(m.price).len(),
    ensures
        spec_menu_members(s, p + 1, Some(m.price), None) == Some::<(MenuV, int)>((m, i + spec_enc_menu(m).len())),
{
    let l1 = "{\"price\":"@;
    let e1 = spec_enc_price(m.price);
    let l2 = ",\"name\":"@;
    let e2 = spec_enc_str(m.name);
    let l3 = "}"@;
    let enc = spec_enc_menu(m);
    reveal(spec_enc_menu);
    reveal_strlit("price");
    reveal_strlit("\"price\"");
    reveal_strlit("name");
    reveal_strlit("\"name\"");
    lemma_subrange_split(s, i, l1, e1 + (l2 + (e2 + (l3))));
    let i1 = i + l1.len() as int;
    lemma_subrange_split(s, i1, e1, l2 + (e2 + (l3)));
    let i2 = i1 + e1.len() as int;
    lemma_subrange_split(s, i2, l2, e2 + (l3));
    let i3 = i2 + l2.len() as int;
    lemma_subrange_split(s, i3, e2, l3);
    let i4 = i3 + e2.len() as int;
    assert(p == i2);
    reveal_strlit(",\"name\":");
    assert(l2 =~= seq![','] + ("\"name\""@ + seq![':']));
    lemma_subrange_split(s, i2, seq![','], "\"name\""@ + seq![':']);
    assert(s.subrange(i2, i2 + 1)[0] == s[i2]);
    assert(s[i2] == ',');
    lemma_subrange_split(s, i2 + 1, "\"name\""@, seq![':']);
    assert(s.subrange(i2 + 1, i2 + 1 + "\"name\""@.len())[0] == s[i2 + 1]);
    assert(s[i2 + 1] == '"');
    assert(s.subrange(i2 + 1 + "\"name\""@.len(), i2 + 1 + "\"name\""@.len() + 1)[0] == s[i2 + 1 + "\"name\""@.len() as int]);
    assert(s[i2 + 1 + "\"name\""@.len() as int] == ':');
    assert(spec_enc_str("name"@) =~= "\"name\""@) by {
        reveal_with_fuel(spec_enc_str_body, 16);
        reveal_strlit("name");
        reveal_strlit("\"name\"");
    }
    lemma_rt_str(s, "name"@, i2 + 1);
    reveal_strlit("}");
    assert(s.subrange(i4, i4 + 1)[0] == s[i4]);
    assert(s[i4] == '}');
    assert(s.subrange(i3, i4)[0] == s[i3]);
    assert(s[i3] == '"');
    lemma_rt_str(s, m.name, i3);
    assert(m =~= (MenuV { price: m.price, name: m.name }));
    assert(i4 + 1 == i + enc.len());
    assert("name"@ != "price"@);
    assert(spec_skip_ws(s, i2 + 1) == i2 + 1);
    assert(spec_skip_ws(s, i2 + 1 + "\"name\""@.len()) == i2 + 1 + "\"name\""@.len());
    assert(spec_skip_ws(s, i3) == i3);
    assert(spec_skip_ws(s, i4) == i4);
    assert(spec_menu_members(s, p + 1, Some(m.price), None) == Some::<(MenuV, int)>((m, i + spec_enc_menu(m).len())));
}

/// Canonical-text walk of `spec_menu_members` from its member 1 on;
/// `p` is where that member's separator and key begin.
#[verifier::rlimit(100)]
proof fn lemma_rt_menu_m1(s: Seq<char>, m: MenuV, i: int, p: int)
    requires
        0 <= i,
        i + spec_enc_menu(m).len() <= s.len(),
        s.subrange(i, i + spec_enc_menu(m).len() as int) == spec_enc_menu(m),
        p == i,
    ensures
        spec_menu_members(s, p + 1, None, None) == Some::<(MenuV, int)>((m, i + spec_enc_menu(m).len())),
{
    let l1 = "{\"price\":"@;
    let e1 = spec_enc_price(m.price);
    let l2 = ",\"name\":"@;
    let e2 = spec_enc_str(m.name);
    let l3 = "}"@;
    let enc = spec_enc_menu(m);
    reveal(spec_enc_menu);
    reveal_strlit("price");
    reveal_strlit("\"price\"");
    reveal_strlit("name");
    reveal_strlit("\"name\"");
    lemma_subrange_split(s, i, l1, e1 + (l2 + (e2 + (l3))));
    let i1 = i + l1.len() as int;
    lemma_subrange_split(s, i1, e1, l2 + (e2 + (l3)));
    let i2 = i1 + e1.len() as int;
    lemma_subrange_split(s, i2, l2, e2 + (l3));
    let i3 = i2 + l2.len() as int;
    let i4 = i3 + e2.len() as int;
    assert(p == i);
    reveal_strlit("{\"price\":");
    assert(l1 =~= seq!['{'] + ("\"price\""@ + seq![':']));
    lemma_subrange_split(s, i, seq!['{'], "\"price\""@ + seq![':']);
    assert(s.subrange(i, i + 1)[0] == s[i]);
    assert(s[i] == '{');
    lemma_subrange_split(s, i + 1, "\"price\""@, seq![':']);
    assert(s.subrange(i + 1, i + 1 + "\"price\""@.len())[0] == s[i + 1]);
    assert(s[i + 1] == '"');
    assert(s.subrange(i + 1 + "\"price\""@.len(), i + 1 + "\"price\""@.len() + 1)[0] == s[i + 1 + "\"price\""@.len() as int]);
    assert(s[i + 1 + "\"price\""@.len() as int] == ':');
    assert(spec_enc_str("price"@) =~= "\"price\""@) by {
        reveal_with_fuel(spec_enc_str_body, 16);
        reveal_strlit("price");
        reveal_strlit("\"price\"");
    }
    lemma_rt_str(s, "price"@, i + 1);
    reveal_strlit(",\"name\":");
    assert(l2 =~= seq![','] + ("\"name\""@ + seq![':']));
    lemma_subrange_split(s, i2, seq![','], "\"name\""@ + seq![':']);
    assert(s.subrange(i2, i2 + 1)[0] == s[i2]);
    assert(s[i2] == ',');
    lemma_subrange_split(s, i2 + 1, "\"name\""@, seq![':']);
    assert(s.subrange(i2 + 1, i2 + 1 + "\"name\""@.len())[0] == s[i2 + 1]);
    assert(s[i2 + 1] == '"');
    lemma_enc_price_head(m.price);
    assert(s.subrange(i1, i2)[0] == s[i1]);
    assert(e1[0] == '{');
    assert(s[i1] == '{');
    lemma_rt_price(s, m.price, i1);
    lemma_rt_menu_m2(s, m, i, i2);
    assert(spec_skip_ws(s, i + 1) == i + 1);
    assert(spec_skip_ws(s, i + 1 + "\"price\""@.len()) == i + 1 + "\"price\""@.len());
    assert(spec_skip_ws(s, i1) == i1);
    assert(spec_skip_ws(s, i2) == i2);
    assert(spec_skip_ws(s, i2 + 1) == i2 + 1);
    assert(spec_menu_members(s, p + 1, None, None) == Some::<(MenuV, int)>((m, i + spec_enc_menu(m).len())));
}

#[verifier::rlimit(100)]
proof fn lemma_rt_menu(s: Seq<char>, m: MenuV, i: int)
    requires
        0 <= i,
        i + spec_enc_menu(m).len() <= s.len(),
        s.subrange(i, i + spec_enc_menu(m).len() as int) == spec_enc_menu(m),
    ensures
        spec_parse_menu(s, i) == Some::<(MenuV, int)>((m, i + spec_enc_menu(m).len())),
{
    reveal(spec_parse_menu);
    let l1 = "{\"price\":"@;
    let e1 = spec_enc_price(m.price);
    let l2 = ",\"name\":"@;
    let e2 = spec_enc_str(m.name);
    let l3 = "}"@;
    let enc = spec_enc_menu(m);
    reveal(spec_enc_menu);
    reveal_strlit("price");
    reveal_strlit("\"price\"");
    reveal_strlit("name");
    reveal_strlit("\"name\"");
    lemma_subrange_split(s, i, l1, e1 + (l2 + (e2 + (l3))));
    let i1 = i + l1.len() as int;
    let i2 = i1 + e1.len() as int;
    let i3 = i2 + l2.len() as int;
    let i4 = i3 + e2.len() as int;
    reveal_strlit("{\"price\":");
    assert(l1 =~= seq!['{'] + ("\"price\""@ + seq![':']));
    lemma_subrange_split(s, i, seq!['{'], "\"price\""@ + seq![':']);
    assert(s.subrange(i, i + 1)[0] == s[i]);
    assert(s[i] == '{');
    lemma_subrange_split(s, i + 1, "\"price\""@, seq![':']);
    assert(s.subrange(i + 1, i + 1 + "\"price\""@.len())[0] == s[i + 1]);
    assert(s[i + 1] == '"');
    lemma_rt_menu_m1(s, m, i, i);
    assert(spec_parse_menu(s, i) == Some::<(MenuV, int)>((m, i + enc.len())));
}

#[verifier::rlimit(100)]
proof fn lemma_rt_menu_elems(s: Seq<char>, ms: Seq<MenuV>, i: int)
    requires
        
        ms.len() >= 1,
        0 <= i,
        i + spec_enc_menu_seq(ms).len() + 1 <= s.len(),
        s.subrange(i, i + spec_enc_menu_seq(ms).len() as int) == spec_enc_menu_seq(ms),
        s[i + spec_enc_menu_seq(ms).len() as int] == ']',
    ensures
        spec_parse_menu_elems(s, i) == Some::<(Seq<MenuV>, int)>(
            (ms, i + spec_enc_menu_seq(ms).len() + 1),
        ),
    decreases ms.len(),
{
    reveal(spec_parse_menu_elems);
    reveal_strlit("{\"price\":");
    if ms.len() == 1 {
        lemma_enc_menu_head(ms[0]);
        lemma_rt_menu(s, ms[0], i);
        let j = i + spec_enc_menu(ms[0]).len() as int;
        assert(s[j] == ']');
        assert(seq![ms[0]] =~= ms);
    } else {
        let e0 = spec_enc_menu(ms[0]);
        let rest = spec_enc_menu_seq(ms.drop_first());
        assert(spec_enc_menu_seq(ms) =~= e0 + (seq![','] + rest));
        lemma_subrange_split(s, i, e0, seq![','] + rest);
        lemma_rt_menu(s, ms[0], i);
        let j = i + e0.len() as int;
        lemma_subrange_split(s, j, seq![','], rest);
        assert(s.subrange(j, j + 1)[0] == s[j]);
        assert(s[j] == ',');
        lemma_enc_menu_head(ms[0]);
        lemma_enc_menu_head(ms.drop_first()[0]);
        assert(spec_enc_menu(ms.drop_first()[0])[0] == '{');
        assert(rest[0] == '{');
        assert(s.subrange(j + 1, j + 1 + rest.len())[0] == s[j + 1]);
        assert(s[j + 1] == '{');
        
        lemma_rt_menu_elems(s, ms.drop_first(), j + 1);
        assert(seq![ms[0]] + ms.drop_first() =~= ms);
    }
}

#[verifier::rlimit(100)]
proof fn lemma_rt_menu_arr(s: Seq<char>, ms: Seq<MenuV>, i: int)
    requires
        
        0 <= i,
        i + spec_enc_menu_arr(ms).len() <= s.len(),
        s.subrange(i, i + spec_enc_menu_arr(ms).len() as int) == spec_enc_menu_arr(ms),
    ensures
        spec_parse_menu_arr(s, i) == Some::<(Seq<MenuV>, int)>(
            (ms, i + spec_enc_menu_arr(ms).len()),
        ),
{
    reveal(spec_parse_menu_arr);
    let inner = spec_enc_menu_seq(ms);
    let enc = spec_enc_menu_arr(ms);
    assert(enc =~= seq!['['] + (inner + seq![']']));
    lemma_subrange_split(s, i, seq!['['], inner + seq![']']);
    assert(s.subrange(i, i + 1)[0] == s[i]);
    assert(s[i] == '[');
    lemma_subrange_split(s, i + 1, inner, seq![']']);
    assert(s.subrange(i + 1 + inner.len(), i + 1 + inner.len() + 1)[0] == s[i + 1 + inner.len()]);
    assert(s[i + 1 + inner.len()] == ']');
    if ms.len() == 0 {
        assert(inner.len() == 0);
        assert(s[i + 1] == ']');
        assert(Seq::<MenuV>::empty() =~= ms);
    } else {
        lemma_enc_menu_head(ms[0]);
        assert(spec_enc_menu(ms[0])[0] == '{');
        assert(inner[0] == '{');
        assert(s[i + 1] == inner[0]) by {
            assert(s.subrange(i + 1, i + 1 + inner.len())[0] == s[i + 1]);
        }
        assert(s[i + 1] != ']');
        lemma_rt_menu_elems(s, ms, i + 1);
    }
}

/// Canonical-text walk of `spec_menulist_members` from its member 2 on;
/// `p` is where that member's separator and key begin.
#[verifier::rlimit(100)]
proof fn lemma_rt_menulist_m2(s: Seq<char>, ml: MenuListV, i: int, p: int)
    requires
        0 <= i,
        i + spec_enc_menulist(ml).len() <= s.len(),
        s.subrange(i, i + spec_enc_menulist(ml).len() as int) == spec_enc_menulist(ml),
        p == i + "{\"data\":"@.len() + spec_enc_menu_arr(ml.data).len(),
    ensures
        spec_menulist_members(s, p + 1, Some(ml.data), None) == Some::<(MenuListV, int)>((ml, i + spec_enc_menulist(ml).len())),
{
    let l1 = "{\"data\":"@;
    let e1 = spec_enc_menu_arr(ml.data);
    let l2 = ",\"date\":"@;
    let e2 = spec_enc_str(ml.date);
    let l3 = "}"@;
    let enc = spec_enc_menulist(ml);
    reveal(spec_enc_menulist);
    reveal_strlit("data");
    reveal_strlit("\"data\"");
    reveal_strlit("date");
    reveal_strlit("\"date\"");
    lemma_subrange_split(s, i, l1, e1 + (l2 + (e2 + (l3))));
    let i1 = i + l1.len() as int;
    lemma_subrange_split(s, i1, e1, l2 + (e2 + (l3)));
    let i2 = i1 + e1.len() as int;
    lemma_subrange_split(s, i2, l2, e2 + (l3));
    let i3 = i2 + l2.len() as int;
    lemma_subrange_split(s, i3, e2, l3);
    let i4 = i3 + e2.len() as int;
    assert(p == i2);
    reveal_strlit(",\"date\":");
    assert(l2 =~= seq![','] + ("\"date\""@ + seq![':']));
    lemma_subrange_split(s, i2, seq![','], "\"date\""@ + seq![':']);
    assert(s.subrange(i2, i2 + 1)[0] == s[i2]);
    assert(s[i2] == ',');
    lemma_subrange_split(s, i2 + 1, "\"date\""@, seq![':']);
    assert(s.subrange(i2 + 1, i2 + 1 + "\"date\""@.len())[0] == s[i2 + 1]);
    assert(s[i2 + 1] == '"');
    assert(s.subrange(i2 + 1 + "\"date\""@.len(), i2 + 1 + "\"date\""@.len() + 1)[0] == s[i2 + 1 + "\"date\""@.len() as int]);
    assert(s[i2 + 1 + "\"date\""@.len() as int] == ':');
    assert(spec_enc_str("date"@) =~= "\"date\""@) by {
        reveal_with_fuel(spec_enc_str_body, 16);
        reveal_strlit("date");
        reveal_strlit("\"date\"");
    }
    lemma_rt_str(s, "date"@, i2 + 1);
    reveal_strlit("}");
    assert(s.subrange(i4, i4 + 1)[0] == s[i4]);
    assert(s[i4] == '}');
    assert(s.subrange(i3, i4)[0] == s[i3]);
    assert(s[i3] == '"');
    lemma_rt_str(s, ml.date, i3);
    assert(ml =~= (MenuListV { data: ml.data, date: ml.date }));
    assert(i4 + 1 == i + enc.len());
    assert("date"@ != "data"@);
    assert(spec_skip_ws(s, i2 + 1) == i2 + 1);
    assert(spec_skip_ws(s, i2 + 1 + "\"date\""@.len()) == i2 + 1 + "\"date\""@.len());
    assert(spec_skip_ws(s, i3) == i3);
    assert(spec_skip_ws(s, i4) == i4);
    assert(spec_menulist_members(s, p + 1, Some(ml.data), None) == Some::<(MenuListV, int)>((ml, i + spec_enc_menulist(ml).len())));
}

/// Canonical-text walk of `spec_menulist_members` from its member 1 on;
/// `p` is where that member's separator and key begin.
#[verifier::rlimit(100)]
proof fn lemma_rt_menulist_m1(s: Seq<char>, ml: MenuListV, i: int, p: int)
    requires
        0 <= i,
        i + spec_enc_menulist(ml).len() <= s.len(),
        s.subrange(i, i + spec_enc_menulist(ml).len() as int) == spec_enc_menulist(ml),
        p == i,
    ensures
        spec_menulist_members(s, p + 1, None, None) == Some::<(MenuListV, int)>((ml, i + spec_enc_menulist(ml).len())),
{
    let l1 = "{\"data\":"@;
    let e1 = spec_enc_menu_arr(ml.data);
    let l2 = ",\"date\":"@;
    let e2 = spec_enc_str(ml.date);
    let l3 = "}"@;
    let enc = spec_enc_menulist(ml);
    reveal(spec_enc_menulist);
    reveal_strlit("data");
    reveal_strlit("\"data\"");
    reveal_strlit("date");
    reveal_strlit("\"date\"");
    lemma_subrange_split(s, i, l1, e1 + (l2 + (e2 + (l3))));
    let i1 = i + l1.len() as int;
    lemma_subrange_split(s, i1, e1, l2 + (e2 + (l3)));
    let i2 = i1 + e1.len() as int;
    lemma_subrange_split(s, i2, l2, e2 + (l3));
    let i3 = i2 + l2.len() as int;
    let i4 = i3 + e2.len() as int;
    assert(p == i);
    reveal_strlit("{\"data\":");
    assert(l1 =~= seq!['{'] + ("\"data\""@ + seq![':']));
    lemma_subrange_split(s, i, seq!['{'], "\"data\""@ + seq![':']);
    assert(s.subrange(i, i + 1)[0] == s[i]);
    assert(s[i] == '{');
    lemma_subrange_split(s, i + 1, "\"data\""@, seq![':']);
    assert(s.subrange(i + 1, i + 1 + "\"data\""@.len())[0] == s[i + 1]);
    assert(s[i + 1] == '"');
    assert(s.subrange(i + 1 + "\"data\""@.len(), i + 1 + "\"data\""@.len() + 1)[0] == s[i + 1 + "\"data\""@.len() as int]);
    assert(s[i + 1 + "\"data\""@.len() as int] == ':');
    assert(spec_enc_str("data"@) =~= "\"data\""@) by {
        reveal_with_fuel(spec_enc_str_body, 16);
        reveal_strlit("data");
        reveal_strlit("\"data\"");
    }
    lemma_rt_str(s, "data"@, i + 1);
    reveal_strlit(",\"date\":");
    assert(l2 =~= seq![','] + ("\"date\""@ + seq![':']));
    lemma_subrange_split(s, i2, seq![','], "\"date\""@ + seq![':']);
    assert(s.subrange(i2, i2 + 1)[0] == s[i2]);
    assert(s[i2] == ',');
    lemma_subrange_split(s, i2 + 1, "\"date\""@, seq![':']);
    assert(s.subrange(i2 + 1, i2 + 1 + "\"date\""@.len())[0] == s[i2 + 1]);
    assert(s[i2 + 1] == '"');
    assert(s.subrange(i1, i2)[0] == s[i1]);
    assert(s[i1] == '[');
    lemma_rt_menu_arr(s, ml.data, i1);
    lemma_rt_menulist_m2(s, ml, i, i2);
    assert(spec_skip_ws(s, i + 1) == i + 1);
    assert(spec_skip_ws(s, i + 1 + "\"data\""@.len()) == i + 1 + "\"data\""@.len());
    assert(spec_skip_ws(s, i1) == i1);
    assert(spec_skip_ws(s, i2) == i2);
    assert(spec_skip_ws(s, i2 + 1) == i2 + 1);
    assert(spec_menulist_members(s, p + 1, None, None) == Some::<(MenuListV, int)>((ml, i + spec_enc_menulist(ml).len())));
}

#[verifier::rlimit(100)]
proof fn lemma_rt_menulist(s: Seq<char>, ml: MenuListV, i: int)
    requires
        0 <= i,
        i + spec_enc_menulist(ml).len() <= s.len(),
        s.subrange(i, i + spec_enc_menulist(ml).len() as int) == spec_enc_menulist(ml),
    ensures
        spec_parse_menulist(s, i) == Some::<(MenuListV, int)>((ml, i + spec_enc_menulist(ml).len())),
{
    reveal(spec_parse_menulist);
    let l1 = "{\"data\":"@;
    let e1 = spec_enc_menu_arr(ml.data);
    let l2 = ",\"date\":"@;
    let e2 = spec_enc_str(ml.date);
    let l3 = "}"@;
    let enc = spec_enc_menulist(ml);
    reveal(spec_enc_menulist);
    reveal_strlit("data");
    reveal_strlit("\"data\"");
    reveal_strlit("date");
    reveal_strlit("\"date\"");
    lemma_subrange_split(s, i, l1, e1 + (l2 + (e2 + (l3))));
    let i1 = i + l1.len() as int;
    let i2 = i1 + e1.len() as int;
    let i3 = i2 + l2.len() as int;
    let i4 = i3 + e2.len() as int;
    reveal_strlit("{\"data\":");
    assert(l1 =~= seq!['{'] + ("\"data\""@ + seq![':']));
    lemma_subrange_split(s, i, seq!['{'], "\"data\""@ + seq![':']);
    assert(s.subrange(i, i + 1)[0] == s[i]);
    assert(s[i] == '{');
    lemma_subrange_split(s, i + 1, "\"data\""@, seq![':']);
    assert(s.subrange(i + 1, i + 1 + "\"data\""@.len())[0] == s[i + 1]);
    assert(s[i + 1] == '"');
    lemma_rt_menulist_m1(s, ml, i, i);
    assert(spec_parse_menulist(s, i) == Some::<(MenuListV, int)>((ml, i + enc.len())));
}

#[verifier::rlimit(100)]
proof fn lemma_rt_menulist_elems(s: Seq<char>, ms: Seq<MenuListV>, i: int)
    requires
        
        ms.len() >= 1,
        0 <= i,
        i + spec_enc_menulist_seq(ms).len() + 1 <= s.len(),
        s.subrange(i, i + spec_enc_menulist_seq(ms).len() as int) == spec_enc_menulist_seq(ms),
        s[i + spec_enc_menulist_seq(ms).len() as int] == ']',
    ensures
        spec_parse_menulist_elems(s, i) == Some::<(Seq<MenuListV>, int)>(
            (ms, i + spec_enc_menulist_seq(ms).len() + 1),
        ),
    decreases ms.len(),
{
    reveal(spec_parse_menulist_elems);
    reveal_strlit("{\"data\":");
    if ms.len() == 1 {
        lemma_enc_menulist_head(ms[0]);
        lemma_rt_menulist(s, ms[0], i);
        let j = i + spec_enc_menulist(ms[0]).len() as int;
        assert(s[j] == ']');
        assert(seq![ms[0]] =~= ms);
    } else {
        let e0 = spec_enc_menulist(ms[0]);
        let rest = spec_enc_menulist_seq(ms.drop_first());
        assert(spec_enc_menulist_seq(ms) =~= e0 + (seq![','] + rest));
        lemma_subrange_split(s, i, e0, seq![','] + rest);
        lemma_rt_menulist(s, ms[0], i);
        let j = i + e0.len() as int;
        lemma_subrange_split(s, j, seq![','], rest);
        assert(s.subrange(j, j + 1)[0] == s[j]);
        assert(s[j] == ',');
        lemma_enc_menulist_head(ms[0]);
        lemma_enc_menulist_head(ms.drop_first()[0]);
        assert(spec_enc_menulist(ms.drop_first()[0])[0] == '{');
        assert(rest[0] == '{');
        assert(s.subrange(j + 1, j + 1 + rest.len())[0] == s[j + 1]);
        assert(s[j + 1] == '{');
        
        lemma_rt_menulist_elems(s, ms.drop_first(), j + 1);
        assert(seq![ms[0]] + ms.drop_first() =~= ms);
    }
}

#[verifier::rlimit(100)]
proof fn lemma_rt_menulist_arr(s: Seq<char>, ms: Seq<MenuListV>, i: int)
    requires
        
        0 <= i,
        i + spec_enc_menulist_arr(ms).len() <= s.len(),
        s.subrange(i, i + spec_enc_menulist_arr(ms).len() as int) == spec_enc_menulist_arr(ms),
    ensures
        spec_parse_menulist_arr(s, i) == Some::<(Seq<MenuListV>, int)>(
            (ms, i + spec_enc_menulist_arr(ms).len()),
        ),
{
    reveal(spec_parse_menulist_arr);
    let inner = spec_enc_menulist_seq(ms);
    let enc = spec_enc_menulist_arr(ms);
    assert(enc =~= seq!['['] + (inner + seq![']']));
    lemma_subrange_split(s, i, seq!['['], inner + seq![']']);
    assert(s.subrange(i, i + 1)[0] == s[i]);
    assert(s[i] == '[');
    lemma_subrange_split(s, i + 1, inner, seq![']']);
    assert(s.subrange(i + 1 + inner.len(), i + 1 + inner.len() + 1)[0] == s[i + 1 + inner.len()]);
    assert(s[i + 1 + inner.len()] == ']');
    if ms.len() == 0 {
        assert(inner.len() == 0);
        assert(s[i + 1] == ']');
        assert(Seq::<MenuListV>::empty() =~= ms);
    } else {
        lemma_enc_menulist_head(ms[0]);
        assert(spec_enc_menulist(ms[0])[0] == '{');
        assert(inner[0] == '{');
        assert(s[i + 1] == inner[0]) by {
            assert(s.subrange(i + 1, i + 1 + inner.len())[0] == s[i + 1]);
        }
        assert(s[i + 1] != ']');
        lemma_rt_menulist_elems(s, ms, i + 1);
    }
}

/// Canonical-text walk of `spec_menudata_members` from its member 4 on;
/// `p` is where that member's separator and key begin.
#[verifier::rlimit(100)]
proof fn lemma_rt_menudata_m4(s: Seq<char>, md: MenuDataV, i: int, p: int)
    requires
        i32_bounded(md.id),
        i32_bounded(md.areacode),
        0 <= i,
        i + spec_enc_menudata(md).len() <= s.len(),
        s.subrange(i, i + spec_enc_menudata(md).len() as int) == spec_enc_menudata(md),
        p == i + "{\"name\":"@.len() + spec_enc_str(md.name).len() + ",\"id\":"@.len() + spec_enc_int(md.id).len() + ",\"areacode\":"@.len() + spec_enc_int(md.areacode).len(),
    ensures
        spec_menudata_members(s, p + 1, Some(md.name), Some(md.id), Some(md.areacode), None) == Some::<(MenuDataV, int)>((md, i + spec_enc_menudata(md).len())),
{
    let l1 = "{\"name\":"@;
    let e1 = spec_enc_str(md.name);
    let l2 = ",\"id\":"@;
    let e2 = spec_enc_int(md.id);
    let l3 = ",\"areacode\":"@;
    let e3 = spec_enc_int(md.areacode);
    let l4 = ",\"menus\":"@;
    let e4 = spec_enc_menulist_arr(md.menus);
    let l5 = "}"@;
    let enc = spec_enc_menudata(md);
    reveal(spec_enc_menudata);
    reveal_strlit("name");
    reveal_strlit("\"name\"");
    reveal_strlit("id");
    reveal_strlit("\"id\"");
    reveal_strlit("areacode");
    reveal_strlit("\"areacode\"");
    reveal_strlit("menus");
    reveal_strlit("\"menus\"");
    lemma_subrange_split(s, i, l1, e1 + (l2 + (e2 + (l3 + (e3 + (l4 + (e4 + (l5))))))));
    let i1 = i + l1.len() as int;
    lemma_subrange_split(s, i1, e1, l2 + (e2 + (l3 + (e3 + (l4 + (e4 + (l5)))))));
    let i2 = i1 + e1.len() as int;
    lemma_subrange_split(s, i2, l2, e2 + (l3 + (e3 + (l4 + (e4 + (l5))))));
    let i3 = i2 + l2.len() as int;
    lemma_subrange_split(s, i3, e2, l3 + (e3 + (l4 + (e4 + (l5)))));
    let i4 = i3 + e2.len() as int;
    lemma_subrange_split(s, i4, l3, e3 + (l4 + (e4 + (l5))));
    let i5 = i4 + l3.len() as int;
    lemma_subrange_split(s, i5, e3, l4 + (e4 + (l5)));
    let i6 = i5 + e3.len() as int;
    lemma_subrange_split(s, i6, l4, e4 + (l5));
    let i7 = i6 + l4.len() as int;
    lemma_subrange_split(s, i7, e4, l5);
    let i8 = i7 + e4.len() as int;
    assert(p == i6);
    reveal_strlit(",\"menus\":");
    assert(l4 =~= seq![','] + ("\"menus\""@ + seq![':']));
    lemma_subrange_split(s, i6, seq![','], "\"menus\""@ + seq![':']);
    assert(s.subrange(i6, i6 + 1)[0] == s[i6]);
    assert(s[i6] == ',');
    lemma_subrange_split(s, i6 + 1, "\"menus\""@, seq![':']);
    assert(s.subrange(i6 + 1, i6 + 1 + "\"menus\""@.len())[0] == s[i6 + 1]);
    assert(s[i6 + 1] == '"');
    assert(s.subrange(i6 + 1 + "\"menus\""@.len(), i6 + 1 + "\"menus\""@.len() + 1)[0] == s[i6 + 1 + "\"menus\""@.len() as int]);
    assert(s[i6 + 1 + "\"menus\""@.len() as int] == ':');
    assert(spec_enc_str("menus"@) =~= "\"menus\""@) by {
        reveal_with_fuel(spec_enc_str_body, 16);
        reveal_strlit("menus");
        reveal_strlit("\"menus\"");
    }
    lemma_rt_str(s, "menus"@, i6 + 1);
    reveal_strlit("}");
    assert(s.subrange(i8, i8 + 1)[0] == s[i8]);
    assert(s[i8] == '}');
    assert(s.subrange(i7, i8)[0] == s[i7]);
    assert(s[i7] == '[');
    lemma_rt_menulist_arr(s, md.menus, i7);
    assert(md =~= (MenuDataV { name: md.name, id: md.id, areacode: md.areacode, menus: md.menus }));
    assert(i8 + 1 == i + enc.len());
    assert("menus"@ != "name"@);
    assert("menus"@ != "id"@);
    assert("menus"@ != "areacode"@);
    assert(spec_skip_ws(s, i6 + 1) == i6 + 1);
    assert(spec_skip_ws(s, i6 + 1 + "\"menus\""@.len()) == i6 + 1 + "\"menus\""@.len());
    assert(spec_skip_ws(s, i7) == i7);
    assert(spec_skip_ws(s, i8) == i8);
    assert(spec_menudata_step(s, i7, "menus"@, Some(md.name), Some(md.id), Some(md.areacode), None) == Some::<(Option<Seq<char>>, Option<int>, Option<int>, Option<Seq<MenuListV>>, int)>((Some(md.name), Some(md.id), Some(md.areacode), Some(md.menus), i8)));
    assert(spec_menudata_members(s, p + 1, Some(md.name), Some(md.id), Some(md.areacode), None) == Some::<(MenuDataV, int)>((md, i + spec_enc_menudata(md).len())));
}

/// Canonical-text walk of `spec_menudata_members` from its member 3 on;
/// `p` is where that member's separator and key begin.
#[verifier::rlimit(100)]
proof fn lemma_rt_menudata_m3(s: Seq<char>, md: MenuDataV, i: int, p: int)
    requires
        i32_bounded(md.id),
        i32_bounded(md.areacode),
        0 <= i,
        i + spec_enc_menudata(md).len() <= s.len(),
        s.subrange(i, i + spec_enc_menudata(md).len() as int) == spec_enc_menudata(md),
        p == i + "{\"name\":"@.len() + spec_enc_str(md.name).len() + ",\"id\":"@.len() + spec_enc_int(md.id).len(),
    ensures
        spec_menudata_members(s, p + 1, Some(md.name), Some(md.id), None, None) == Some::<(MenuDataV, int)>((md, i + spec_enc_menudata(md).len())),
{
    let l1 = "{\"name\":"@;
    let e1 = spec_enc_str(md.name);
    let l2 = ",\"id\":"@;
    let e2 = spec_enc_int(md.id);
    let l3 = ",\"areacode\":"@;
    let e3 = spec_enc_int(md.areacode);
    let l4 = ",\"menus\":"@;
    let e4 = spec_enc_menulist_arr(md.menus);
    let l5 = "}"@;
    let enc = spec_enc_menudata(md);
    reveal(spec_enc_menudata);
    reveal_strlit("name");
    reveal_strlit("\"name\"");
    reveal_strlit("id");
    reveal_strlit("\"id\"");
    reveal_strlit("areacode");
    reveal_strlit("\"areacode\"");
    reveal_strlit("menus");
    reveal_strlit("\"menus\"");
    lemma_subrange_split(s, i, l1, e1 + (l2 + (e2 + (l3 + (e3 + (l4 + (e4 + (l5))))))));
    let i1 = i + l1.len() as int;
    lemma_subrange_split(s, i1, e1, l2 + (e2 + (l3 + (e3 + (l4 + (e4 + (l5)))))));
    let i2 = i1 + e1.len() as int;
    lemma_subrange_split(s, i2, l2, e2 + (l3 + (e3 + (l4 + (e4 + (l5))))));
    let i3 = i2 + l2.len() as int;
    lemma_subrange_split(s, i3, e2, l3 + (e3 + (l4 + (e4 + (l5)))));
    let i4 = i3 + e2.len() as int;
    lemma_subrange_split(s, i4, l3, e3 + (l4 + (e4 + (l5))));
    let i5 = i4 + l3.len() as int;
    lemma_subrange_split(s, i5, e3, l4 + (e4 + (l5)));
    let i6 = i5 + e3.len() as int;
    lemma_subrange_split(s, i6, l4, e4 + (l5));
    let i7 = i6 + l4.len() as int;
    let i8 = i7 + e4.len() as int;
    assert(p == i4);
    reveal_strlit(",\"areacode\":");
    assert(l3 =~= seq![','] + ("\"areacode\""@ + seq![':']));
    lemma_subrange_split(s, i4, seq![','], "\"areacode\""@ + seq![':']);
    assert(s.subrange(i4, i4 + 1)[0] == s[i4]);
    assert(s[i4] == ',');
    lemma_subrange_split(s, i4 + 1, "\"areacode\""@, seq![':']);
    assert(s.subrange(i4 + 1, i4 + 1 + "\"areacode\""@.len())[0] == s[i4 + 1]);
    assert(s[i4 + 1] == '"');
    assert(s.subrange(i4 + 1 + "\"areacode\""@.len(), i4 + 1 + "\"areacode\""@.len() + 1)[0] == s[i4 + 1 + "\"areacode\""@.len() as int]);
    assert(s[i4 + 1 + "\"areacode\""@.len() as int] == ':');
    assert(spec_enc_str("areacode"@) =~= "\"areacode\""@) by {
        reveal_with_fuel(spec_enc_str_body, 16);
        reveal_strlit("areacode");
        reveal_strlit("\"areacode\"");
    }
    lemma_rt_str(s, "areacode"@, i4 + 1);
    reveal_strlit(",\"menus\":");
    assert(l4 =~= seq![','] + ("\"menus\""@ + seq![':']));
    lemma_subrange_split(s, i6, seq![','], "\"menus\""@ + seq![':']);
    assert(s.subrange(i6, i6 + 1)[0] == s[i6]);
    assert(s[i6] == ',');
    lemma_subrange_split(s, i6 + 1, "\"menus\""@, seq![':']);
    assert(s.subrange(i6 + 1, i6 + 1 + "\"menus\""@.len())[0] == s[i6 + 1]);
    assert(s[i6 + 1] == '"');
    if md.areacode < 0 {
        lemma_enc_nat_digits((-md.areacode) as nat);
    } else {
        lemma_enc_nat_digits(md.areacode as nat);
    }
    assert(s.subrange(i5, i6)[0] == s[i5]);
    assert(!is_json_ws(s[i5])) by {
        if md.areacode < 0 {
            assert(e3[0] == '-');
        } else {
            assert(is_digit(e3[0]));
        }
    }
    assert(!is_digit(s[i6]));
    lemma_rt_int(s, md.areacode, i5);
    lemma_rt_menudata_m4(s, md, i, i6);
    assert("areacode"@ != "name"@);
    assert("areacode"@ != "id"@);
    assert(spec_skip_ws(s, i4 + 1) == i4 + 1);
    assert(spec_skip_ws(s, i4 + 1 + "\"areacode\""@.len()) == i4 + 1 + "\"areacode\""@.len());
    assert(spec_skip_ws(s, i5) == i5);
    assert(spec_skip_ws(s, i6) == i6);
    assert(spec_skip_ws(s, i6 + 1) == i6 + 1);
    assert(spec_menudata_step(s, i5, "areacode"@, Some(md.name), Some(md.id), None, None) == Some::<(Option<Seq<char>>, Option<int>, Option<int>, Option<Seq<MenuListV>>, int)>((Some(md.name), Some(md.id), Some(md.areacode), None, i6)));
    assert(spec_menudata_members(s, p + 1, Some(md.name), Some(md.id), None, None) == Some::<(MenuDataV, int)>((md, i + spec_enc_menudata(md).len())));
}

/// Canonical-text walk of `spec_menudata_members` from its member 2 on;
/// `p` is where that member's separator and key begin.
#[verifier::rlimit(100)]
proof fn lemma_rt_menudata_m2(s: Seq<char>, md: MenuDataV, i: int, p: int)
    requires
        i32_bounded(md.id),
        i32_bounded(md.areacode),
        0 <= i,
        i + spec_enc_menudata(md).len() <= s.len(),
        s.subrange(i, i + spec_enc_menudata(md).len() as int) == spec_enc_menudata(md),
        p == i + "{\"name\":"@.len() + spec_enc_str(md.name).len(),
    ensures
        spec_menudata_members(s, p + 1, Some(md.name), None, None, None) == Some::<(MenuDataV, int)>((md, i + spec_enc_menudata(md).len())),
{
    let l1 = "{\"name\":"@;
    let e1 = spec_enc_str(md.name);
    let l2 = ",\"id\":"@;
    let e2 = spec_enc_int(md.id);
    let l3 = ",\"areacode\":"@;
    let e3 = spec_enc_int(md.areacode);
    let l4 = ",\"menus\":"@;
    let e4 = spec_enc_menulist_arr(md.menus);
    let l5 = "}"@;
    let enc = spec_enc_menudata(md);
    reveal(spec_enc_menudata);
    reveal_strlit("name");
    reveal_strlit("\"name\"");
    reveal_strlit("id");
    reveal_strlit("\"id\"");
    reveal_strlit("areacode");
    reveal_strlit("\"areacode\"");
    reveal_strlit("menus");
    reveal_strlit("\"menus\"");
    lemma_subrange_split(s, i, l1, e1 + (l2 + (e2 + (l3 + (e3 + (l4 + (e4 + (l5))))))));
    let i1 = i + l1.len() as int;
    lemma_subrange_split(s, i1, e1, l2 + (e2 + (l3 + (e3 + (l4 + (e4 + (l5)))))));
    let i2 = i1 + e1.len() as int;
    lemma_subrange_split(s, i2, l2, e2 + (l3 + (e3 + (l4 + (e4 + (l5))))));
    let i3 = i2 + l2.len() as int;
    lemma_subrange_split(s, i3, e2, l3 + (e3 + (l4 + (e4 + (l5)))));
    let i4 = i3 + e2.len() as int;
    lemma_subrange_split(s, i4, l3, e3 + (l4 + (e4 + (l5))));
    let i5 = i4 + l3.len() as int;
    let i6 = i5 + e3.len() as int;
    let i7 = i6 + l4.len() as int;
    let i8 = i7 + e4.len() as int;
    assert(p == i2);
    reveal_strlit(",\"id\":");
    assert(l2 =~= seq![','] + ("\"id\""@ + seq![':']));
    lemma_subrange_split(s, i2, seq![','], "\"id\""@ + seq![':']);
    assert(s.subrange(i2, i2 + 1)[0] == s[i2]);
    assert(s[i2] == ',');
    lemma_subrange_split(s, i2 + 1, "\"id\""@, seq![':']);
    assert(s.subrange(i2 + 1, i2 + 1 + "\"id\""@.len())[0] == s[i2 + 1]);
    assert(s[i2 + 1] == '"');
    assert(s.subrange(i2 + 1 + "\"id\""@.len(), i2 + 1 + "\"id\""@.len() + 1)[0] == s[i2 + 1 + "\"id\""@.len() as int]);
    assert(s[i2 + 1 + "\"id\""@.len() as int] == ':');
    assert(spec_enc_str("id"@) =~= "\"id\""@) by {
        reveal_with_fuel(spec_enc_str_body, 16);
        reveal_strlit("id");
        reveal_strlit("\"id\"");
    }
    lemma_rt_str(s, "id"@, i2 + 1);
    reveal_strlit(",\"areacode\":");
    assert(l3 =~= seq![','] + ("\"areacode\""@ + seq![':']));
    lemma_subrange_split(s, i4, seq![','], "\"areacode\""@ + seq![':']);
    assert(s.subrange(i4, i4 + 1)[0] == s[i4]);
    assert(s[i4] == ',');
    lemma_subrange_split(s, i4 + 1, "\"areacode\""@, seq![':']);
    assert(s.subrange(i4 + 1, i4 + 1 + "\"areacode\""@.len())[0] == s[i4 + 1]);
    assert(s[i4 + 1] == '"');
    if md.id < 0 {
        lemma_enc_nat_digits((-md.id) as nat);
    } else {
        lemma_enc_nat_digits(md.id as nat);
    }
    assert(s.subrange(i3, i4)[0] == s[i3]);
    assert(!is_json_ws(s[i3])) by {
        if md.id < 0 {
            assert(e2[0] == '-');
        } else {
            assert(is_digit(e2[0]));
        }
    }
    assert(!is_digit(s[i4]));
    lemma_rt_int(s, md.id, i3);
    lemma_rt_menudata_m3(s, md, i, i4);
    assert("id"@ != "name"@);
    assert(spec_skip_ws(s, i2 + 1) == i2 + 1);
    assert(spec_skip_ws(s, i2 + 1 + "\"id\""@.len()) == i2 + 1 + "\"id\""@.len());
    assert(spec_skip_ws(s, i3) == i3);
    assert(spec_skip_ws(s, i4) == i4);
    assert(spec_skip_ws(s, i4 + 1) == i4 + 1);
    assert(spec_menudata_step(s, i3, "id"@, Some(md.name), None, None, None) == Some::<(Option<Seq<char>>, Option<int>, Option<int>, Option<Seq<MenuListV>>, int)>((Some(md.name), Some(md.id), None, None, i4)));
    assert(spec_menudata_members(s, p + 1, Some(md.name), None, None, None) == Some::<(MenuDataV, int)>((md, i + spec_enc_menudata(md).len())));
}

/// Canonical-text walk of `spec_menudata_members` from its member 1 on;
/// `p` is where that member's separator and key begin.
#[verifier::rlimit(100)]
proof fn lemma_rt_menudata_m1(s: Seq<char>, md: MenuDataV, i: int, p: int)
    requires
        i32_bounded(md.id),
        i32_bounded(md.areacode),
        0 <= i,
        i + spec_enc_menudata(md).len() <= s.len(),
        s.subrange(i, i + spec_enc_menudata(md).len() as int) == spec_enc_menudata(md),
        p == i,
    ensures
        spec_menudata_members(s, p + 1, None, None, None, None) == Some::<(MenuDataV, int)>((md, i + spec_enc_menudata(md).len())),
{
    let l1 = "{\"name\":"@;
    let e1 = spec_enc_str(md.name);
    let l2 = ",\"id\":"@;
    let e2 = spec_enc_int(md.id);
    let l3 = ",\"areacode\":"@;
    let e3 = spec_enc_int(md.areacode);
    let l4 = ",\"menus\":"@;
    let e4 = spec_enc_menulist_arr(md.menus);
    let l5 = "}"@;
    let enc = spec_enc_menudata(md);
    reveal(spec_enc_menudata);
    reveal_strlit("name");
    reveal_strlit("\"name\"");
    reveal_strlit("id");
    reveal_strlit("\"id\"");
    reveal_strlit("areacode");
    reveal_strlit("\"areacode\"");
    reveal_strlit("menus");
    reveal_strlit("\"menus\"");
    lemma_subrange_split(s, i, l1, e1 + (l2 + (e2 + (l3 + (e3 + (l4 + (e4 + (l5))))))));
    let i1 = i + l1.len() as int;
    lemma_subrange_split(s, i1, e1, l2 + (e2 + (l3 + (e3 + (l4 + (e4 + (l5)))))));
    let i2 = i1 + e1.len() as int;
    lemma_subrange_split(s, i2, l2, e2 + (l3 + (e3 + (l4 + (e4 + (l5))))));
    let i3 = i2 + l2.len() as int;
    let i4 = i3 + e2.len() as int;
    let i5 = i4 + l3.len() as int;
    let i6 = i5 + e3.len() as int;
    let i7 = i6 + l4.len() as int;
    let i8 = i7 + e4.len() as int;
    assert(p == i);
    reveal_strlit("{\"name\":");
    assert(l1 =~= seq!['{'] + ("\"name\""@ + seq![':']));
    lemma_subrange_split(s, i, seq!['{'], "\"name\""@ + seq![':']);
    assert(s.subrange(i, i + 1)[0] == s[i]);
    assert(s[i] == '{');
    lemma_subrange_split(s, i + 1, "\"name\""@, seq![':']);
    assert(s.subrange(i + 1, i + 1 + "\"name\""@.len())[0] == s[i + 1]);
    assert(s[i + 1] == '"');
    assert(s.subrange(i + 1 + "\"name\""@.len(), i + 1 + "\"name\""@.len() + 1)[0] == s[i + 1 + "\"name\""@.len() as int]);
    assert(s[i + 1 + "\"name\""@.len() as int] == ':');
    assert(spec_enc_str("name"@) =~= "\"name\""@) by {
        reveal_with_fuel(spec_enc_str_body, 16);
        reveal_strlit("name");
        reveal_strlit("\"name\"");
    }
    lemma_rt_str(s, "name"@, i + 1);
    reveal_strlit(",\"id\":");
    assert(l2 =~= seq![','] + ("\"id\""@ + seq![':']));
    lemma_subrange_split(s, i2, seq![','], "\"id\""@ + seq![':']);
    assert(s.subrange(i2, i2 + 1)[0] == s[i2]);
    assert(s[i2] == ',');
    lemma_subrange_split(s, i2 + 1, "\"id\""@, seq![':']);
    assert(s.subrange(i2 + 1, i2 + 1 + "\"id\""@.len())[0] == s[i2 + 1]);
    assert(s[i2 + 1] == '"');
    assert(s.subrange(i1, i2)[0] == s[i1]);
    assert(s[i1] == '"');
    lemma_rt_str(s, md.name, i1);
    lemma_rt_menudata_m2(s, md, i, i2);
    assert(spec_skip_ws(s, i + 1) == i + 1);
    assert(spec_skip_ws(s, i + 1 + "\"name\""@.len()) == i + 1 + "\"name\""@.len());
    assert(spec_skip_ws(s, i1) == i1);
    assert(spec_skip_ws(s, i2) == i2);
    assert(spec_skip_ws(s, i2 + 1) == i2 + 1);
    assert(spec_menudata_step(s, i1, "name"@, None, None, None, None) == Some::<(Option<Seq<char>>, Option<int>, Option<int>, Option<Seq<MenuListV>>, int)>((Some(md.name), None, None, None, i2)));
    assert(spec_menudata_members(s, p + 1, None, None, None, None) == Some::<(MenuDataV, int)>((md, i + spec_enc_menudata(md).len())));
}

#[verifier::rlimit(100)]
proof fn lemma_rt_menudata(s: Seq<char>, md: MenuDataV, i: int)
    requires
        i32_bounded(md.id),
        i32_bounded(md.areacode),
        0 <= i,
        i + spec_enc_menudata(md).len() <= s.len(),
        s.subrange(i, i + spec_enc_menudata(md).len() as int) == spec_enc_menudata(md),
    ensures
        spec_parse_menudata(s, i) == Some::<(MenuDataV, int)>((md, i + spec_enc_menudata(md).len())),
{
    reveal(spec_parse_menudata);
    let l1 = "{\"name\":"@;
    let e1 = spec_enc_str(md.name);
    let l2 = ",\"id\":"@;
    let e2 = spec_enc_int(md.id);
    let l3 = ",\"areacode\":"@;
    let e3 = spec_enc_int(md.areacode);
    let l4 = ",\"menus\":"@;
    let e4 = spec_enc_menulist_arr(md.menus);
    let l5 = "}"@;
    let enc = spec_enc_menudata(md);
    reveal(spec_enc_menudata);
    reveal_strlit("name");
    reveal_strlit("\"name\"");
    reveal_strlit("id");
    reveal_strlit("\"id\"");
    reveal_strlit("areacode");
    reveal_strlit("\"areacode\"");
    reveal_strlit("menus");
    reveal_strlit("\"menus\"");
    lemma_subrange_split(s, i, l1, e1 + (l2 + (e2 + (l3 + (e3 + (l4 + (e4 + (l5))))))));
    let i1 = i + l1.len() as int;
    let i2 = i1 + e1.len() as int;
    let i3 = i2 + l2.len() as int;
    let i4 = i3 + e2.len() as int;
    let i5 = i4 + l3.len() as int;
    let i6 = i5 + e3.len() as int;
    let i7 = i6 + l4.len() as int;
    let i8 = i7 + e4.len() as int;
    reveal_strlit("{\"name\":");
    assert(l1 =~= seq!['{'] + ("\"name\""@ + seq![':']));
    lemma_subrange_split(s, i, seq!['{'], "\"name\""@ + seq![':']);
    assert(s.subrange(i, i + 1)[0] == s[i]);
    assert(s[i] == '{');
    lemma_subrange_split(s, i + 1, "\"name\""@, seq![':']);
    assert(s.subrange(i + 1, i + 1 + "\"name\""@.len())[0] == s[i + 1]);
    assert(s[i + 1] == '"');
    lemma_rt_menudata_m1(s, md, i, i);
    assert(spec_parse_menudata(s, i) == Some::<(MenuDataV, int)>((md, i + enc.len())));
}

/// Canonical-text walk of `spec_restaurant_members` from its member 6 on;
/// `p` is where that member's separator and key begin.
#[verifier::rlimit(100)]
proof fn lemma_rt_restaurant_m6(s: Seq<char>, r: RestaurantV, i: int, p: int)
    requires
        restaurant_wf(r),
        0 <= i,
        i + spec_enc_restaurant(r).len() <= s.len(),
        s.subrange(i, i + spec_enc_restaurant(r).len() as int) == spec_enc_restaurant(r),
        p == i + "{\"id\":"@.len() + spec_enc_int(r.id).len() + ",\"title\":"@.len() + spec_enc_str(r.title).len() + ",\"slug\":"@.len() + spec_enc_str(r.slug).len() + ",\"permalink\":"@.len() + spec_enc_str(r.permalink).len() + ",\"address\":"@.len() + spec_enc_str(r.address).len(),
    ensures
        spec_restaurant_members(s, p + 1, Some(r.id), Some(r.title), Some(r.slug), Some(r.permalink), Some(r.address), None) == Some::<(RestaurantV, int)>((r, i + spec_enc_restaurant(r).len())),
{
    let l1 = "{\"id\":"@;
    let e1 = spec_enc_int(r.id);
    let l2 = ",\"title\":"@;
    let e2 = spec_enc_str(r.title);
    let l3 = ",\"slug\":"@;
    let e3 = spec_enc_str(r.slug);
    let l4 = ",\"permalink\":"@;
    let e4 = spec_enc_str(r.permalink);
    let l5 = ",\"address\":"@;
    let e5 = spec_enc_str(r.address);
    let l6 = ",\"menuData\":"@;
    let e6 = spec_enc_menudata(r.menu_data);
    let l7 = "}"@;
    let enc = spec_enc_restaurant(r);
    reveal(spec_enc_restaurant);
    reveal_strlit("id");
    reveal_strlit("\"id\"");
    reveal_strlit("title");
    reveal_strlit("\"title\"");
    reveal_strlit("slug");
    reveal_strlit("\"slug\"");
    reveal_strlit("permalink");
    reveal_strlit("\"permalink\"");
    reveal_strlit("address");
    reveal_strlit("\"address\"");
    reveal_strlit("menuData");
    reveal_strlit("\"menuData\"");
    lemma_subrange_split(s, i, l1, e1 + (l2 + (e2 + (l3 + (e3 + (l4 + (e4 + (l5 + (e5 + (l6 + (e6 + (l7))))))))))));
    let i1 = i + l1.len() as int;
    lemma_subrange_split(s, i1, e1, l2 + (e2 + (l3 + (e3 + (l4 + (e4 + (l5 + (e5 + (l6 + (e6 + (l7)))))))))));
    let i2 = i1 + e1.len() as int;
    lemma_subrange_split(s, i2, l2, e2 + (l3 + (e3 + (l4 + (e4 + (l5 + (e5 + (l6 + (e6 + (l7))))))))));
    let i3 = i2 + l2.len() as int;
    lemma_subrange_split(s, i3, e2, l3 + (e3 + (l4 + (e4 + (l5 + (e5 + (l6 + (e6 + (l7)))))))));
    let i4 = i3 + e2.len() as int;
    lemma_subrange_split(s, i4, l3, e3 + (l4 + (e4 + (l5 + (e5 + (l6 + (e6 + (l7))))))));
    let i5 = i4 + l3.len() as int;
    lemma_subrange_split(s, i5, e3, l4 + (e4 + (l5 + (e5 + (l6 + (e6 + (l7)))))));
    let i6 = i5 + e3.len() as int;
    lemma_subrange_split(s, i6, l4, e4 + (l5 + (e5 + (l6 + (e6 + (l7))))));
    let i7 = i6 + l4.len() as int;
    lemma_subrange_split(s, i7, e4, l5 + (e5 + (l6 + (e6 + (l7)))));
    let i8 = i7 + e4.len() as int;
    lemma_subrange_split(s, i8, l5, e5 + (l6 + (e6 + (l7))));
    let i9 = i8 + l5.len() as int;
    lemma_subrange_split(s, i9, e5, l6 + (e6 + (l7)));
    let i10 = i9 + e5.len() as int;
    lemma_subrange_split(s, i10, l6, e6 + (l7));
    let i11 = i10 + l6.len() as int;
    lemma_subrange_split(s, i11, e6, l7);
    let i12 = i11 + e6.len() as int;
    assert(p == i10);
    reveal_strlit(",\"menuData\":");
    assert(l6 =~= seq![','] + ("\"menuData\""@ + seq![':']));
    lemma_subrange_split(s, i10, seq![','], "\"menuData\""@ + seq![':']);
    assert(s.subrange(i10, i10 + 1)[0] == s[i10]);
    assert(s[i10] == ',');
    lemma_subrange_split(s, i10 + 1, "\"menuData\""@, seq![':']);
    assert(s.subrange(i10 + 1, i10 + 1 + "\"menuData\""@.len())[0] == s[i10 + 1]);
    assert(s[i10 + 1] == '"');
    assert(s.subrange(i10 + 1 + "\"menuData\""@.len(), i10 + 1 + "\"menuData\""@.len() + 1)[0] == s[i10 + 1 + "\"menuData\""@.len() as int]);
    assert(s[i10 + 1 + "\"menuData\""@.len() as int] == ':');
    assert(spec_enc_str("menuData"@) =~= "\"menuData\""@) by {
        reveal_with_fuel(spec_enc_str_body, 16);
        reveal_strlit("menuData");
        reveal_strlit("\"menuData\"");
    }
    lemma_rt_str(s, "menuData"@, i10 + 1);
    reveal_strlit("}");
    assert(s.subrange(i12, i12 + 1)[0] == s[i12]);
    assert(s[i12] == '}');
    lemma_enc_menudata_head(r.menu_data);
    assert(s.subrange(i11, i12)[0] == s[i11]);
    assert(e6[0] == '{');
    assert(s[i11] == '{');
    lemma_rt_menudata(s, r.menu_data, i11);
    assert(r =~= (RestaurantV { id: r.id, title: r.title, slug: r.slug, permalink: r.permalink, address: r.address, menu_data: r.menu_data }));
    assert(i12 + 1 == i + enc.len());
    assert("menuData"@ != "id"@);
    assert("menuData"@ != "title"@);
    assert("menuData"@ != "slug"@);
    assert("menuData"@ != "permalink"@);
    assert("menuData"@ != "address"@);
    assert(spec_skip_ws(s, i10 + 1) == i10 + 1);
    assert(spec_skip_ws(s, i10 + 1 + "\"menuData\""@.len()) == i10 + 1 + "\"menuData\""@.len());
    assert(spec_skip_ws(s, i11) == i11);
    assert(spec_skip_ws(s, i12) == i12);
    assert(spec_restaurant_step(s, i11, "menuData"@, Some(r.id), Some(r.title), Some(r.slug), Some(r.permalink), Some(r.address), None) == Some::<(Option<int>, Option<Seq<char>>, Option<Seq<char>>, Option<Seq<char>>, Option<Seq<char>>, Option<MenuDataV>, int)>((Some(r.id), Some(r.title), Some(r.slug), Some(r.permalink), Some(r.address), Some(r.menu_data), i12)));
    assert(spec_restaurant_members(s, p + 1, Some(r.id), Some(r.title), Some(r.slug), Some(r.permalink), Some(r.address), None) == Some::<(RestaurantV, int)>((r, i + spec_enc_restaurant(r).len())));
}

/// Canonical-text walk of `spec_restaurant_members` from its member 5 on;
/// `p` is where that member's separator and key begin.
#[verifier::rlimit(100)]
proof fn lemma_rt_restaurant_m5(s: Seq<char>, r: RestaurantV, i: int, p: int)
    requires
        restaurant_wf(r),
        0 <= i,
        i + spec_enc_restaurant(r).len() <= s.len(),
        s.subrange(i, i + spec_enc_restaurant(r).len() as int) == spec_enc_restaurant(r),
        p == i + "{\"id\":"@.len() + spec_enc_int(r.id).len() + ",\"title\":"@.len() + spec_enc_str(r.title).len() + ",\"slug\":"@.len() + spec_enc_str(r.slug).len() + ",\"permalink\":"@.len() + spec_enc_str(r.permalink).len(),
    ensures
        spec_restaurant_members(s, p + 1, Some(r.id), Some(r.title), Some(r.slug), Some(r.permalink), None, None) == Some::<(RestaurantV, int)>((r, i + spec_enc_restaurant(r).len())),
{
    let l1 = "{\"id\":"@;
    let e1 = spec_enc_int(r.id);
    let l2 = ",\"title\":"@;
    let e2 = spec_enc_str(r.title);
    let l3 = ",\"slug\":"@;
    let e3 = spec_enc_str(r.slug);
    let l4 = ",\"permalink\":"@;
    let e4 = spec_enc_str(r.permalink);
    let l5 = ",\"address\":"@;
    let e5 = spec_enc_str(r.address);
    let l6 = ",\"menuData\":"@;
    let e6 = spec_enc_menudata(r.menu_data);
    let l7 = "}"@;
    let enc = spec_enc_restaurant(r);
    reveal(spec_enc_restaurant);
    reveal_strlit("id");
    reveal_strlit("\"id\"");
    reveal_strlit("title");
    reveal_strlit("\"title\"");
    reveal_strlit("slug");
    reveal_strlit("\"slug\"");
    reveal_strlit("permalink");
    reveal_strlit("\"permalink\"");
    reveal_strlit("address");
    reveal_strlit("\"address\"");
    reveal_strlit("menuData");
    reveal_strlit("\"menuData\"");
    lemma_subrange_split(s, i, l1, e1 + (l2 + (e2 + (l3 + (e3 + (l4 + (e4 + (l5 + (e5 + (l6 + (e6 + (l7))))))))))));
    let i1 = i + l1.len() as int;
    lemma_subrange_split(s, i1, e1, l2 + (e2 + (l3 + (e3 + (l4 + (e4 + (l5 + (e5 + (l6 + (e6 + (l7)))))))))));
    let i2 = i1 + e1.len() as int;
    lemma_subrange_split(s, i2, l2, e2 + (l3 + (e3 + (l4 + (e4 + (l5 + (e5 + (l6 + (e6 + (l7))))))))));
    let i3 = i2 + l2.len() as int;
    lemma_subrange_split(s, i3, e2, l3 + (e3 + (l4 + (e4 + (l5 + (e5 + (l6 + (e6 + (l7)))))))));
    let i4 = i3 + e2.len() as int;
    lemma_subrange_split(s, i4, l3, e3 + (l4 + (e4 + (l5 + (e5 + (l6 + (e6 + (l7))))))));
    let i5 = i4 + l3.len() as int;
    lemma_subrange_split(s, i5, e3, l4 + (e4 + (l5 + (e5 + (l6 + (e6 + (l7)))))));
    let i6 = i5 + e3.len() as int;
    lemma_subrange_split(s, i6, l4, e4 + (l5 + (e5 + (l6 + (e6 + (l7))))));
    let i7 = i6 + l4.len() as int;
    lemma_subrange_split(s, i7, e4, l5 + (e5 + (l6 + (e6 + (l7)))));
    let i8 = i7 + e4.len() as int;
    lemma_subrange_split(s, i8, l5, e5 + (l6 + (e6 + (l7))));
    let i9 = i8 + l5.len() as int;
    lemma_subrange_split(s, i9, e5, l6 + (e6 + (l7)));
    let i10 = i9 + e5.len() as int;
    lemma_subrange_split(s, i10, l6, e6 + (l7));
    let i11 = i10 + l6.len() as int;
    let i12 = i11 + e6.len() as int;
    assert(p == i8);
    reveal_strlit(",\"address\":");
    assert(l5 =~= seq![','] + ("\"address\""@ + seq![':']));
    lemma_subrange_split(s, i8, seq![','], "\"address\""@ + seq![':']);
    assert(s.subrange(i8, i8 + 1)[0] == s[i8]);
    assert(s[i8] == ',');
    lemma_subrange_split(s, i8 + 1, "\"address\""@, seq![':']);
    assert(s.subrange(i8 + 1, i8 + 1 + "\"address\""@.len())[0] == s[i8 + 1]);
    assert(s[i8 + 1] == '"');
    assert(s.subrange(i8 + 1 + "\"address\""@.len(), i8 + 1 + "\"address\""@.len() + 1)[0] == s[i8 + 1 + "\"address\""@.len() as int]);
    assert(s[i8 + 1 + "\"address\""@.len() as int] == ':');
    assert(spec_enc_str("address"@) =~= "\"address\""@) by {
        reveal_with_fuel(spec_enc_str_body, 16);
        reveal_strlit("address");
        reveal_strlit("\"address\"");
    }
    lemma_rt_str(s, "address"@, i8 + 1);
    reveal_strlit(",\"menuData\":");
    assert(l6 =~= seq![','] + ("\"menuData\""@ + seq![':']));
    lemma_subrange_split(s, i10, seq![','], "\"menuData\""@ + seq![':']);
    assert(s.subrange(i10, i10 + 1)[0] == s[i10]);
    assert(s[i10] == ',');
    lemma_subrange_split(s, i10 + 1, "\"menuData\""@, seq![':']);
    assert(s.subrange(i10 + 1, i10 + 1 + "\"menuData\""@.len())[0] == s[i10 + 1]);
    assert(s[i10 + 1] == '"');
    assert(s.subrange(i9, i10)[0] == s[i9]);
    assert(s[i9] == '"');
    lemma_rt_str(s, r.address, i9);
    lemma_rt_restaurant_m6(s, r, i, i10);
    assert("address"@ != "id"@);
    assert("address"@ != "title"@);
    assert("address"@ != "slug"@);
    assert("address"@ != "permalink"@);
    assert(spec_skip_ws(s, i8 + 1) == i8 + 1);
    assert(spec_skip_ws(s, i8 + 1 + "\"address\""@.len()) == i8 + 1 + "\"address\""@.len());
    assert(spec_skip_ws(s, i9) == i9);
    assert(spec_skip_ws(s, i10) == i10);
    assert(spec_skip_ws(s, i10 + 1) == i10 + 1);
    assert(spec_restaurant_step(s, i9, "address"@, Some(r.id), Some(r.title), Some(r.slug), Some(r.permalink), None, None) == Some::<(Option<int>, Option<Seq<char>>, Option<Seq<char>>, Option<Seq<char>>, Option<Seq<char>>, Option<MenuDataV>, int)>((Some(r.id), Some(r.title), Some(r.slug), Some(r.permalink), Some(r.address), None, i10)));
    assert(spec_restaurant_members(s, p + 1, Some(r.id), Some(r.title), Some(r.slug), Some(r.permalink), None, None) == Some::<(RestaurantV, int)>((r, i + spec_enc_restaurant(r).len())));
}

/// Canonical-text walk of `spec_restaurant_members` from its member 4 on;
/// `p` is where that member's separator and key begin.
#[verifier::rlimit(100)]
proof fn lemma_rt_restaurant_m4(s: Seq<char>, r: RestaurantV, i: int, p: int)
    requires
        restaurant_wf(r),
        0 <= i,
        i + spec_enc_restaurant(r).len() <= s.len(),
        s.subrange(i, i + spec_enc_restaurant(r).len() as int) == spec_enc_restaurant(r),
        p == i + "{\"id\":"@.len() + spec_enc_int(r.id).len() + ",\"title\":"@.len() + spec_enc_str(r.title).len() + ",\"slug\":"@.len() + spec_enc_str(r.slug).len(),
    ensures
        spec_restaurant_members(s, p + 1, Some(r.id), Some(r.title), Some(r.slug), None, None, None) == Some::<(RestaurantV, int)>((r, i + spec_enc_restaurant(r).len())),
{
    let l1 = "{\"id\":"@;
    let e1 = spec_enc_int(r.id);
    let l2 = ",\"title\":"@;
    let e2 = spec_enc_str(r.title);
    let l3 = ",\"slug\":"@;
    let e3 = spec_enc_str(r.slug);
    let l4 = ",\"permalink\":"@;
    let e4 = spec_enc_str(r.permalink);
    let l5 = ",\"address\":"@;
    let e5 = spec_enc_str(r.address);
    let l6 = ",\"menuData\":"@;
    let e6 = spec_enc_menudata(r.menu_data);
    let l7 = "}"@;
    let enc = spec_enc_restaurant(r);
    reveal(spec_enc_restaurant);
    reveal_strlit("id");
    reveal_strlit("\"id\"");
    reveal_strlit("title");
    reveal_strlit("\"title\"");
    reveal_strlit("slug");
    reveal_strlit("\"slug\"");
    reveal_strlit("permalink");
    reveal_strlit("\"permalink\"");
    reveal_strlit("address");
    reveal_strlit("\"address\"");
    reveal_strlit("menuData");
    reveal_strlit("\"menuData\"");
    lemma_subrange_split(s, i, l1, e1 + (l2 + (e2 + (l3 + (e3 + (l4 + (e4 + (l5 + (e5 + (l6 + (e6 + (l7))))))))))));
    let i1 = i + l1.len() as int;
    lemma_subrange_split(s, i1, e1, l2 + (e2 + (l3 + (e3 + (l4 + (e4 + (l5 + (e5 + (l6 + (e6 + (l7)))))))))));
    let i2 = i1 + e1.len() as int;
    lemma_subrange_split(s, i2, l2, e2 + (l3 + (e3 + (l4 + (e4 + (l5 + (e5 + (l6 + (e6 + (l7))))))))));
    let i3 = i2 + l2.len() as int;
    lemma_subrange_split(s, i3, e2, l3 + (e3 + (l4 + (e4 + (l5 + (e5 + (l6 + (e6 + (l7)))))))));
    let i4 = i3 + e2.len() as int;
    lemma_subrange_split(s, i4, l3, e3 + (l4 + (e4 + (l5 + (e5 + (l6 + (e6 + (l7))))))));
    let i5 = i4 + l3.len() as int;
    lemma_subrange_split(s, i5, e3, l4 + (e4 + (l5 + (e5 + (l6 + (e6 + (l7)))))));
    let i6 = i5 + e3.len() as int;
    lemma_subrange_split(s, i6, l4, e4 + (l5 + (e5 + (l6 + (e6 + (l7))))));
    let i7 = i6 + l4.len() as int;
    lemma_subrange_split(s, i7, e4, l5 + (e5 + (l6 + (e6 + (l7)))));
    let i8 = i7 + e4.len() as int;
    lemma_subrange_split(s, i8, l5, e5 + (l6 + (e6 + (l7))));
    let i9 = i8 + l5.len() as int;
    let i10 = i9 + e5.len() as int;
    let i11 = i10 + l6.len() as int;
    let i12 = i11 + e6.len() as int;
    assert(p == i6);
    reveal_strlit(",\"permalink\":");
    assert(l4 =~= seq![','] + ("\"permalink\""@ + seq![':']));
    lemma_subrange_split(s, i6, seq![','], "\"permalink\""@ + seq![':']);
    assert(s.subrange(i6, i6 + 1)[0] == s[i6]);
    assert(s[i6] == ',');
    lemma_subrange_split(s, i6 + 1, "\"permalink\""@, seq![':']);
    assert(s.subrange(i6 + 1, i6 + 1 + "\"permalink\""@.len())[0] == s[i6 + 1]);
    assert(s[i6 + 1] == '"');
    assert(s.subrange(i6 + 1 + "\"permalink\""@.len(), i6 + 1 + "\"permalink\""@.len() + 1)[0] == s[i6 + 1 + "\"permalink\""@.len() as int]);
    assert(s[i6 + 1 + "\"permalink\""@.len() as int] == ':');
    assert(spec_enc_str("permalink"@) =~= "\"permalink\""@) by {
        reveal_with_fuel(spec_enc_str_body, 16);
        reveal_strlit("permalink");
        reveal_strlit("\"permalink\"");
    }
    lemma_rt_str(s, "permalink"@, i6 + 1);
    reveal_strlit(",\"address\":");
    assert(l5 =~= seq![','] + ("\"address\""@ + seq![':']));
    lemma_subrange_split(s, i8, seq![','], "\"address\""@ + seq![':']);
    assert(s.subrange(i8, i8 + 1)[0] == s[i8]);
    assert(s[i8] == ',');
    lemma_subrange_split(s, i8 + 1, "\"address\""@, seq![':']);
    assert(s.subrange(i8 + 1, i8 + 1 + "\"address\""@.len())[0] == s[i8 + 1]);
    assert(s[i8 + 1] == '"');
    assert(s.subrange(i7, i8)[0] == s[i7]);
    assert(s[i7] == '"');
    lemma_rt_str(s, r.permalink, i7);
    lemma_rt_restaurant_m5(s, r, i, i8);
    assert("permalink"@ != "id"@);
    assert("permalink"@ != "title"@);
    assert("permalink"@ != "slug"@);
    assert(spec_skip_ws(s, i6 + 1) == i6 + 1);
    assert(spec_skip_ws(s, i6 + 1 + "\"permalink\""@.len()) == i6 + 1 + "\"permalink\""@.len());
    assert(spec_skip_ws(s, i7) == i7);
    assert(spec_skip_ws(s, i8) == i8);
    assert(spec_skip_ws(s, i8 + 1) == i8 + 1);
    assert(spec_restaurant_step(s, i7, "permalink"@, Some(r.id), Some(r.title), Some(r.slug), None, None, None) == Some::<(Option<int>, Option<Seq<char>>, Option<Seq<char>>, Option<Seq<char>>, Option<Seq<char>>, Option<MenuDataV>, int)>((Some(r.id), Some(r.title), Some(r.slug), Some(r.permalink), None, None, i8)));
    assert(spec_restaurant_members(s, p + 1, Some(r.id), Some(r.title), Some(r.slug), None, None, None) == Some::<(RestaurantV, int)>((r, i + spec_enc_restaurant(r).len())));
}

/// Canonical-text walk of `spec_restaurant_members` from its member 3 on;
/// `p` is where that member's separator and key begin.
#[verifier::rlimit(100)]
proof fn lemma_rt_restaurant_m3(s: Seq<char>, r: RestaurantV, i: int, p: int)
    requires
        restaurant_wf(r),
        0 <= i,
        i + spec_enc_restaurant(r).len() <= s.len(),
        s.subrange(i, i + spec_enc_restaurant(r).len() as int) == spec_enc_restaurant(r),
        p == i + "{\"id\":"@.len() + spec_enc_int(r.id).len() + ",\"title\":"@.len() + spec_enc_str(r.title).len(),
    ensures
        spec_restaurant_members(s, p + 1, Some(r.id), Some(r.title), None, None, None, None) == Some::<(RestaurantV, int)>((r, i + spec_enc_restaurant(r).len())),
{
    let l1 = "{\"id\":"@;
    let e1 = spec_enc_int(r.id);
    let l2 = ",\"title\":"@;
    let e2 = spec_enc_str(r.title);
    let l3 = ",\"slug\":"@;
    let e3 = spec_enc_str(r.slug);
    let l4 = ",\"permalink\":"@;
    let e4 = spec_enc_str(r.permalink);
    let l5 = ",\"address\":"@;
    let e5 = spec_enc_str(r.address);
    let l6 = ",\"menuData\":"@;
    let e6 = spec_enc_menudata(r.menu_data);
    let l7 = "}"@;
    let enc = spec_enc_restaurant(r);
    reveal(spec_enc_restaurant);
    reveal_strlit("id");
    reveal_strlit("\"id\"");
    reveal_strlit("title");
    reveal_strlit("\"title\"");
    reveal_strlit("slug");
    reveal_strlit("\"slug\"");
    reveal_strlit("permalink");
    reveal_strlit("\"permalink\"");
    reveal_strlit("address");
    reveal_strlit("\"address\"");
    reveal_strlit("menuData");
    reveal_strlit("\"menuData\"");
    lemma_subrange_split(s, i, l1, e1 + (l2 + (e2 + (l3 + (e3 + (l4 + (e4 + (l5 + (e5 + (l6 + (e6 + (l7))))))))))));
    let i1 = i + l1.len() as int;
    lemma_subrange_split(s, i1, e1, l2 + (e2 + (l3 + (e3 + (l4 + (e4 + (l5 + (e5 + (l6 + (e6 + (l7)))))))))));
    let i2 = i1 + e1.len() as int;
    lemma_subrange_split(s, i2, l2, e2 + (l3 + (e3 + (l4 + (e4 + (l5 + (e5 + (l6 + (e6 + (l7))))))))));
    let i3 = i2 + l2.len() as int;
    lemma_subrange_split(s, i3, e2, l3 + (e3 + (l4 + (e4 + (l5 + (e5 + (l6 + (e6 + (l7)))))))));
    let i4 = i3 + e2.len() as int;
    lemma_subrange_split(s, i4, l3, e3 + (l4 + (e4 + (l5 + (e5 + (l6 + (e6 + (l7))))))));
    let i5 = i4 + l3.len() as int;
    lemma_subrange_split(s, i5, e3, l4 + (e4 + (l5 + (e5 + (l6 + (e6 + (l7)))))));
    let i6 = i5 + e3.len() as int;
    lemma_subrange_split(s, i6, l4, e4 + (l5 + (e5 + (l6 + (e6 + (l7))))));
    let i7 = i6 + l4.len() as int;
    let i8 = i7 + e4.len() as int;
    let i9 = i8 + l5.len() as int;
    let i10 = i9 + e5.len() as int;
    let i11 = i10 + l6.len() as int;
    let i12 = i11 + e6.len() as int;
    assert(p == i4);
    reveal_strlit(",\"slug\":");
    assert(l3 =~= seq![','] + ("\"slug\""@ + seq![':']));
    lemma_subrange_split(s, i4, seq![','], "\"slug\""@ + seq![':']);
    assert(s.subrange(i4, i4 + 1)[0] == s[i4]);
    assert(s[i4] == ',');
    lemma_subrange_split(s, i4 + 1, "\"slug\""@, seq![':']);
    assert(s.subrange(i4 + 1, i4 + 1 + "\"slug\""@.len())[0] == s[i4 + 1]);
    assert(s[i4 + 1] == '"');
    assert(s.subrange(i4 + 1 + "\"slug\""@.len(), i4 + 1 + "\"slug\""@.len() + 1)[0] == s[i4 + 1 + "\"slug\""@.len() as int]);
    assert(s[i4 + 1 + "\"slug\""@.len() as int] == ':');
    assert(spec_enc_str("slug"@) =~= "\"slug\""@) by {
        reveal_with_fuel(spec_enc_str_body, 16);
        reveal_strlit("slug");
        reveal_strlit("\"slug\"");
    }
    lemma_rt_str(s, "slug"@, i4 + 1);
    reveal_strlit(",\"permalink\":");
    assert(l4 =~= seq![','] + ("\"permalink\""@ + seq![':']));
    lemma_subrange_split(s, i6, seq![','], "\"permalink\""@ + seq![':']);
    assert(s.subrange(i6, i6 + 1)[0] == s[i6]);
    assert(s[i6] == ',');
    lemma_subrange_split(s, i6 + 1, "\"permalink\""@, seq![':']);
    assert(s.subrange(i6 + 1, i6 + 1 + "\"permalink\""@.len())[0] == s[i6 + 1]);
    assert(s[i6 + 1] == '"');
    assert(s.subrange(i5, i6)[0] == s[i5]);
    assert(s[i5] == '"');
    lemma_rt_str(s, r.slug, i5);
    lemma_rt_restaurant_m4(s, r, i, i6);
    assert("slug"@ != "id"@);
    assert("slug"@ != "title"@);
    assert(spec_skip_ws(s, i4 + 1) == i4 + 1);
    assert(spec_skip_ws(s, i4 + 1 + "\"slug\""@.len()) == i4 + 1 + "\"slug\""@.len());
    assert(spec_skip_ws(s, i5) == i5);
    assert(spec_skip_ws(s, i6) == i6);
    assert(spec_skip_ws(s, i6 + 1) == i6 + 1);
    assert(spec_restaurant_step(s, i5, "slug"@, Some(r.id), Some(r.title), None, None, None, None) == Some::<(Option<int>, Option<Seq<char>>, Option<Seq<char>>, Option<Seq<char>>, Option<Seq<char>>, Option<MenuDataV>, int)>((Some(r.id), Some(r.title), Some(r.slug), None, None, None, i6)));
    assert(spec_restaurant_members(s, p + 1, Some(r.id), Some(r.title), None, None, None, None) == Some::<(RestaurantV, int)>((r, i + spec_enc_restaurant(r).len())));
}

/// Canonical-text walk of `spec_restaurant_members` from its member 2 on;
/// `p` is where that member's separator and key begin.
#[verifier::rlimit(100)]
proof fn lemma_rt_restaurant_m2(s: Seq<char>, r: RestaurantV, i: int, p: int)
    requires
        restaurant_wf(r),
        0 <= i,
        i + spec_enc_restaurant(r).len() <= s.len(),
        s.subrange(i, i + spec_enc_restaurant(r).len() as int) == spec_enc_restaurant(r),
        p == i + "{\"id\":"@.len() + spec_enc_int(r.id).len(),
    ensures
        spec_restaurant_members(s, p + 1, Some(r.id), None, None, None, None, None) == Some::<(RestaurantV, int)>((r, i + spec_enc_restaurant(r).len())),
{
    let l1 = "{\"id\":"@;
    let e1 = spec_enc_int(r.id);
    let l2 = ",\"title\":"@;
    let e2 = spec_enc_str(r.title);
    let l3 = ",\"slug\":"@;
    let e3 = spec_enc_str(r.slug);
    let l4 = ",\"permalink\":"@;
    let e4 = spec_enc_str(r.permalink);
    let l5 = ",\"address\":"@;
    let e5 = spec_enc_str(r.address);
    let l6 = ",\"menuData\":"@;
    let e6 = spec_enc_menudata(r.menu_data);
    let l7 = "}"@;
    let enc = spec_enc_restaurant(r);
    reveal(spec_enc_restaurant);
    reveal_strlit("id");
    reveal_strlit("\"id\"");
    reveal_strlit("title");
    reveal_strlit("\"title\"");
    reveal_strlit("slug");
    reveal_strlit("\"slug\"");
    reveal_strlit("permalink");
    reveal_strlit("\"permalink\"");
    reveal_strlit("address");
    reveal_strlit("\"address\"");
    reveal_strlit("menuData");
    reveal_strlit("\"menuData\"");
    lemma_subrange_split(s, i, l1, e1 + (l2 + (e2 + (l3 + (e3 + (l4 + (e4 + (l5 + (e5 + (l6 + (e6 + (l7))))))))))));
    let i1 = i + l1.len() as int;
    lemma_subrange_split(s, i1, e1, l2 + (e2 + (l3 + (e3 + (l4 + (e4 + (l5 + (e5 + (l6 + (e6 + (l7)))))))))));
    let i2 = i1 + e1.len() as int;
    lemma_subrange_split(s, i2, l2, e2 + (l3 + (e3 + (l4 + (e4 + (l5 + (e5 + (l6 + (e6 + (l7))))))))));
    let i3 = i2 + l2.len() as int;
    lemma_subrange_split(s, i3, e2, l3 + (e3 + (l4 + (e4 + (l5 + (e5 + (l6 + (e6 + (l7)))))))));
    let i4 = i3 + e2.len() as int;
    lemma_subrange_split(s, i4, l3, e3 + (l4 + (e4 + (l5 + (e5 + (l6 + (e6 + (l7))))))));
    let i5 = i4 + l3.len() as int;
    let i6 = i5 + e3.len() as int;
    let i7 = i6 + l4.len() as int;
    let i8 = i7 + e4.len() as int;
    let i9 = i8 + l5.len() as int;
    let i10 = i9 + e5.len() as int;
    let i11 = i10 + l6.len() as int;
    let i12 = i11 + e6.len() as int;
    assert(p == i2);
    reveal_strlit(",\"title\":");
    assert(l2 =~= seq![','] + ("\"title\""@ + seq![':']));
    lemma_subrange_split(s, i2, seq![','], "\"title\""@ + seq![':']);
    assert(s.subrange(i2, i2 + 1)[0] == s[i2]);
    assert(s[i2] == ',');
    lemma_subrange_split(s, i2 + 1, "\"title\""@, seq![':']);
    assert(s.subrange(i2 + 1, i2 + 1 + "\"title\""@.len())[0] == s[i2 + 1]);
    assert(s[i2 + 1] == '"');
    assert(s.subrange(i2 + 1 + "\"title\""@.len(), i2 + 1 + "\"title\""@.len() + 1)[0] == s[i2 + 1 + "\"title\""@.len() as int]);
    assert(s[i2 + 1 + "\"title\""@.len() as int] == ':');
    assert(spec_enc_str("title"@) =~= "\"title\""@) by {
        reveal_with_fuel(spec_enc_str_body, 16);
        reveal_strlit("title");
        reveal_strlit("\"title\"");
    }
    lemma_rt_str(s, "title"@, i2 + 1);
    reveal_strlit(",\"slug\":");
    assert(l3 =~= seq![','] + ("\"slug\""@ + seq![':']));
    lemma_subrange_split(s, i4, seq![','], "\"slug\""@ + seq![':']);
    assert(s.subrange(i4, i4 + 1)[0] == s[i4]);
    assert(s[i4] == ',');
    lemma_subrange_split(s, i4 + 1, "\"slug\""@, seq![':']);
    assert(s.subrange(i4 + 1, i4 + 1 + "\"slug\""@.len())[0] == s[i4 + 1]);
    assert(s[i4 + 1] == '"');
    assert(s.subrange(i3, i4)[0] == s[i3]);
    assert(s[i3] == '"');
    lemma_rt_str(s, r.title, i3);
    lemma_rt_restaurant_m3(s, r, i, i4);
    assert("title"@ != "id"@);
    assert(spec_skip_ws(s, i2 + 1) == i2 + 1);
    assert(spec_skip_ws(s, i2 + 1 + "\"title\""@.len()) == i2 + 1 + "\"title\""@.len());
    assert(spec_skip_ws(s, i3) == i3);
    assert(spec_skip_ws(s, i4) == i4);
    assert(spec_skip_ws(s, i4 + 1) == i4 + 1);
    assert(spec_restaurant_step(s, i3, "title"@, Some(r.id), None, None, None, None, None) == Some::<(Option<int>, Option<Seq<char>>, Option<Seq<char>>, Option<Seq<char>>, Option<Seq<char>>, Option<MenuDataV>, int)>((Some(r.id), Some(r.title), None, None, None, None, i4)));
    assert(spec_restaurant_members(s, p + 1, Some(r.id), None, None, None, None, None) == Some::<(RestaurantV, int)>((r, i + spec_enc_restaurant(r).len())));
}

/// Canonical-text walk of `spec_restaurant_members` from its member 1 on;
/// `p` is where that member's separator and key begin.
#[verifier::rlimit(100)]
proof fn lemma_rt_restaurant_m1(s: Seq<char>, r: RestaurantV, i: int, p: int)
    requires
        restaurant_wf(r),
        0 <= i,
        i + spec_enc_restaurant(r).len() <= s.len(),
        s.subrange(i, i + spec_enc_restaurant(r).len() as int) == spec_enc_restaurant(r),
        p == i,
    ensures
        spec_restaurant_members(s, p + 1, None, None, None, None, None, None) == Some::<(RestaurantV, int)>((r, i + spec_enc_restaurant(r).len())),
{
    let l1 = "{\"id\":"@;
    let e1 = spec_enc_int(r.id);
    let l2 = ",\"title\":"@;
    let e2 = spec_enc_str(r.title);
    let l3 = ",\"slug\":"@;
    let e3 = spec_enc_str(r.slug);
    let l4 = ",\"permalink\":"@;
    let e4 = spec_enc_str(r.permalink);
    let l5 = ",\"address\":"@;
    let e5 = spec_enc_str(r.address);
    let l6 = ",\"menuData\":"@;
    let e6 = spec_enc_menudata(r.menu_data);
    let l7 = "}"@;
    let enc = spec_enc_restaurant(r);
    reveal(spec_enc_restaurant);
    reveal_strlit("id");
    reveal_strlit("\"id\"");
    reveal_strlit("title");
    reveal_strlit("\"title\"");
    reveal_strlit("slug");
    reveal_strlit("\"slug\"");
    reveal_strlit("permalink");
    reveal_strlit("\"permalink\"");
    reveal_strlit("address");
    reveal_strlit("\"address\"");
    reveal_strlit("menuData");
    reveal_strlit("\"menuData\"");
    lemma_subrange_split(s, i, l1, e1 + (l2 + (e2 + (l3 + (e3 + (l4 + (e4 + (l5 + (e5 + (l6 + (e6 + (l7))))))))))));
    let i1 = i + l1.len() as int;
    lemma_subrange_split(s, i1, e1, l2 + (e2 + (l3 + (e3 + (l4 + (e4 + (l5 + (e5 + (l6 + (e6 + (l7)))))))))));
    let i2 = i1 + e1.len() as int;
    lemma_subrange_split(s, i2, l2, e2 + (l3 + (e3 + (l4 + (e4 + (l5 + (e5 + (l6 + (e6 + (l7))))))))));
    let i3 = i2 + l2.len() as int;
    let i4 = i3 + e2.len() as int;
    let i5 = i4 + l3.len() as int;
    let i6 = i5 + e3.len() as int;
    let i7 = i6 + l4.len() as int;
    let i8 = i7 + e4.len() as int;
    let i9 = i8 + l5.len() as int;
    let i10 = i9 + e5.len() as int;
    let i11 = i10 + l6.len() as int;
    let i12 = i11 + e6.len() as int;
    assert(p == i);
    reveal_strlit("{\"id\":");
    assert(l1 =~= seq!['{'] + ("\"id\""@ + seq![':']));
    lemma_subrange_split(s, i, seq!['{'], "\"id\""@ + seq![':']);
    assert(s.subrange(i, i + 1)[0] == s[i]);
    assert(s[i] == '{');
    lemma_subrange_split(s, i + 1, "\"id\""@, seq![':']);
    assert(s.subrange(i + 1, i + 1 + "\"id\""@.len())[0] == s[i + 1]);
    assert(s[i + 1] == '"');
    assert(s.subrange(i + 1 + "\"id\""@.len(), i + 1 + "\"id\""@.len() + 1)[0] == s[i + 1 + "\"id\""@.len() as int]);
    assert(s[i + 1 + "\"id\""@.len() as int] == ':');
    assert(spec_enc_str("id"@) =~= "\"id\""@) by {
        reveal_with_fuel(spec_enc_str_body, 16);
        reveal_strlit("id");
        reveal_strlit("\"id\"");
    }
    lemma_rt_str(s, "id"@, i + 1);
    reveal_strlit(",\"title\":");
    assert(l2 =~= seq![','] + ("\"title\""@ + seq![':']));
    lemma_subrange_split(s, i2, seq![','], "\"title\""@ + seq![':']);
    assert(s.subrange(i2, i2 + 1)[0] == s[i2]);
    assert(s[i2] == ',');
    lemma_subrange_split(s, i2 + 1, "\"title\""@, seq![':']);
    assert(s.subrange(i2 + 1, i2 + 1 + "\"title\""@.len())[0] == s[i2 + 1]);
    assert(s[i2 + 1] == '"');
    if r.id < 0 {
        lemma_enc_nat_digits((-r.id) as nat);
    } else {
        lemma_enc_nat_digits(r.id as nat);
    }
    assert(s.subrange(i1, i2)[0] == s[i1]);
    assert(!is_json_ws(s[i1])) by {
        if r.id < 0 {
            assert(e1[0] == '-');
        } else {
            assert(is_digit(e1[0]));
        }
    }
    assert(!is_digit(s[i2]));
    lemma_rt_int(s, r.id, i1);
    lemma_rt_restaurant_m2(s, r, i, i2);
    assert(spec_skip_ws(s, i + 1) == i + 1);
    assert(spec_skip_ws(s, i + 1 + "\"id\""@.len()) == i + 1 + "\"id\""@.len());
    assert(spec_skip_ws(s, i1) == i1);
    assert(spec_skip_ws(s, i2) == i2);
    assert(spec_skip_ws(s, i2 + 1) == i2 + 1);
    assert(spec_restaurant_step(s, i1, "id"@, None, None, None, None, None, None) == Some::<(Option<int>, Option<Seq<char>>, Option<Seq<char>>, Option<Seq<char>>, Option<Seq<char>>, Option<MenuDataV>, int)>((Some(r.id), None, None, None, None, None, i2)));
    assert(spec_restaurant_members(s, p + 1, None, None, None, None, None, None) == Some::<(RestaurantV, int)>((r, i + spec_enc_restaurant(r).len())));
}

#[verifier::rlimit(100)]
proof fn lemma_rt_restaurant(s: Seq<char>, r: RestaurantV, i: int)
    requires
        restaurant_wf(r),
        0 <= i,
        i + spec_enc_restaurant(r).len() <= s.len(),
        s.subrange(i, i + spec_enc_restaurant(r).len() as int) == spec_enc_restaurant(r),
    ensures
        spec_parse_restaurant(s, i) == Some::<(RestaurantV, int)>((r, i + spec_enc_restaurant(r).len())),
{
    reveal(spec_parse_restaurant);
    let l1 = "{\"id\":"@;
    let e1 = spec_enc_int(r.id);
    let l2 = ",\"title\":"@;
    let e2 = spec_enc_str(r.title);
    let l3 = ",\"slug\":"@;
    let e3 = spec_enc_str(r.slug);
    let l4 = ",\"permalink\":"@;
    let e4 = spec_enc_str(r.permalink);
    let l5 = ",\"address\":"@;
    let e5 = spec_enc_str(r.address);
    let l6 = ",\"menuData\":"@;
    let e6 = spec_enc_menudata(r.menu_data);
    let l7 = "}"@;
    let enc = spec_enc_restaurant(r);
    reveal(spec_enc_restaurant);
    reveal_strlit("id");
    reveal_strlit("\"id\"");
    reveal_strlit("title");
    reveal_strlit("\"title\"");
    reveal_strlit("slug");
    reveal_strlit("\"slug\"");
    reveal_strlit("permalink");
    reveal_strlit("\"permalink\"");
    reveal_strlit("address");
    reveal_strlit("\"address\"");
    reveal_strlit("menuData");
    reveal_strlit("\"menuData\"");
    lemma_subrange_split(s, i, l1, e1 + (l2 + (e2 + (l3 + (e3 + (l4 + (e4 + (l5 + (e5 + (l6 + (e6 + (l7))))))))))));
    let i1 = i + l1.len() as int;
    let i2 = i1 + e1.len() as int;
    let i3 = i2 + l2.len() as int;
    let i4 = i3 + e2.len() as int;
    let i5 = i4 + l3.len() as int;
    let i6 = i5 + e3.len() as int;
    let i7 = i6 + l4.len() as int;
    let i8 = i7 + e4.len() as int;
    let i9 = i8 + l5.len() as int;
    let i10 = i9 + e5.len() as int;
    let i11 = i10 + l6.len() as int;
    let i12 = i11 + e6.len() as int;
    reveal_strlit("{\"id\":");
    assert(l1 =~= seq!['{'] + ("\"id\""@ + seq![':']));
    lemma_subrange_split(s, i, seq!['{'], "\"id\""@ + seq![':']);
    assert(s.subrange(i, i + 1)[0] == s[i]);
    assert(s[i] == '{');
    lemma_subrange_split(s, i + 1, "\"id\""@, seq![':']);
    assert(s.subrange(i + 1, i + 1 + "\"id\""@.len())[0] == s[i + 1]);
    assert(s[i + 1] == '"');
    lemma_rt_restaurant_m1(s, r, i, i);
    assert(spec_parse_restaurant(s, i) == Some::<(RestaurantV, int)>((r, i + enc.len())));
}

#[verifier::rlimit(100)]
proof fn lemma_rt_restaurant_elems(s: Seq<char>, ms: Seq<RestaurantV>, i: int)
    requires
        catalog_wf(ms),
        ms.len() >= 1,
        0 <= i,
        i + spec_enc_restaurant_seq(ms).len() + 1 <= s.len(),
        s.subrange(i, i + spec_enc_restaurant_seq(ms).len() as int) == spec_enc_restaurant_seq(ms),
        s[i + spec_enc_restaurant_seq(ms).len() as int] == ']',
    ensures
        spec_parse_restaurant_elems(s, i) == Some::<(Seq<RestaurantV>, int)>(
            (ms, i + spec_enc_restaurant_seq(ms).len() + 1),
        ),
    decreases ms.len(),
{
    reveal(spec_parse_restaurant_elems);
    reveal_strlit("{\"id\":");
    if ms.len() == 1 {
        lemma_enc_restaurant_head(ms[0]);
        lemma_rt_restaurant(s, ms[0], i);
        let j = i + spec_enc_restaurant(ms[0]).len() as int;
        assert(s[j] == ']');
        assert(seq![ms[0]] =~= ms);
    } else {
        let e0 = spec_enc_restaurant(ms[0]);
        let rest = spec_enc_restaurant_seq(ms.drop_first());
        assert(spec_enc_restaurant_seq(ms) =~= e0 + (seq![','] + rest));
        lemma_subrange_split(s, i, e0, seq![','] + rest);
        lemma_rt_restaurant(s, ms[0], i);
        let j = i + e0.len() as int;
        lemma_subrange_split(s, j, seq![','], rest);
        assert(s.subrange(j, j + 1)[0] == s[j]);
        assert(s[j] == ',');
        lemma_enc_restaurant_head(ms[0]);
        lemma_enc_restaurant_head(ms.drop_first()[0]);
        assert(spec_enc_restaurant(ms.drop_first()[0])[0] == '{');
        assert(rest[0] == '{');
        assert(s.subrange(j + 1, j + 1 + rest.len())[0] == s[j + 1]);
        assert(s[j + 1] == '{');
        assert(catalog_wf(ms.drop_first()));
        lemma_rt_restaurant_elems(s, ms.drop_first(), j + 1);
        assert(seq![ms[0]] + ms.drop_first() =~= ms);
    }
}

#[verifier::rlimit(100)]
proof fn lemma_rt_restaurant_arr(s: Seq<char>, ms: Seq<RestaurantV>, i: int)
    requires
        catalog_wf(ms),
        0 <= i,
        i + spec_enc_catalog(ms).len() <= s.len(),
        s.subrange(i, i + spec_enc_catalog(ms).len() as int) == spec_enc_catalog(ms),
    ensures
        spec_parse_restaurant_arr(s, i) == Some::<(Seq<RestaurantV>, int)>(
            (ms, i + spec_enc_catalog(ms).len()),
        ),
{
    reveal(spec_parse_restaurant_arr);
    let inner = spec_enc_restaurant_seq(ms);
    let enc = spec_enc_catalog(ms);
    assert(enc =~= seq!['['] + (inner + seq![']']));
    lemma_subrange_split(s, i, seq!['['], inner + seq![']']);
    assert(s.subrange(i, i + 1)[0] == s[i]);
    assert(s[i] == '[');
    lemma_subrange_split(s, i + 1, inner, seq![']']);
    assert(s.subrange(i + 1 + inner.len(), i + 1 + inner.len() + 1)[0] == s[i + 1 + inner.len()]);
    assert(s[i + 1 + inner.len()] == ']');
    if ms.len() == 0 {
        assert(inner.len() == 0);
        assert(s[i + 1] == ']');
        assert(Seq::<RestaurantV>::empty() =~= ms);
    } else {
        lemma_enc_restaurant_head(ms[0]);
        assert(spec_enc_restaurant(ms[0])[0] == '{');
        assert(inner[0] == '{');
        assert(s[i + 1] == inner[0]) by {
            assert(s.subrange(i + 1, i + 1 + inner.len())[0] == s[i + 1]);
        }
        assert(s[i + 1] != ']');
        lemma_rt_restaurant_elems(s, ms, i + 1);
    }
}

/// Decoding the canonical encoding of any well-formed catalog gives back
/// exactly that catalog.
pub proof fn lemma_encode_decode_identity(c: Seq<RestaurantV>)
    requires
        catalog_wf(c),
    ensures
        spec_decode_catalog(spec_enc_catalog(c)) == Some(c),
{
    reveal(spec_parse_restaurant_arr);
    let s = spec_enc_catalog(c);
    assert(s.subrange(0, s.len() as int) =~= s);
    assert(s[0] == '[');
    assert(spec_skip_ws(s, 0) == 0);
    lemma_rt_restaurant_arr(s, c, 0);
    assert(spec_parse_catalog(s, 0) == Some::<(Seq<RestaurantV>, int)>((c, s.len() as int)));
    assert(spec_skip_ws(s, s.len() as int) == s.len());
}

/// The view of any in-memory catalog is well-formed: its numeric fields
/// are machine integers.
pub proof fn lemma_catalog_view_wf(catalog: &Vec<Restaurant>)
    ensures
        catalog_wf(catalog.deep_view()),
{
    assert forall|k: int| 0 <= k < catalog.deep_view().len() implies restaurant_wf(
        #[trigger] catalog.deep_view()[k],
    ) by {
        assert(catalog.deep_view()[k] == catalog@[k].deep_view());
    }
}

// ------------------------------------------------------------ exec enc

fn enc_price_options_into(out: &mut Vec<char>, p: &PriceOptions)
    ensures
        final(out)@ == old(out)@ + spec_enc_price_options(p@),
{
    push_lit(out, "{\"student\":");
    enc_str_into(out, p.student.as_str());
    push_lit(out, ",\"normal\":");
    enc_str_into(out, p.normal.as_str());
    push_lit(out, "}");
    proof {
        reveal(spec_enc_price_options);
        assert(out@ =~= old(out)@ + spec_enc_price_options(p@));
    }
}

fn enc_price_into(out: &mut Vec<char>, p: &Price)
    ensures
        final(out)@ == old(out)@ + spec_enc_price(p@),
{
    push_lit(out, "{\"name\":");
    enc_str_into(out, p.name.as_str());
    push_lit(out, ",\"value\":");
    enc_price_options_into(out, &p.value);
    push_lit(out, "}");
    proof {
        reveal(spec_enc_price);
        assert(out@ =~= old(out)@ + spec_enc_price(p@));
    }
}

fn enc_menu_into(out: &mut Vec<char>, m: &Menu)
    ensures
        final(out)@ == old(out)@ + spec_enc_menu(m@),
{
    push_lit(out, "{\"price\":");
    enc_price_into(out, &m.price);
    push_lit(out, ",\"name\":");
    enc_str_into(out, m.name.as_str());
    push_lit(out, "}");
    proof {
        reveal(spec_enc_menu);
        assert(out@ =~= old(out)@ + spec_enc_menu(m@));
    }
}

proof fn lemma_enc_menu_seq_push(ms: Seq<MenuV>, m: MenuV)
    ensures
        spec_enc_menu_seq(ms.push(m)) == if ms.len() == 0 {
            spec_enc_menu(m)
        } else {
            spec_enc_menu_seq(ms) + seq![','] + spec_enc_menu(m)
        },
    decreases ms.len(),
{
    if ms.len() == 0 {
        assert(ms.push(m) =~= seq![m]);
        assert(spec_enc_menu_seq(seq![m]) == spec_enc_menu(m));
    } else {
        assert(ms.push(m).drop_first() =~= ms.drop_first().push(m));
        lemma_enc_menu_seq_push(ms.drop_first(), m);
        assert(ms.push(m)[0] == ms[0]);
        assert(spec_enc_menu_seq(ms.push(m)) =~= if ms.len() == 0 {
            spec_enc_menu(m)
        } else {
            spec_enc_menu_seq(ms) + seq![','] + spec_enc_menu(m)
        });
    }
}

proof fn lemma_enc_menulist_seq_push(ms: Seq<MenuListV>, m: MenuListV)
    ensures
        spec_enc_menulist_seq(ms.push(m)) == if ms.len() == 0 {
            spec_enc_menulist(m)
        } else {
            spec_enc_menulist_seq(ms) + seq![','] + spec_enc_menulist(m)
        },
    decreases ms.len(),
{
    if ms.len() == 0 {
        assert(ms.push(m) =~= seq![m]);
        assert(spec_enc_menulist_seq(seq![m]) == spec_enc_menulist(m));
    } else {
        assert(ms.push(m).drop_first() =~= ms.drop_first().push(m));
        lemma_enc_menulist_seq_push(ms.drop_first(), m);
        assert(ms.push(m)[0] == ms[0]);
        assert(spec_enc_menulist_seq(ms.push(m)) =~= if ms.len() == 0 {
            spec_enc_menulist(m)
        } else {
            spec_enc_menulist_seq(ms) + seq![','] + spec_enc_menulist(m)
        });
    }
}

#[verifier::rlimit(60)]
proof fn lemma_enc_restaurant_seq_push(c: Seq<RestaurantV>, r: RestaurantV)
    ensures
        spec_enc_restaurant_seq(c.push(r)) == if c.len() == 0 {
            spec_enc_restaurant(r)
        } else {
            spec_enc_restaurant_seq(c) + seq![','] + spec_enc_restaurant(r)
        },
    decreases c.len(),
{
    if c.len() == 0 {
        assert(c.push(r) =~= seq![r]);
        assert(spec_enc_restaurant_seq(seq![r]) == spec_enc_restaurant(r));
    } else {
        assert(c.push(r).drop_first() =~= c.drop_first().push(r));
        lemma_enc_restaurant_seq_push(c.drop_first(), r);
        assert(c.push(r)[0] == c[0]);
        assert(spec_enc_restaurant_seq(c.push(r)) =~= if c.len() == 0 {
            spec_enc_restaurant(r)
        } else {
            spec_enc_restaurant_seq(c) + seq![','] + spec_enc_restaurant(r)
        });
    }
}

fn enc_menus_into(out: &mut Vec<char>, items: &Vec<Menu>)
    ensures
        final(out)@ == old(out)@ + spec_enc_menu_arr(items.deep_view()),
{
    let ghost iv = items.deep_view();
    out.push('[');
    let mut k: usize = 0;
    while k < items.len()
        invariant
            iv == items.deep_view(),
            iv.len() == items@.len(),
            k <= items@.len(),
            out@ == old(out)@ + seq!['['] + spec_enc_menu_seq(iv.subrange(0, k as int)),
        decreases items@.len() - k,
    {
        if k > 0 {
            out.push(',');
        }
        enc_menu_into(out, &items[k]);
        proof {
            lemma_enc_menu_seq_push(iv.subrange(0, k as int), iv[k as int]);
            assert(iv.subrange(0, k + 1) =~= iv.subrange(0, k as int).push(iv[k as int]));
            assert(out@ =~= old(out)@ + seq!['['] + spec_enc_menu_seq(iv.subrange(0, k + 1)));
        }
        k = k + 1;
    }
    out.push(']');
    proof {
        assert(iv.subrange(0, iv.len() as int) =~= iv);
        assert(out@ =~= old(out)@ + spec_enc_menu_arr(iv));
    }
}

fn enc_menulist_into(out: &mut Vec<char>, ml: &MenuList)
    ensures
        final(out)@ == old(out)@ + spec_enc_menulist(ml@),
{
    push_lit(out, "{\"data\":");
    enc_menus_into(out, &ml.data);
    push_lit(out, ",\"date\":");
    enc_str_into(out, ml.date.as_str());
    push_lit(out, "}");
    proof {
        reveal(spec_enc_menulist);
        assert(out@ =~= old(out)@ + spec_enc_menulist(ml@));
    }
}

fn enc_menulists_into(out: &mut Vec<char>, items: &Vec<MenuList>)
    ensures
        final(out)@ == old(out)@ + spec_enc_menulist_arr(items.deep_view()),
{
    let ghost iv = items.deep_view();
    out.push('[');
    let mut k: usize = 0;
    while k < items.len()
        invariant
            iv == items.deep_view(),
            iv.len() == items@.len(),
            k <= items@.len(),
            out@ == old(out)@ + seq!['['] + spec_enc_menulist_seq(iv.subrange(0, k as int)),
        decreases items@.len() - k,
    {
        if k > 0 {
            out.push(',');
        }
        enc_menulist_into(out, &items[k]);
        proof {
            lemma_enc_menulist_seq_push(iv.subrange(0, k as int), iv[k as int]);
            assert(iv.subrange(0, k + 1) =~= iv.subrange(0, k as int).push(iv[k as int]));
            assert(out@ =~= old(out)@ + seq!['['] + spec_enc_menulist_seq(
                iv.subrange(0, k + 1),
            ));
        }
        k = k + 1;
    }
    out.push(']');
    proof {
        assert(iv.subrange(0, iv.len() as int) =~= iv);
        assert(out@ =~= old(out)@ + spec_enc_menulist_arr(iv));
    }
}

#[verifier::rlimit(100)]
fn enc_menudata_into(out: &mut Vec<char>, md: &MenuData)
    ensures
        final(out)@ == old(out)@ + spec_enc_menudata(md@),
{
    push_lit(out, "{\"name\":");
    enc_str_into(out, md.name.as_str());
    push_lit(out, ",\"id\":");
    enc_i32_into(out, md.id);
    push_lit(out, ",\"areacode\":");
    enc_i32_into(out, md.areacode);
    push_lit(out, ",\"menus\":");
    enc_menulists_into(out, &md.menus);
    push_lit(out, "}");
    proof {
        reveal(spec_enc_menudata);
        assert(out@ =~= old(out)@ + spec_enc_menudata(md@));
    }
}

#[verifier::rlimit(100)]
fn enc_restaurant_into(out: &mut Vec<char>, r: &Restaurant)
    ensures
        final(out)@ == old(out)@ + spec_enc_restaurant(r@),
{
    push_lit(out, "{\"id\":");
    enc_i32_into(out, r.id);
    push_lit(out, ",\"title\":");
    enc_str_into(out, r.title.as_str());
    push_lit(out, ",\"slug\":");
    enc_str_into(out, r.slug.as_str());
    push_lit(out, ",\"permalink\":");
    enc_str_into(out, r.permalink.as_str());
    push_lit(out, ",\"address\":");
    enc_str_into(out, r.address.as_str());
    push_lit(out, ",\"menuData\":");
    enc_menudata_into(out, &r.menu_data);
    push_lit(out, "}");
    proof {
        reveal(spec_enc_restaurant);
        assert(out@ =~= old(out)@ + spec_enc_restaurant(r@));
    }
}

/// Encodes a whole catalog as its canonical JSON text.
pub fn encode_catalog(catalog: &Vec<Restaurant>) -> (r: String)
    ensures
        r@ == spec_enc_catalog(catalog.deep_view()),
{
    let ghost iv = catalog.deep_view();
    let mut out: Vec<char> = Vec::new();
    out.push('[');
    let mut k: usize = 0;
    while k < catalog.len()
        invariant
            iv == catalog.deep_view(),
            iv.len() == catalog@.len(),
            k <= catalog@.len(),
            out@ == seq!['['] + spec_enc_restaurant_seq(iv.subrange(0, k as int)),
        decreases catalog@.len() - k,
    {
        if k > 0 {
            out.push(',');
        }
        enc_restaurant_into(&mut out, &catalog[k]);
        proof {
            lemma_enc_restaurant_seq_push(iv.subrange(0, k as int), iv[k as int]);
            assert(iv.subrange(0, k + 1) =~= iv.subrange(0, k as int).push(iv[k as int]));
            assert(out@ =~= seq!['['] + spec_enc_restaurant_seq(iv.subrange(0, k + 1)));
        }
        k = k + 1;
    }
    out.push(']');
    proof {
        assert(iv.subrange(0, iv.len() as int) =~= iv);
        assert(out@ =~= spec_enc_catalog(iv));
    }
    string_from_chars(&out)
}

// ------------------------------------------------------------ exec parse

fn price_options_members(s: &Vec<char>, i: usize, f1: Option<String>, f2: Option<String>) -> (r: Option<(PriceOptions, usize)>)
    requires
        i <= s@.len(),
    ensures
        match r {
            Some(p) => spec_price_options_members(s@, i as int, opt_chars(f1), opt_chars(f2)) == Some((p.0@, p.1 as int)) && i < p.1
                <= s@.len(),
            None => spec_price_options_members(s@, i as int, opt_chars(f1), opt_chars(f2)) is None,
        },
    decreases s@.len() - i,
{
    proof {
        reveal(spec_skip_unknown);
    }
    if i >= s.len() {
        return None;
    }
    let (key, j0) = match parse_string(s, i) {
        Some(p) => p,
        None => {
            return None;
        },
    };
    proof {
        assert(past(i as int, j0 as int, s@.len() as int) == j0 as int);
    }
    let j2 = skip_ws(s, j0);
    proof {
        assert(at_least(j0 as int, spec_skip_ws(s@, j0 as int), s@.len() as int) == j2 as int);
    }
    if j2 < s.len() && s[j2] == ':' {
        let v = skip_ws(s, j2 + 1);
        proof {
            assert(at_least(j2 + 1, spec_skip_ws(s@, j2 + 1), s@.len() as int) == v as int);
        }
        let step: Option<(Option<String>, Option<String>, usize)> = if str_eq(key.as_str(), "student") {
            if f1.is_some() {
                None
            } else {
                match parse_string(s, v) {
                    Some((t, k)) => Some((Some(t), f2, k)),
                    None => None,
                }
            }
        } else if str_eq(key.as_str(), "normal") {
            if f2.is_some() {
                None
            } else {
                match parse_string(s, v) {
                    Some((t, k)) => Some((f1, Some(t), k)),
                    None => None,
                }
            }
        } else {
            match skip_value(s, v) {
                Some(k) => Some((f1, f2, k)),
                None => None,
            }
        };
        match step {
            None => None,
            Some((g1, g2, k0)) => {
                proof {
                    assert(past(v as int, k0 as int, s@.len() as int) == k0 as int);
                }
                let k2 = skip_ws(s, k0);
                proof {
                    assert(at_least(k0 as int, spec_skip_ws(s@, k0 as int), s@.len() as int) == k2
                        as int);
                }
                if k2 < s.len() && s[k2] == ',' {
                    let m2 = skip_ws(s, k2 + 1);
                    proof {
                        assert(at_least(k2 + 1, spec_skip_ws(s@, k2 + 1), s@.len() as int) == m2
                            as int);
                    }
                    price_options_members(s, m2, g1, g2)
                } else if k2 < s.len() && s[k2] == '}' {
                    match (g1, g2) {
                        (Some(a1), Some(a2)) => Some((PriceOptions { student: a1, normal: a2 }, k2 + 1)),
                        _ => None,
                    }
                } else {
                    None
                }
            },
        }
    } else {
        None
    }
}

fn parse_price_options(s: &Vec<char>, i: usize) -> (r: Option<(PriceOptions, usize)>)
    requires
        i <= s@.len(),
    ensures
        match r {
            Some(p) => spec_parse_price_options(s@, i as int) == Some((p.0@, p.1 as int)) && i < p.1
                <= s@.len(),
            None => spec_parse_price_options(s@, i as int) is None,
        },
{
    proof {
        reveal(spec_parse_price_options);
    }
    if i < s.len() && s[i] == '{' {
        let j = skip_ws(s, i + 1);
        price_options_members(s, j, None, None)
    } else {
        None
    }
}

fn price_members(s: &Vec<char>, i: usize, f1: Option<String>, f2: Option<PriceOptions>) -> (r: Option<(Price, usize)>)
    requires
        i <= s@.len(),
    ensures
        match r {
            Some(p) => spec_price_members(s@, i as int, opt_chars(f1), opt_po(f2)) == Some((p.0@, p.1 as int)) && i < p.1
                <= s@.len(),
            None => spec_price_members(s@, i as int, opt_chars(f1), opt_po(f2)) is None,
        },
    decreases s@.len() - i,
{
    proof {
        reveal(spec_skip_unknown);
    }
    if i >= s.len() {
        return None;
    }
    let (key, j0) = match parse_string(s, i) {
        Some(p) => p,
        None => {
            return None;
        },
    };
    proof {
        assert(past(i as int, j0 as int, s@.len() as int) == j0 as int);
    }
    let j2 = skip_ws(s, j0);
    proof {
        assert(at_least(j0 as int, spec_skip_ws(s@, j0 as int), s@.len() as int) == j2 as int);
    }
    if j2 < s.len() && s[j2] == ':' {
        let v = skip_ws(s, j2 + 1);
        proof {
            assert(at_least(j2 + 1, spec_skip_ws(s@, j2 + 1), s@.len() as int) == v as int);
        }
        let step: Option<(Option<String>, Option<PriceOptions>, usize)> = if str_eq(key.as_str(), "name") {
            if f1.is_some() {
                None
            } else {
                match parse_string(s, v) {
                    Some((t, k)) => Some((Some(t), f2, k)),
                    None => None,
                }
            }
        } else if str_eq(key.as_str(), "value") {
            if f2.is_some() {
                None
            } else {
                match parse_price_options(s, v) {
                    Some((t, k)) => Some((f1, Some(t), k)),
                    None => None,
                }
            }
        } else {
            match skip_value(s, v) {
                Some(k) => Some((f1, f2, k)),
                None => None,
            }
        };
        match step {
            None => None,
            Some((g1, g2, k0)) => {
                proof {
                    assert(past(v as int, k0 as int, s@.len() as int) == k0 as int);
                }
                let k2 = skip_ws(s, k0);
                proof {
                    assert(at_least(k0 as int, spec_skip_ws(s@, k0 as int), s@.len() as int) == k2
                        as int);
                }
                if k2 < s.len() && s[k2] == ',' {
                    let m2 = skip_ws(s, k2 + 1);
                    proof {
                        assert(at_least(k2 + 1, spec_skip_ws(s@, k2 + 1), s@.len() as int) == m2
                            as int);
                    }
                    price_members(s, m2, g1, g2)
                } else if k2 < s.len() && s[k2] == '}' {
                    match (g1, g2) {
                        (Some(a1), Some(a2)) => Some((Price { name: a1, value: a2 }, k2 + 1)),
                        _ => None,
                    }
                } else {
                    None
                }
            },
        }
    } else {
        None
    }
}

fn parse_price(s: &Vec<char>, i: usize) -> (r: Option<(Price, usize)>)
    requires
        i <= s@.len(),
    ensures
        match r {
            Some(p) => spec_parse_price(s@, i as int) == Some((p.0@, p.1 as int)) && i < p.1
                <= s@.len(),
            None => spec_parse_price(s@, i as int) is None,
        },
{
    proof {
        reveal(spec_parse_price);
    }
    if i < s.len() && s[i] == '{' {
        let j = skip_ws(s, i + 1);
        price_members(s, j, None, None)
    } else {
        None
    }
}

fn menu_members(s: &Vec<char>, i: usize, f1: Option<Price>, f2: Option<String>) -> (r: Option<(Menu, usize)>)
    requires
        i <= s@.len(),
    ensures
        match r {
            Some(p) => spec_menu_members(s@, i as int, opt_price(f1), opt_chars(f2)) == Some((p.0@, p.1 as int)) && i < p.1
                <= s@.len(),
            None => spec_menu_members(s@, i as int, opt_price(f1), opt_chars(f2)) is None,
        },
    decreases s@.len() - i,
{
    proof {
        reveal(spec_skip_unknown);
    }
    if i >= s.len() {
        return None;
    }
    let (key, j0) = match parse_string(s, i) {
        Some(p) => p,
        None => {
            return None;
        },
    };
    proof {
        assert(past(i as int, j0 as int, s@.len() as int) == j0 as int);
    }
    let j2 = skip_ws(s, j0);
    proof {
        assert(at_least(j0 as int, spec_skip_ws(s@, j0 as int), s@.len() as int) == j2 as int);
    }
    if j2 < s.len() && s[j2] == ':' {
        let v = skip_ws(s, j2 + 1);
        proof {
            assert(at_least(j2 + 1, spec_skip_ws(s@, j2 + 1), s@.len() as int) == v as int);
        }
        let step: Option<(Option<Price>, Option<String>, usize)> = if str_eq(key.as_str(), "price") {
            if f1.is_some() {
                None
            } else {
                match parse_price(s, v) {
                    Some((t, k)) => Some((Some(t), f2, k)),
                    None => None,
                }
            }
        } else if str_eq(key.as_str(), "name") {
            if f2.is_some() {
                None
            } else {
                match parse_string(s, v) {
                    Some((t, k)) => Some((f1, Some(t), k)),
                    None => None,
                }
            }
        } else {
            match skip_value(s, v) {
                Some(k) => Some((f1, f2, k)),
                None => None,
            }
        };
        match step {
            None => None,
            Some((g1, g2, k0)) => {
                proof {
                    assert(past(v as int, k0 as int, s@.len() as int) == k0 as int);
                }
                let k2 = skip_ws(s, k0);
                proof {
                    assert(at_least(k0 as int, spec_skip_ws(s@, k0 as int), s@.len() as int) == k2
                        as int);
                }
                if k2 < s.len() && s[k2] == ',' {
                    let m2 = skip_ws(s, k2 + 1);
                    proof {
                        assert(at_least(k2 + 1, spec_skip_ws(s@, k2 + 1), s@.len() as int) == m2
                            as int);
                    }
                    menu_members(s, m2, g1, g2)
                } else if k2 < s.len() && s[k2] == '}' {
                    match (g1, g2) {
                        (Some(a1), Some(a2)) => Some((Menu { price: a1, name: a2 }, k2 + 1)),
                        _ => None,
                    }
                } else {
                    None
                }
            },
        }
    } else {
        None
    }
}

fn parse_menu(s: &Vec<char>, i: usize) -> (r: Option<(Menu, usize)>)
    requires
        i <= s@.len(),
    ensures
        match r {
            Some(p) => spec_parse_menu(s@, i as int) == Some((p.0@, p.1 as int)) && i < p.1
                <= s@.len(),
            None => spec_parse_menu(s@, i as int) is None,
        },
{
    proof {
        reveal(spec_parse_menu);
    }
    if i < s.len() && s[i] == '{' {
        let j = skip_ws(s, i + 1);
        menu_members(s, j, None, None)
    } else {
        None
    }
}

fn parse_menu_elems(s: &Vec<char>, i: usize) -> (r: Option<(Vec<Menu>, usize)>)
    requires
        i <= s@.len(),
    ensures
        match r {
            Some(p) => spec_parse_menu_elems(s@, i as int) == Some((p.0.deep_view(), p.1 as int))
                && i < p.1 <= s@.len(),
            None => spec_parse_menu_elems(s@, i as int) is None,
        },
    decreases s@.len() - i,
{
    proof {
        reveal(spec_parse_menu_elems);
    }
    if i >= s.len() {
        return None;
    }
    match parse_menu(s, i) {
        None => None,
        Some((m, j0)) => {
            proof {
                assert(past(i as int, j0 as int, s@.len() as int) == j0 as int);
            }
            let j2 = skip_ws(s, j0);
            proof {
                assert(at_least(j0 as int, spec_skip_ws(s@, j0 as int), s@.len() as int) == j2
                    as int);
            }
            if j2 < s.len() && s[j2] == ',' {
                let nx = skip_ws(s, j2 + 1);
                proof {
                    assert(at_least(j2 + 1, spec_skip_ws(s@, j2 + 1), s@.len() as int) == nx
                        as int);
                }
                match parse_menu_elems(s, nx) {
                    Some((mut v, k)) => {
                        let ghost v0 = v.deep_view();
                        v.insert(0, m);
                        proof {
                            assert(v.deep_view() =~= seq![m@] + v0);
                        }
                        Some((v, k))
                    },
                    None => None,
                }
            } else if j2 < s.len() && s[j2] == ']' {
                let mut v: Vec<Menu> = Vec::new();
                v.push(m);
                proof {
                    assert(v.deep_view() =~= seq![m@]);
                }
                Some((v, j2 + 1))
            } else {
                None
            }
        },
    }
}

fn parse_menu_arr(s: &Vec<char>, i: usize) -> (r: Option<(Vec<Menu>, usize)>)
    requires
        i <= s@.len(),
    ensures
        match r {
            Some(p) => spec_parse_menu_arr(s@, i as int) == Some((p.0.deep_view(), p.1 as int)) && i
                < p.1 <= s@.len(),
            None => spec_parse_menu_arr(s@, i as int) is None,
        },
{
    proof {
        reveal(spec_parse_menu_arr);
    }
    if i < s.len() && s[i] == '[' {
        let j = skip_ws(s, i + 1);
        if j < s.len() && s[j] == ']' {
            let v: Vec<Menu> = Vec::new();
            proof {
                assert(v.deep_view() =~= Seq::<MenuV>::empty());
            }
            Some((v, j + 1))
        } else {
            parse_menu_elems(s, j)
        }
    } else {
        None
    }
}

fn menulist_members(s: &Vec<char>, i: usize, f1: Option<Vec<Menu>>, f2: Option<String>) -> (r: Option<(MenuList, usize)>)
    requires
        i <= s@.len(),
    ensures
        match r {
            Some(p) => spec_menulist_members(s@, i as int, opt_menus(f1), opt_chars(f2)) == Some((p.0@, p.1 as int)) && i < p.1
                <= s@.len(),
            None => spec_menulist_members(s@, i as int, opt_menus(f1), opt_chars(f2)) is None,
        },
    decreases s@.len() - i,
{
    proof {
        reveal(spec_skip_unknown);
    }
    if i >= s.len() {
        return None;
    }
    let (key, j0) = match parse_string(s, i) {
        Some(p) => p,
        None => {
            return None;
        },
    };
    proof {
        assert(past(i as int, j0 as int, s@.len() as int) == j0 as int);
    }
    let j2 = skip_ws(s, j0);
    proof {
        assert(at_least(j0 as int, spec_skip_ws(s@, j0 as int), s@.len() as int) == j2 as int);
    }
    if j2 < s.len() && s[j2] == ':' {
        let v = skip_ws(s, j2 + 1);
        proof {
            assert(at_least(j2 + 1, spec_skip_ws(s@, j2 + 1), s@.len() as int) == v as int);
        }
        let step: Option<(Option<Vec<Menu>>, Option<String>, usize)> = if str_eq(key.as_str(), "data") {
            if f1.is_some() {
                None
            } else {
                match parse_menu_arr(s, v) {
                    Some((t, k)) => Some((Some(t), f2, k)),
                    None => None,
                }
            }
        } else if str_eq(key.as_str(), "date") {
            if f2.is_some() {
                None
            } else {
                match parse_string(s, v) {
                    Some((t, k)) => Some((f1, Some(t), k)),
                    None => None,
                }
            }
        } else {
            match skip_value(s, v) {
                Some(k) => Some((f1, f2, k)),
                None => None,
            }
        };
        match step {
            None => None,
            Some((g1, g2, k0)) => {
                proof {
                    assert(past(v as int, k0 as int, s@.len() as int) == k0 as int);
                }
                let k2 = skip_ws(s, k0);
                proof {
                    assert(at_least(k0 as int, spec_skip_ws(s@, k0 as int), s@.len() as int) == k2
                        as int);
                }
                if k2 < s.len() && s[k2] == ',' {
                    let m2 = skip_ws(s, k2 + 1);
                    proof {
                        assert(at_least(k2 + 1, spec_skip_ws(s@, k2 + 1), s@.len() as int) == m2
                            as int);
                    }
                    menulist_members(s, m2, g1, g2)
                } else if k2 < s.len() && s[k2] == '}' {
                    match (g1, g2) {
                        (Some(a1), Some(a2)) => Some((MenuList { data: a1, date: a2 }, k2 + 1)),
                        _ => None,
                    }
                } else {
                    None
                }
            },
        }
    } else {
        None
    }
}

fn parse_menulist(s: &Vec<char>, i: usize) -> (r: Option<(MenuList, usize)>)
    requires
        i <= s@.len(),
    ensures
        match r {
            Some(p) => spec_parse_menulist(s@, i as int) == Some((p.0@, p.1 as int)) && i < p.1
                <= s@.len(),
            None => spec_parse_menulist(s@, i as int) is None,
        },
{
    proof {
        reveal(spec_parse_menulist);
    }
    if i < s.len() && s[i] == '{' {
        let j = skip_ws(s, i + 1);
        menulist_members(s, j, None, None)
    } else {
        None
    }
}

fn parse_menulist_elems(s: &Vec<char>, i: usize) -> (r: Option<(Vec<MenuList>, usize)>)
    requires
        i <= s@.len(),
    ensures
        match r {
            Some(p) => spec_parse_menulist_elems(s@, i as int) == Some((p.0.deep_view(), p.1 as int))
                && i < p.1 <= s@.len(),
            None => spec_parse_menulist_elems(s@, i as int) is None,
        },
    decreases s@.len() - i,
{
    proof {
        reveal(spec_parse_menulist_elems);
    }
    if i >= s.len() {
        return None;
    }
    match parse_menulist(s, i) {
        None => None,
        Some((m, j0)) => {
            proof {
                assert(past(i as int, j0 as int, s@.len() as int) == j0 as int);
            }
            let j2 = skip_ws(s, j0);
            proof {
                assert(at_least(j0 as int, spec_skip_ws(s@, j0 as int), s@.len() as int) == j2
                    as int);
            }
            if j2 < s.len() && s[j2] == ',' {
                let nx = skip_ws(s, j2 + 1);
                proof {
                    assert(at_least(j2 + 1, spec_skip_ws(s@, j2 + 1), s@.len() as int) == nx
                        as int);
                }
                match parse_menulist_elems(s, nx) {
                    Some((mut v, k)) => {
                        let ghost v0 = v.deep_view();
                        v.insert(0, m);
                        proof {
                            assert(v.deep_view() =~= seq![m@] + v0);
                        }
                        Some((v, k))
                    },
                    None => None,
                }
            } else if j2 < s.len() && s[j2] == ']' {
                let mut v: Vec<MenuList> = Vec::new();
                v.push(m);
                proof {
                    assert(v.deep_view() =~= seq![m@]);
                }
                Some((v, j2 + 1))
            } else {
                None
            }
        },
    }
}

fn parse_menulist_arr(s: &Vec<char>, i: usize) -> (r: Option<(Vec<MenuList>, usize)>)
    requires
        i <= s@.len(),
    ensures
        match r {
            Some(p) => spec_parse_menulist_arr(s@, i as int) == Some((p.0.deep_view(), p.1 as int)) && i
                < p.1 <= s@.len(),
            None => spec_parse_menulist_arr(s@, i as int) is None,
        },
{
    proof {
        reveal(spec_parse_menulist_arr);
    }
    if i < s.len() && s[i] == '[' {
        let j = skip_ws(s, i + 1);
        if j < s.len() && s[j] == ']' {
            let v: Vec<MenuList> = Vec::new();
            proof {
                assert(v.deep_view() =~= Seq::<MenuListV>::empty());
            }
            Some((v, j + 1))
        } else {
            parse_menulist_elems(s, j)
        }
    } else {
        None
    }
}

fn menudata_members(s: &Vec<char>, i: usize, f1: Option<String>, f2: Option<i32>, f3: Option<i32>, f4: Option<Vec<MenuList>>) -> (r: Option<(MenuData, usize)>)
    requires
        i <= s@.len(),
    ensures
        match r {
            Some(p) => spec_menudata_members(s@, i as int, opt_chars(f1), opt_i32(f2), opt_i32(f3), opt_menulists(f4)) == Some((p.0@, p.1 as int)) && i < p.1
                <= s@.len(),
            None => spec_menudata_members(s@, i as int, opt_chars(f1), opt_i32(f2), opt_i32(f3), opt_menulists(f4)) is None,
        },
    decreases s@.len() - i,
{
    proof {
        reveal(spec_skip_unknown);
    }
    if i >= s.len() {
        return None;
    }
    let (key, j0) = match parse_string(s, i) {
        Some(p) => p,
        None => {
            return None;
        },
    };
    proof {
        assert(past(i as int, j0 as int, s@.len() as int) == j0 as int);
    }
    let j2 = skip_ws(s, j0);
    proof {
        assert(at_least(j0 as int, spec_skip_ws(s@, j0 as int), s@.len() as int) == j2 as int);
    }
    if j2 < s.len() && s[j2] == ':' {
        let v = skip_ws(s, j2 + 1);
        proof {
            assert(at_least(j2 + 1, spec_skip_ws(s@, j2 + 1), s@.len() as int) == v as int);
        }
        let step: Option<(Option<String>, Option<i32>, Option<i32>, Option<Vec<MenuList>>, usize)> = if str_eq(key.as_str(), "name") {
            if f1.is_some() {
                None
            } else {
                match parse_string(s, v) {
                    Some((t, k)) => Some((Some(t), f2, f3, f4, k)),
                    None => None,
                }
            }
        } else if str_eq(key.as_str(), "id") {
            if f2.is_some() {
                None
            } else {
                match parse_int_val(s, v) {
                    Some((t, k)) => Some((f1, Some(t), f3, f4, k)),
                    None => None,
                }
            }
        } else if str_eq(key.as_str(), "areacode") {
            if f3.is_some() {
                None
            } else {
                match parse_int_val(s, v) {
                    Some((t, k)) => Some((f1, f2, Some(t), f4, k)),
                    None => None,
                }
            }
        } else if str_eq(key.as_str(), "menus") {
            if f4.is_some() {
                None
            } else {
                match parse_menulist_arr(s, v) {
                    Some((t, k)) => Some((f1, f2, f3, Some(t), k)),
                    None => None,
                }
            }
        } else {
            match skip_value(s, v) {
                Some(k) => Some((f1, f2, f3, f4, k)),
                None => None,
            }
        };
        match step {
            None => None,
            Some((g1, g2, g3, g4, k0)) => {
                proof {
                    assert(past(v as int, k0 as int, s@.len() as int) == k0 as int);
                }
                let k2 = skip_ws(s, k0);
                proof {
                    assert(at_least(k0 as int, spec_skip_ws(s@, k0 as int), s@.len() as int) == k2
                        as int);
                }
                if k2 < s.len() && s[k2] == ',' {
                    let m2 = skip_ws(s, k2 + 1);
                    proof {
                        assert(at_least(k2 + 1, spec_skip_ws(s@, k2 + 1), s@.len() as int) == m2
                            as int);
                    }
                    menudata_members(s, m2, g1, g2, g3, g4)
                } else if k2 < s.len() && s[k2] == '}' {
                    match (g1, g2, g3, g4) {
                        (Some(a1), Some(a2), Some(a3), Some(a4)) => Some((MenuData { name: a1, id: a2, areacode: a3, menus: a4 }, k2 + 1)),
                        _ => None,
                    }
                } else {
                    None
                }
            },
        }
    } else {
        None
    }
}

fn parse_menudata(s: &Vec<char>, i: usize) -> (r: Option<(MenuData, usize)>)
    requires
        i <= s@.len(),
    ensures
        match r {
            Some(p) => spec_parse_menudata(s@, i as int) == Some((p.0@, p.1 as int)) && i < p.1
                <= s@.len(),
            None => spec_parse_menudata(s@, i as int) is None,
        },
{
    proof {
        reveal(spec_parse_menudata);
    }
    if i < s.len() && s[i] == '{' {
        let j = skip_ws(s, i + 1);
        menudata_members(s, j, None, None, None, None)
    } else {
        None
    }
}

fn restaurant_members(s: &Vec<char>, i: usize, f1: Option<i32>, f2: Option<String>, f3: Option<String>, f4: Option<String>, f5: Option<String>, f6: Option<MenuData>) -> (r: Option<(Restaurant, usize)>)
    requires
        i <= s@.len(),
    ensures
        match r {
            Some(p) => spec_restaurant_members(s@, i as int, opt_i32(f1), opt_chars(f2), opt_chars(f3), opt_chars(f4), opt_chars(f5), opt_md(f6)) == Some((p.0@, p.1 as int)) && i < p.1
                <= s@.len(),
            None => spec_restaurant_members(s@, i as int, opt_i32(f1), opt_chars(f2), opt_chars(f3), opt_chars(f4), opt_chars(f5), opt_md(f6)) is None,
        },
    decreases s@.len() - i,
{
    proof {
        reveal(spec_skip_unknown);
    }
    if i >= s.len() {
        return None;
    }
    let (key, j0) = match parse_string(s, i) {
        Some(p) => p,
        None => {
            return None;
        },
    };
    proof {
        assert(past(i as int, j0 as int, s@.len() as int) == j0 as int);
    }
    let j2 = skip_ws(s, j0);
    proof {
        assert(at_least(j0 as int, spec_skip_ws(s@, j0 as int), s@.len() as int) == j2 as int);
    }
    if j2 < s.len() && s[j2] == ':' {
        let v = skip_ws(s, j2 + 1);
        proof {
            assert(at_least(j2 + 1, spec_skip_ws(s@, j2 + 1), s@.len() as int) == v as int);
        }
        let step: Option<(Option<i32>, Option<String>, Option<String>, Option<String>, Option<String>, Option<MenuData>, usize)> = if str_eq(key.as_str(), "id") {
            if f1.is_some() {
                None
            } else {
                match parse_int_val(s, v) {
                    Some((t, k)) => Some((Some(t), f2, f3, f4, f5, f6, k)),
                    None => None,
                }
            }
        } else if str_eq(key.as_str(), "title") {
            if f2.is_some() {
                None
            } else {
                match parse_string(s, v) {
                    Some((t, k)) => Some((f1, Some(t), f3, f4, f5, f6, k)),
                    None => None,
                }
            }
        } else if str_eq(key.as_str(), "slug") {
            if f3.is_some() {
                None
            } else {
                match parse_string(s, v) {
                    Some((t, k)) => Some((f1, f2, Some(t), f4, f5, f6, k)),
                    None => None,
                }
            }
        } else if str_eq(key.as_str(), "permalink") {
            if f4.is_some() {
                None
            } else {
                match parse_string(s, v) {
                    Some((t, k)) => Some((f1, f2, f3, Some(t), f5, f6, k)),
                    None => None,
                }
            }
        } else if str_eq(key.as_str(), "address") {
            if f5.is_some() {
                None
            } else {
                match parse_string(s, v) {
                    Some((t, k)) => Some((f1, f2, f3, f4, Some(t), f6, k)),
                    None => None,
                }
            }
        } else if str_eq(key.as_str(), "menuData") {
            if f6.is_some() {
                None
            } else {
                match parse_menudata(s, v) {
                    Some((t, k)) => Some((f1, f2, f3, f4, f5, Some(t), k)),
                    None => None,
                }
            }
        } else {
            match skip_value(s, v) {
                Some(k) => Some((f1, f2, f3, f4, f5, f6, k)),
                None => None,
            }
        };
        match step {
            None => None,
            Some((g1, g2, g3, g4, g5, g6, k0)) => {
                proof {
                    assert(past(v as int, k0 as int, s@.len() as int) == k0 as int);
                }
                let k2 = skip_ws(s, k0);
                proof {
                    assert(at_least(k0 as int, spec_skip_ws(s@, k0 as int), s@.len() as int) == k2
                        as int);
                }
                if k2 < s.len() && s[k2] == ',' {
                    let m2 = skip_ws(s, k2 + 1);
                    proof {
                        assert(at_least(k2 + 1, spec_skip_ws(s@, k2 + 1), s@.len() as int) == m2
                            as int);
                    }
                    restaurant_members(s, m2, g1, g2, g3, g4, g5, g6)
                } else if k2 < s.len() && s[k2] == '}' {
                    match (g1, g2, g3, g4, g5, g6) {
                        (Some(a1), Some(a2), Some(a3), Some(a4), Some(a5), Some(a6)) => Some((Restaurant { id: a1, title: a2, slug: a3, permalink: a4, address: a5, menu_data: a6 }, k2 + 1)),
                        _ => None,
                    }
                } else {
                    None
                }
            },
        }
    } else {
        None
    }
}

fn parse_restaurant(s: &Vec<char>, i: usize) -> (r: Option<(Restaurant, usize)>)
    requires
        i <= s@.len(),
    ensures
        match r {
            Some(p) => spec_parse_restaurant(s@, i as int) == Some((p.0@, p.1 as int)) && i < p.1
                <= s@.len(),
            None => spec_parse_restaurant(s@, i as int) is None,
        },
{
    proof {
        reveal(spec_parse_restaurant);
    }
    if i < s.len() && s[i] == '{' {
        let j = skip_ws(s, i + 1);
        restaurant_members(s, j, None, None, None, None, None, None)
    } else {
        None
    }
}

fn parse_restaurant_elems(s: &Vec<char>, i: usize) -> (r: Option<(Vec<Restaurant>, usize)>)
    requires
        i <= s@.len(),
    ensures
        match r {
            Some(p) => spec_parse_restaurant_elems(s@, i as int) == Some((p.0.deep_view(), p.1 as int))
                && i < p.1 <= s@.len(),
            None => spec_parse_restaurant_elems(s@, i as int) is None,
        },
    decreases s@.len() - i,
{
    proof {
        reveal(spec_parse_restaurant_elems);
    }
    if i >= s.len() {
        return None;
    }
    match parse_restaurant(s, i) {
        None => None,
        Some((m, j0)) => {
            proof {
                assert(past(i as int, j0 as int, s@.len() as int) == j0 as int);
            }
            let j2 = skip_ws(s, j0);
            proof {
                assert(at_least(j0 as int, spec_skip_ws(s@, j0 as int), s@.len() as int) == j2
                    as int);
            }
            if j2 < s.len() && s[j2] == ',' {
                let nx = skip_ws(s, j2 + 1);
                proof {
                    assert(at_least(j2 + 1, spec_skip_ws(s@, j2 + 1), s@.len() as int) == nx
                        as int);
                }
                match parse_restaurant_elems(s, nx) {
                    Some((mut v, k)) => {
                        let ghost v0 = v.deep_view();
                        v.insert(0, m);
                        proof {
                            assert(v.deep_view() =~= seq![m@] + v0);
                        }
                        Some((v, k))
                    },
                    None => None,
                }
            } else if j2 < s.len() && s[j2] == ']' {
                let mut v: Vec<Restaurant> = Vec::new();
                v.push(m);
                proof {
                    assert(v.deep_view() =~= seq![m@]);
                }
                Some((v, j2 + 1))
            } else {
                None
            }
        },
    }
}

fn parse_restaurant_arr(s: &Vec<char>, i: usize) -> (r: Option<(Vec<Restaurant>, usize)>)
    requires
        i <= s@.len(),
    ensures
        match r {
            Some(p) => spec_parse_restaurant_arr(s@, i as int) == Some((p.0.deep_view(), p.1 as int)) && i
                < p.1 <= s@.len(),
            None => spec_parse_restaurant_arr(s@, i as int) is None,
        },
{
    proof {
        reveal(spec_parse_restaurant_arr);
    }
    if i < s.len() && s[i] == '[' {
        let j = skip_ws(s, i + 1);
        if j < s.len() && s[j] == ']' {
            let v: Vec<Restaurant> = Vec::new();
            proof {
                assert(v.deep_view() =~= Seq::<RestaurantV>::empty());
            }
            Some((v, j + 1))
        } else {
            parse_restaurant_elems(s, j)
        }
    } else {
        None
    }
}

/// Decodes the catalog from its JSON text: whitespace between tokens,
/// object fields in any order, and unknown extra fields are all accepted;
/// a missing required field, a type mismatch or malformed syntax is a
/// fetch error.
pub fn decode_catalog(s: &str) -> (r: Result<Vec<Restaurant>, MenuError>)
    ensures
        match r {
            Ok(v) => spec_decode_catalog(s@) == Some(v.deep_view()),
            Err(e) => e == MenuError::Fetch && spec_decode_catalog(s@) is None,
        },
{
    proof {
        reveal(spec_parse_restaurant_arr);
    }
    let cs = str_to_chars(s);
    let i = skip_ws(&cs, 0);
    match parse_restaurant_arr(&cs, i) {
        Some((v, j)) => {
            let e = skip_ws(&cs, j);
            if e == cs.len() {
                Ok(v)
            } else {
                Err(MenuError::Fetch)
            }
        },
        None => Err(MenuError::Fetch),
    }
}

} // verus!
