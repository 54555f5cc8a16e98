//! Rendering: one line per dish (`"<name>, <student price>\u{20ac}\n"`),
//! a special two-line block for opening-hours pseudo-entries, the
//! `"Ei ruokaa"` fallback for an empty menu, and markup escaping of the
//! whole result.

use vstd::prelude::*;
use crate::escape::{escape_chars, spec_escape};
use crate::model::{Menu, MenuList, MenuListV, MenuV};
use crate::strutil::{spec_starts_with, starts_with_chars, str_to_chars, string_from_chars};

verus! {

/// Whitespace, as used to split the opening-hours text into tokens: the
/// characters of the Unicode `White_Space` property, matching what
/// `char::is_whitespace` covers.
pub open spec fn spec_is_ws(c: char) -> bool {
    c == ' ' || c == '\t' || c == '\n' || c == '\u{000B}' || c == '\u{000C}' || c == '\r'
        || c == '\u{0085}' || c == '\u{00A0}' || c == '\u{1680}' || c == '\u{2000}'
        || c == '\u{2001}' || c == '\u{2002}' || c == '\u{2003}' || c == '\u{2004}'
        || c == '\u{2005}' || c == '\u{2006}' || c == '\u{2007}' || c == '\u{2008}'
        || c == '\u{2009}' || c == '\u{200A}' || c == '\u{2028}' || c == '\u{2029}'
        || c == '\u{202F}' || c == '\u{205F}' || c == '\u{3000}'
}

/// The longest whitespace-free suffix of `s`.
pub open spec fn suffix_token(s: Seq<char>) -> Seq<char>
    decreases s.len(),
{
    if s.len() == 0 || spec_is_ws(s.last()) {
        Seq::empty()
    } else {
        suffix_token(s.drop_last()).push(s.last())
    }
}

/// The last whitespace-delimited token of `s` (empty when `s` has none).
pub open spec fn last_token(s: Seq<char>) -> Seq<char>
    decreases s.len(),
{
    if s.len() == 0 {
        Seq::empty()
    } else if spec_is_ws(s.last()) {
        last_token(s.drop_last())
    } else {
        suffix_token(s)
    }
}

/// An item whose name starts with this token carries opening hours, not food.
pub open spec fn is_opening_hours(name: Seq<char>) -> bool {
    spec_starts_with(name, "RAVINTOLA AVOINNA"@)
}

/// The unescaped line(s) one item contributes to the message body.
pub open spec fn spec_line(m: MenuV) -> Seq<char> {
    if is_opening_hours(m.name) {
        "Aukioloajat: "@ + last_token(m.name) + "\n\n"@
    } else {
        m.name + ", "@ + m.price.value.student + "\u{20ac}\n"@
    }
}

/// The unescaped message body: the items' lines in order.
pub open spec fn spec_body(items: Seq<MenuV>) -> Seq<char>
    decreases items.len(),
{
    if items.len() == 0 {
        Seq::empty()
    } else {
        spec_line(items[0]) + spec_body(items.drop_first())
    }
}

/// The rendered message: the body, or `"Ei ruokaa"` when it is empty,
/// escaped for the markup dialect.
pub open spec fn spec_render(ml: MenuListV) -> Seq<char> {
    if spec_body(ml.data).len() == 0 {
        spec_escape("Ei ruokaa"@)
    } else {
        spec_escape(spec_body(ml.data))
    }
}

/// The body spec distributes over concatenation of item lists.
pub proof fn lemma_body_append(a: Seq<MenuV>, b: Seq<MenuV>)
    ensures
        spec_body(a + b) == spec_body(a) + spec_body(b),
    decreases a.len(),
{
    if a.len() == 0 {
        assert(a + b =~= b);
        assert(spec_body(a) + spec_body(b) =~= spec_body(b));
    } else {
        assert((a + b).drop_first() =~= a.drop_first() + b);
        lemma_body_append(a.drop_first(), b);
        assert(spec_body(a + b) =~= spec_body(a) + spec_body(b));
    }
}

proof fn lemma_suffix_token_run(s: Seq<char>, b: int)
    requires
        0 <= b <= s.len(),
        forall|k: int| b <= k < s.len() ==> !spec_is_ws(s[k]),
        b == 0 || spec_is_ws(s[b - 1]),
    ensures
        suffix_token(s) == s.subrange(b, s.len() as int),
    decreases s.len(),
{
    if b == s.len() {
        assert(s.subrange(b, s.len() as int) =~= Seq::empty());
    } else {
        assert(!spec_is_ws(s.last()));
        lemma_suffix_token_run(s.drop_last(), b);
        assert(s.drop_last().subrange(b, s.len() - 1) =~= s.subrange(b, s.len() - 1));
        assert(suffix_token(s) =~= s.subrange(b, s.len() as int));
    }
}

/// Decides `spec_is_ws` on a character.
fn is_ws_char(c: char) -> (b: bool)
    ensures
        b == spec_is_ws(c),
{
    c == ' ' || c == '\t' || c == '\n' || c == '\u{000B}' || c == '\u{000C}' || c == '\r'
        || c == '\u{0085}' || c == '\u{00A0}' || c == '\u{1680}' || c == '\u{2000}'
        || c == '\u{2001}' || c == '\u{2002}' || c == '\u{2003}' || c == '\u{2004}'
        || c == '\u{2005}' || c == '\u{2006}' || c == '\u{2007}' || c == '\u{2008}'
        || c == '\u{2009}' || c == '\u{200A}' || c == '\u{2028}' || c == '\u{2029}'
        || c == '\u{202F}' || c == '\u{205F}' || c == '\u{3000}'
}

/// The end of `v` with trailing whitespace dropped.
fn trim_ws_end(v: &Vec<char>) -> (e: usize)
    ensures
        e <= v@.len(),
        last_token(v@) == last_token(v@.subrange(0, e as int)),
        e == 0 || !spec_is_ws(v@[e - 1]),
{
    let mut e: usize = v.len();
    proof {
        assert(v@.subrange(0, v@.len() as int) =~= v@);
    }
    while e > 0
        invariant
            e <= v@.len(),
            last_token(v@) == last_token(v@.subrange(0, e as int)),
        decreases e,
    {
        if !is_ws_char(v[e - 1]) {
            return e;
        }
        proof {
            let s = v@.subrange(0, e as int);
            assert(spec_is_ws(s.last()));
            assert(s.drop_last() =~= v@.subrange(0, e - 1));
        }
        e = e - 1;
    }
    0
}

/// The start of the whitespace-free run that ends at `e`.
fn token_start(v: &Vec<char>, e: usize) -> (b: usize)
    requires
        e <= v@.len(),
    ensures
        b <= e,
        forall|k: int| b <= k < e ==> !spec_is_ws(v@[k]),
        b == 0 || spec_is_ws(v@[b - 1]),
{
    let mut b: usize = e;
    while b > 0
        invariant
            b <= e <= v@.len(),
            forall|k: int| b <= k < e ==> !spec_is_ws(v@[k]),
        decreases b,
    {
        if is_ws_char(v[b - 1]) {
            return b;
        }
        b = b - 1;
    }
    0
}

/// Extracts the last whitespace-delimited token of `v`.
pub fn last_token_chars(v: &Vec<char>) -> (t: Vec<char>)
    ensures
        t@ == last_token(v@),
{
    let e = trim_ws_end(v);
    if e == 0 {
        proof {
            assert(v@.subrange(0, 0) =~= Seq::<char>::empty());
        }
        return Vec::new();
    }
    let b = token_start(v, e);
    proof {
        let s = v@.subrange(0, e as int);
        assert(!spec_is_ws(s.last()));
        assert(forall|k: int| b <= k < e ==> s[k] == v@[k]);
        if b > 0 {
            assert(spec_is_ws(s[b - 1]));
        }
        lemma_suffix_token_run(s, b as int);
        assert(last_token(v@) == s.subrange(b as int, e as int));
        assert(s.subrange(b as int, e as int) =~= v@.subrange(b as int, e as int));
    }
    let mut t: Vec<char> = Vec::new();
    let mut k: usize = 0;
    while k < e - b
        invariant
            b + k <= e <= v@.len(),
            t@ == v@.subrange(b as int, b + k),
        decreases e - b - k,
    {
        t.push(v[b + k]);
        proof {
            assert(t@ =~= v@.subrange(b as int, b + k + 1));
        }
        k = k + 1;
    }
    proof {
        assert(t@ =~= v@.subrange(b as int, e as int));
    }
    t
}

/// Renders one item: the opening-hours block, or a name-and-price line.
pub fn format_food_and_price(m: &Menu) -> (r: String)
    ensures
        r@ == spec_line(m@),
{
    let name = str_to_chars(m.name.as_str());
    let prefix = str_to_chars("RAVINTOLA AVOINNA");
    let mut out: Vec<char>;
    if starts_with_chars(&name, &prefix) {
        let token = last_token_chars(&name);
        out = str_to_chars("Aukioloajat: ");
        out.extend_from_slice(token.as_slice());
        let tail = str_to_chars("\n\n");
        out.extend_from_slice(tail.as_slice());
        proof {
            assert(out@ =~= "Aukioloajat: "@ + last_token(m@.name) + "\n\n"@);
        }
    } else {
        out = name;
        let sep = str_to_chars(", ");
        out.extend_from_slice(sep.as_slice());
        let student = str_to_chars(m.price.value.student.as_str());
        out.extend_from_slice(student.as_slice());
        let tail = str_to_chars("\u{20ac}\n");
        out.extend_from_slice(tail.as_slice());
        proof {
            assert(out@ =~= m@.name + ", "@ + m@.price.value.student + "\u{20ac}\n"@);
        }
    }
    string_from_chars(&out)
}

/// Renders a whole day's menu, escaped for the markup dialect.
pub fn format_message(data: &MenuList) -> (r: String)
    ensures
        r@ == spec_render(data@),
{
    let ghost items = data.data.deep_view();
    let mut body: Vec<char> = Vec::new();
    let mut i: usize = 0;
    while i < data.data.len()
        invariant
            items == data.data.deep_view(),
            items.len() == data.data@.len(),
            i <= data.data@.len(),
            body@ == spec_body(items.subrange(0, i as int)),
        decreases data.data@.len() - i,
    {
        let line = format_food_and_price(&data.data[i]);
        let lc = str_to_chars(line.as_str());
        body.extend_from_slice(lc.as_slice());
        proof {
            let pre = items.subrange(0, i as int);
            let single = seq![items[i as int]];
            lemma_body_append(pre, single);
            assert(single.drop_first() =~= Seq::<MenuV>::empty());
            assert(spec_body(Seq::<MenuV>::empty()) == Seq::<char>::empty());
            assert(spec_body(single) =~= spec_line(items[i as int]));
            assert(items.subrange(0, i + 1) =~= pre + seq![items[i as int]]);
            assert(body@ =~= spec_body(items.subrange(0, i + 1)));
        }
        i = i + 1;
    }
    proof {
        assert(items.subrange(0, items.len() as int) =~= items);
    }
    if body.len() == 0 {
        body = str_to_chars("Ei ruokaa");
    }
    let esc = escape_chars(&body);
    string_from_chars(&esc)
}

} // verus!
