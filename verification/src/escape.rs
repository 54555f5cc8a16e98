//! Escaping for a MarkdownV2-style transport: every reserved character is
//! prefixed with a backslash in a single left-to-right pass. A pre-existing
//! backslash in the input is not itself escaped (a documented quirk of the
//! dialect handling, kept as-is).

use vstd::prelude::*;

verus! {

/// The reserved character set of the target markup dialect.
pub open spec fn is_reserved(c: char) -> bool {
    c == '-' || c == '.' || c == '_' || c == '*' || c == '[' || c == ']' || c == '(' || c == ')'
        || c == '~' || c == '`' || c == '>' || c == '#' || c == '+' || c == '=' || c == '|'
        || c == '{' || c == '}' || c == '!'
}

/// What one input character contributes to the escaped output.
pub open spec fn escape_char(c: char) -> Seq<char> {
    if is_reserved(c) {
        seq!['\\', c]
    } else {
        seq![c]
    }
}

/// The escaped form of a whole character sequence.
pub open spec fn spec_escape(s: Seq<char>) -> Seq<char>
    decreases s.len(),
{
    if s.len() == 0 {
        Seq::empty()
    } else {
        escape_char(s[0]) + spec_escape(s.drop_first())
    }
}

/// Inverse scan: a backslash consumes the following character verbatim.
pub open spec fn spec_unescape(s: Seq<char>) -> Seq<char>
    decreases s.len(),
{
    if s.len() == 0 {
        Seq::empty()
    } else if s[0] == '\\' && s.len() >= 2 {
        seq![s[1]] + spec_unescape(s.skip(2))
    } else {
        seq![s[0]] + spec_unescape(s.drop_first())
    }
}

/// Escaping distributes over concatenation.
pub proof fn lemma_escape_append(a: Seq<char>, b: Seq<char>)
    ensures
        spec_escape(a + b) == spec_escape(a) + spec_escape(b),
    decreases a.len(),
{
    if a.len() == 0 {
        assert(a + b =~= b);
        assert(spec_escape(a) + spec_escape(b) =~= spec_escape(b));
    } else {
        assert((a + b).drop_first() =~= a.drop_first() + b);
        lemma_escape_append(a.drop_first(), b);
        assert(spec_escape(a + b) =~= spec_escape(a) + spec_escape(b));
    }
}

/// Escaping touches each reserved occurrence exactly once: on input free of
/// backslashes, un-escaping the escaped text gives back the input unchanged.
pub proof fn lemma_escape_round_trip(s: Seq<char>)
    requires
        forall|i: int| 0 <= i < s.len() ==> s[i] != '\\',
    ensures
        spec_unescape(spec_escape(s)) == s,
    decreases s.len(),
{
    if s.len() == 0 {
    } else {
        let rest = s.drop_first();
        assert(forall|i: int| 0 <= i < rest.len() ==> rest[i] == s[i + 1]);
        lemma_escape_round_trip(rest);
        let e = spec_escape(s);
        if is_reserved(s[0]) {
            assert(e =~= seq!['\\', s[0]] + spec_escape(rest));
            assert(e.skip(2) =~= spec_escape(rest));
            assert(spec_unescape(e) =~= seq![s[0]] + rest);
            assert(seq![s[0]] + rest =~= s);
        } else {
            assert(e =~= seq![s[0]] + spec_escape(rest));
            assert(e[0] == s[0] && s[0] != '\\');
            assert(e.drop_first() =~= spec_escape(rest));
            assert(spec_unescape(e) =~= seq![s[0]] + rest);
            assert(seq![s[0]] + rest =~= s);
        }
    }
}

/// Single-pass escaping of a character vector.
pub fn escape_chars(s: &Vec<char>) -> (r: Vec<char>)
    ensures
        r@ == spec_escape(s@),
{
    let mut r: Vec<char> = Vec::new();
    let mut i: usize = 0;
    while i < s.len()
        invariant
            i <= s@.len(),
            r@ == spec_escape(s@.subrange(0, i as int)),
        decreases s@.len() - i,
    {
        let c = s[i];
        let reserved = c == '-' || c == '.' || c == '_' || c == '*' || c == '[' || c == ']'
            || c == '(' || c == ')' || c == '~' || c == '`' || c == '>' || c == '#' || c == '+'
            || c == '=' || c == '|' || c == '{' || c == '}' || c == '!';
        if reserved {
            r.push('\\');
        }
        r.push(c);
        proof {
            let pre = s@.subrange(0, i as int);
            let single = seq![s@[i as int]];
            lemma_escape_append(pre, single);
            assert(single.drop_first() =~= Seq::<char>::empty());
            assert(spec_escape(Seq::<char>::empty()) == Seq::<char>::empty());
            assert(spec_escape(single) =~= escape_char(s@[i as int]));
            assert(s@.subrange(0, i + 1) =~= pre + seq![s@[i as int]]);
            assert(r@ =~= spec_escape(s@.subrange(0, i + 1)));
        }
        i = i + 1;
    }
    proof {
        assert(s@.subrange(0, s@.len() as int) =~= s@);
    }
    r
}

/// Escapes a string for the target markup dialect.
pub fn format_for_markdown(s: &str) -> (r: String)
    ensures
        r@ == spec_escape(s@),
{
    let v = crate::strutil::str_to_chars(s);
    let e = escape_chars(&v);
    crate::strutil::string_from_chars(&e)
}

} // verus!
