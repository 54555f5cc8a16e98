//! JSON primitives for the catalog codec: canonical encoding, tolerant
//! parsing of whitespace, strings (with the standard JSON escapes),
//! integers and fixed literals, a generic value skipper for unknown
//! fields, and the round-trip lemmas the codec builds on.

use vstd::prelude::*;
use crate::pipeline::digit_char;
use crate::strutil::{chars_match_at, str_to_chars};

verus! {

// ---------------------------------------------------------------- digits

/// An ASCII decimal digit.
pub open spec fn is_digit(c: char) -> bool {
    48 <= c as int && c as int <= 57
}

/// The numeric value of an ASCII digit.
pub open spec fn digit_val(c: char) -> int {
    c as int - 48
}

/// `digit_char` emits exactly the ASCII digits, with the right values.
pub proof fn lemma_digit_char_val(d: int)
    requires
        0 <= d < 10,
    ensures
        is_digit(digit_char(d)),
        digit_val(digit_char(d)) == d,
{
}

// ---------------------------------------------------------------- layout

/// JSON inter-token whitespace.
pub open spec fn is_json_ws(c: char) -> bool {
    c == ' ' || c == '\t' || c == '\n' || c == '\r'
}

/// The position of the first non-whitespace character at or after `i`.
pub open spec fn spec_skip_ws(s: Seq<char>, i: int) -> int
    decreases s.len() - i,
{
    if 0 <= i && i < s.len() && is_json_ws(s[i]) {
        spec_skip_ws(s, i + 1)
    } else {
        i
    }
}

/// `cand` if it lies in `[i, n]`, else `i`: pins a position that is known
/// to be well-formed anyway, so that recursion is visibly bounded.
pub open spec fn at_least(i: int, cand: int, n: int) -> int {
    if i <= cand && cand <= n {
        cand
    } else {
        i
    }
}

/// `cand` if it lies in `(i, n]`, else `i + 1`: pins strict progress.
pub open spec fn past(i: int, cand: int, n: int) -> int {
    if i < cand && cand <= n {
        cand
    } else {
        i + 1
    }
}

/// An ASCII hexadecimal digit.
pub open spec fn is_hex(c: char) -> bool {
    is_digit(c) || (97 <= c as int && c as int <= 102) || (65 <= c as int && c as int <= 70)
}

/// The numeric value of a hexadecimal digit.
pub open spec fn hex_val(c: char) -> int {
    if is_digit(c) {
        c as int - 48
    } else if 97 <= c as int && c as int <= 102 {
        c as int - 87
    } else {
        c as int - 55
    }
}

/// The value of the four hex digits at `i`, if they are there.
pub open spec fn spec_hex4(s: Seq<char>, i: int) -> Option<int> {
    if 0 <= i && i + 4 <= s.len() && is_hex(s[i]) && is_hex(s[i + 1]) && is_hex(s[i + 2])
        && is_hex(s[i + 3]) {
        Some(hex_val(s[i]) * 4096 + hex_val(s[i + 1]) * 256 + hex_val(s[i + 2]) * 16 + hex_val(
            s[i + 3],
        ))
    } else {
        None
    }
}

/// A `\uXXXX` escape (after the `\u`): one character, handling surrogate
/// pairs; a lone surrogate is an error.
pub open spec fn spec_parse_u_escape(s: Seq<char>, i: int) -> Option<(char, int)> {
    match spec_hex4(s, i) {
        None => None,
        Some(n) => {
            if 0xD800 <= n && n <= 0xDBFF {
                if i + 6 <= s.len() && s[i + 4] == '\\' && s[i + 5] == 'u' {
                    match spec_hex4(s, i + 6) {
                        None => None,
                        Some(m) => {
                            if 0xDC00 <= m && m <= 0xDFFF {
                                Some(
                                    (
                                        (0x10000 + (n - 0xD800) * 1024 + (m - 0xDC00)) as char,
                                        i + 10,
                                    ),
                                )
                            } else {
                                None
                            }
                        },
                    }
                } else {
                    None
                }
            } else if 0xDC00 <= n && n <= 0xDFFF {
                None
            } else {
                Some((n as char, i + 4))
            }
        },
    }
}

// ---------------------------------------------------------------- strings

/// What one character contributes to a JSON string body.
pub open spec fn esc_json(c: char) -> Seq<char> {
    if c == '"' || c == '\\' {
        seq!['\\', c]
    } else {
        seq![c]
    }
}

/// The body of the canonical JSON encoding of a string.
pub open spec fn spec_enc_str_body(s: Seq<char>) -> Seq<char>
    decreases s.len(),
{
    if s.len() == 0 {
        Seq::empty()
    } else {
        esc_json(s[0]) + spec_enc_str_body(s.drop_first())
    }
}

/// The canonical JSON encoding of a string: quoted, with escapes.
pub open spec fn spec_enc_str(s: Seq<char>) -> Seq<char> {
    seq!['"'] + spec_enc_str_body(s) + seq!['"']
}

/// The string-body encoding distributes over concatenation.
pub proof fn lemma_enc_str_body_append(a: Seq<char>, b: Seq<char>)
    ensures
        spec_enc_str_body(a + b) == spec_enc_str_body(a) + spec_enc_str_body(b),
    decreases a.len(),
{
    if a.len() == 0 {
        assert(a + b =~= b);
        assert(spec_enc_str_body(a) + spec_enc_str_body(b) =~= spec_enc_str_body(b));
    } else {
        assert((a + b).drop_first() =~= a.drop_first() + b);
        lemma_enc_str_body_append(a.drop_first(), b);
        assert(spec_enc_str_body(a + b) =~= spec_enc_str_body(a) + spec_enc_str_body(b));
    }
}

/// The character a `\b`, `\f`, `\n`, `\r` or `\t` escape stands for.
pub open spec fn ctrl_escape_char(c: char) -> char {
    if c == 'b' {
        '\u{0008}'
    } else if c == 'f' {
        '\u{000C}'
    } else if c == 'n' {
        '\n'
    } else if c == 'r' {
        '\r'
    } else {
        '\t'
    }
}

/// Parses a JSON string body up to and including the closing quote,
/// handling all the standard escapes.
#[verifier::opaque]
pub open spec fn spec_parse_str_body(s: Seq<char>, i: int) -> Option<(Seq<char>, int)>
    decreases s.len() - i,
{
    if i < 0 || i >= s.len() {
        None
    } else if s[i] == '"' {
        Some((Seq::empty(), i + 1))
    } else if s[i] == '\\' {
        if i + 1 < s.len() && (s[i + 1] == '"' || s[i + 1] == '\\' || s[i + 1] == '/') {
            match spec_parse_str_body(s, i + 2) {
                Some((t, j)) => Some((seq![s[i + 1]] + t, j)),
                None => None,
            }
        } else if i + 1 < s.len() && (s[i + 1] == 'b' || s[i + 1] == 'f' || s[i + 1] == 'n' || s[i
            + 1] == 'r' || s[i + 1] == 't') {
            match spec_parse_str_body(s, i + 2) {
                Some((t, j)) => Some((seq![ctrl_escape_char(s[i + 1])] + t, j)),
                None => None,
            }
        } else if i + 1 < s.len() && s[i + 1] == 'u' {
            match spec_parse_u_escape(s, i + 2) {
                None => None,
                Some((c, j0)) => {
                    let j = past(i + 1, j0, s.len() as int);
                    match spec_parse_str_body(s, j) {
                        Some((t, k)) => Some((seq![c] + t, k)),
                        None => None,
                    }
                },
            }
        } else {
            None
        }
    } else {
        match spec_parse_str_body(s, i + 1) {
            Some((t, j)) => Some((seq![s[i]] + t, j)),
            None => None,
        }
    }
}

/// Parses a quoted JSON string.
pub open spec fn spec_parse_str(s: Seq<char>, i: int) -> Option<(Seq<char>, int)> {
    if 0 <= i && i < s.len() && s[i] == '"' {
        spec_parse_str_body(s, i + 1)
    } else {
        None
    }
}

proof fn lemma_rt_str_body(s: Seq<char>, t: Seq<char>, i: int)
    requires
        0 <= i,
        i + spec_enc_str_body(t).len() + 1 <= s.len(),
        s.subrange(i, i + spec_enc_str_body(t).len() as int) == spec_enc_str_body(t),
        s[i + spec_enc_str_body(t).len() as int] == '"',
    ensures
        spec_parse_str_body(s, i) == Some::<(Seq<char>, int)>(
            (t, i + spec_enc_str_body(t).len() + 1),
        ),
    decreases t.len(),
{
    reveal(spec_parse_str_body);
    if t.len() == 0 {
        assert(s[i] == '"');
    } else {
        let rest = t.drop_first();
        let rb = spec_enc_str_body(rest);
        let e0 = esc_json(t[0]);
        let body = spec_enc_str_body(t);
        assert(body == e0 + rb);
        lemma_subrange_split(s, i, e0, rb);
        if t[0] == '"' || t[0] == '\\' {
            assert(e0 == seq!['\\', t[0]]);
            assert(s.subrange(i, i + 2)[0] == s[i]);
            assert(s.subrange(i, i + 2)[1] == s[i + 1]);
            assert(s[i] == '\\');
            assert(s[i + 1] == t[0]);
            lemma_rt_str_body(s, rest, i + 2);
            assert(seq![s[i + 1]] + rest =~= t);
        } else {
            assert(e0 == seq![t[0]]);
            assert(s.subrange(i, i + 1)[0] == s[i]);
            assert(s[i] == t[0]);
            assert(s[i] != '"' && s[i] != '\\');
            lemma_rt_str_body(s, rest, i + 1);
            assert(seq![s[i]] + rest =~= t);
        }
    }
}

/// Round trip: parsing picks the encoded string back out of any context.
pub proof fn lemma_rt_str(s: Seq<char>, t: Seq<char>, i: int)
    requires
        0 <= i,
        i + spec_enc_str(t).len() <= s.len(),
        s.subrange(i, i + spec_enc_str(t).len() as int) == spec_enc_str(t),
    ensures
        spec_parse_str(s, i) == Some::<(Seq<char>, int)>((t, i + spec_enc_str(t).len())),
{
    let body = spec_enc_str_body(t);
    let enc = spec_enc_str(t);
    assert(enc =~= seq!['"'] + (body + seq!['"']));
    lemma_subrange_split(s, i, seq!['"'], body + seq!['"']);
    assert(s.subrange(i, i + 1)[0] == s[i]);
    assert(s[i] == '"');
    lemma_subrange_split(s, i + 1, body, seq!['"']);
    assert(s.subrange(i + 1 + body.len(), i + 1 + body.len() + 1)[0] == s[i + 1 + body.len()]);
    assert(s[i + 1 + body.len() as int] == '"');
    lemma_rt_str_body(s, t, i + 1);
}

// ---------------------------------------------------------------- integers

/// The canonical decimal digits of a natural number.
pub open spec fn spec_enc_nat(n: nat) -> Seq<char>
    decreases n,
{
    if n < 10 {
        seq![digit_char(n as int)]
    } else {
        spec_enc_nat(n / 10) + seq![digit_char((n % 10) as int)]
    }
}

/// The canonical decimal encoding of an integer.
pub open spec fn spec_enc_int(n: int) -> Seq<char> {
    if n < 0 {
        seq!['-'] + spec_enc_nat((-n) as nat)
    } else {
        spec_enc_nat(n as nat)
    }
}

/// Every character of a canonical digit run is a digit.
pub proof fn lemma_enc_nat_digits(n: nat)
    ensures
        spec_enc_nat(n).len() >= 1,
        forall|k: int| 0 <= k < spec_enc_nat(n).len() ==> is_digit(#[trigger] spec_enc_nat(n)[k]),
    decreases n,
{
    if n < 10 {
        lemma_digit_char_val(n as int);
    } else {
        lemma_enc_nat_digits(n / 10);
        lemma_digit_char_val((n % 10) as int);
    }
}

/// Consumes a maximal digit run, folding it onto `acc` in base 10.
pub open spec fn spec_parse_digits(s: Seq<char>, i: int, acc: nat) -> (nat, int)
    decreases s.len() - i,
{
    if 0 <= i && i < s.len() && is_digit(s[i]) {
        spec_parse_digits(s, i + 1, acc * 10 + digit_val(s[i]) as nat)
    } else {
        (acc, i)
    }
}

/// The folded value never drops below the accumulator it started with.
pub proof fn lemma_parse_digits_ge(s: Seq<char>, i: int, acc: nat)
    ensures
        spec_parse_digits(s, i, acc).0 >= acc,
    decreases s.len() - i,
{
    if 0 <= i && i < s.len() && is_digit(s[i]) {
        lemma_parse_digits_ge(s, i + 1, acc * 10 + digit_val(s[i]) as nat);
    }
}

/// The run's end position stays within the input.
pub proof fn lemma_parse_digits_pos(s: Seq<char>, i: int, acc: nat)
    requires
        0 <= i <= s.len(),
    ensures
        i <= spec_parse_digits(s, i, acc).1 <= s.len(),
    decreases s.len() - i,
{
    if 0 <= i && i < s.len() && is_digit(s[i]) {
        lemma_parse_digits_pos(s, i + 1, acc * 10 + digit_val(s[i]) as nat);
    }
}

/// The value of a digit sequence folded onto `acc`, reading left to right.
pub open spec fn seq_val(ds: Seq<char>, acc: nat) -> nat
    decreases ds.len(),
{
    if ds.len() == 0 {
        acc
    } else {
        seq_val(ds.drop_first(), acc * 10 + digit_val(ds[0]) as nat)
    }
}

proof fn lemma_seq_val_append(a: Seq<char>, b: Seq<char>, acc: nat)
    ensures
        seq_val(a + b, acc) == seq_val(b, seq_val(a, acc)),
    decreases a.len(),
{
    if a.len() == 0 {
        assert(a + b =~= b);
    } else {
        assert((a + b).drop_first() =~= a.drop_first() + b);
        lemma_seq_val_append(a.drop_first(), b, acc * 10 + digit_val(a[0]) as nat);
    }
}

/// Powers of ten.
pub open spec fn pow10(k: nat) -> nat
    decreases k,
{
    if k == 0 {
        1
    } else {
        10 * pow10((k - 1) as nat)
    }
}

proof fn lemma_seq_val_enc_nat(n: nat, acc: nat)
    ensures
        seq_val(spec_enc_nat(n), acc) == acc * pow10(spec_enc_nat(n).len()) + n,
    decreases n,
{
    if n < 10 {
        lemma_digit_char_val(n as int);
        let ds = spec_enc_nat(n);
        assert(ds == seq![digit_char(n as int)]);
        assert(ds[0] == digit_char(n as int));
        assert(digit_val(ds[0]) == n);
        assert(ds.drop_first() =~= Seq::<char>::empty());
        assert(seq_val(ds.drop_first(), acc * 10 + digit_val(ds[0]) as nat) == acc * 10 + n);
        assert(seq_val(ds, acc) == acc * 10 + n);
        assert(pow10(0) == 1);
        assert(pow10(1) == 10);
    } else {
        let hi = spec_enc_nat(n / 10);
        let lo = seq![digit_char((n % 10) as int)];
        lemma_seq_val_append(hi, lo, acc);
        lemma_seq_val_enc_nat(n / 10, acc);
        lemma_digit_char_val((n % 10) as int);
        let vhi = seq_val(hi, acc);
        assert(lo.drop_first() =~= Seq::<char>::empty());
        assert(lo[0] == digit_char((n % 10) as int));
        assert(digit_val(lo[0]) == n % 10);
        assert(seq_val(lo.drop_first(), vhi * 10 + digit_val(lo[0]) as nat) == vhi * 10 + (n
            % 10));
        assert(seq_val(lo, vhi) == vhi * 10 + (n % 10));
        assert(vhi == acc * pow10(hi.len()) + n / 10);
        assert((acc * pow10(hi.len()) + n / 10) * 10 == acc * (10 * pow10(hi.len())) + 10 * (n
            / 10)) by (nonlinear_arith);
        assert(pow10(hi.len() + 1) == 10 * pow10(hi.len()));
        assert(spec_enc_nat(n).len() == hi.len() + 1);
        assert(10 * (n / 10) + n % 10 == n);
    }
}

proof fn lemma_parse_digits_run(s: Seq<char>, i: int, acc: nat, len: nat)
    requires
        0 <= i,
        i + len <= s.len(),
        forall|k: int| i <= k < i + len ==> is_digit(#[trigger] s[k]),
        i + len == s.len() || !is_digit(s[i + len]),
    ensures
        spec_parse_digits(s, i, acc) == (seq_val(s.subrange(i, i + len), acc), i + len),
    decreases len,
{
    if len == 0 {
        assert(s.subrange(i, i) =~= Seq::<char>::empty());
    } else {
        assert(is_digit(s[i]));
        let acc2 = acc * 10 + digit_val(s[i]) as nat;
        lemma_parse_digits_run(s, i + 1, acc2, (len - 1) as nat);
        let run = s.subrange(i, i + len);
        assert(run.drop_first() =~= s.subrange(i + 1, i + len));
        assert(seq_val(run, acc) == seq_val(s.subrange(i + 1, i + len), acc2));
    }
}

/// Parses an optionally signed integer within the `i32` value range.
#[verifier::opaque]
pub open spec fn spec_parse_int(s: Seq<char>, i: int) -> Option<(int, int)> {
    if 0 <= i && i < s.len() && s[i] == '-' {
        if i + 1 < s.len() && is_digit(s[i + 1]) {
            let r = spec_parse_digits(s, i + 1, 0);
            if r.0 <= 2147483648 {
                Some((-(r.0 as int), r.1))
            } else {
                None
            }
        } else {
            None
        }
    } else if 0 <= i && i < s.len() && is_digit(s[i]) {
        let r = spec_parse_digits(s, i, 0);
        if r.0 <= 2147483647 {
            Some((r.0 as int, r.1))
        } else {
            None
        }
    } else {
        None
    }
}

/// Round trip: parsing picks the encoded integer back out of any context
/// whose following character is not a digit.
pub proof fn lemma_rt_int(s: Seq<char>, n: int, i: int)
    requires
        -2147483648 <= n <= 2147483647,
        0 <= i,
        i + spec_enc_int(n).len() <= s.len(),
        s.subrange(i, i + spec_enc_int(n).len() as int) == spec_enc_int(n),
        i + spec_enc_int(n).len() == s.len() || !is_digit(s[i + spec_enc_int(n).len() as int]),
    ensures
        spec_parse_int(s, i) == Some::<(int, int)>((n, i + spec_enc_int(n).len())),
{
    reveal(spec_parse_int);
    let enc = spec_enc_int(n);
    if n < 0 {
        let m = (-n) as nat;
        let digits = spec_enc_nat(m);
        let dl = digits.len() as int;
        lemma_enc_nat_digits(m);
        assert(enc == seq!['-'] + digits);
        lemma_subrange_split(s, i, seq!['-'], digits);
        assert(s.subrange(i, i + 1)[0] == s[i]);
        assert(s[i] == '-');
        assert forall|k: int| i + 1 <= k < i + 1 + dl implies is_digit(#[trigger] s[k]) by {
            assert(s.subrange(i + 1, i + 1 + dl)[k - (i + 1)] == s[k]);
            assert(is_digit(digits[k - (i + 1)]));
        }
        assert(s.subrange(i + 1, i + 1 + dl)[0] == s[i + 1]);
        assert(s[i + 1] == digits[0]);
        assert(is_digit(s[i + 1]));
        lemma_parse_digits_run(s, i + 1, 0, digits.len());
        lemma_seq_val_enc_nat(m, 0);
        assert(seq_val(digits, 0) == 0 * pow10(digits.len()) + m);
        assert(spec_parse_digits(s, i + 1, 0) == (m, i + 1 + dl));
        assert(m <= 2147483648);
        assert(spec_parse_int(s, i) == Some::<(int, int)>((n, i + enc.len())));
    } else {
        let digits = spec_enc_nat(n as nat);
        let dl = digits.len() as int;
        lemma_enc_nat_digits(n as nat);
        assert(enc == digits);
        assert forall|k: int| i <= k < i + dl implies is_digit(#[trigger] s[k]) by {
            assert(s.subrange(i, i + dl)[k - i] == s[k]);
            assert(is_digit(digits[k - i]));
        }
        assert(s.subrange(i, i + dl)[0] == s[i]);
        assert(s[i] == digits[0]);
        assert(is_digit(s[i]));
        assert(s[i] != '-');
        lemma_parse_digits_run(s, i, 0, digits.len());
        lemma_seq_val_enc_nat(n as nat, 0);
        assert(seq_val(digits, 0) == 0 * pow10(digits.len()) + n);
        assert(spec_parse_digits(s, i, 0) == (n as nat, i + dl));
        assert(spec_parse_int(s, i) == Some::<(int, int)>((n, i + enc.len())));
    }
}

// ---------------------------------------------------------------- literals

/// Expects the fixed literal `lit` at position `i`.
pub open spec fn spec_expect(s: Seq<char>, i: int, lit: Seq<char>) -> Option<int> {
    if 0 <= i && i + lit.len() <= s.len() && s.subrange(i, i + lit.len() as int) == lit {
        Some(i + lit.len() as int)
    } else {
        None
    }
}

/// Splits a matched concatenation into its two matched halves.
pub proof fn lemma_subrange_split(s: Seq<char>, i: int, a: Seq<char>, b: Seq<char>)
    requires
        0 <= i,
        i + a.len() + b.len() <= s.len(),
        s.subrange(i, i + a.len() + b.len()) == a + b,
    ensures
        s.subrange(i, i + a.len() as int) == a,
        s.subrange(i + a.len(), i + a.len() + b.len()) == b,
{
    let n = a.len() as int;
    let m = b.len() as int;
    let ab = a + b;
    assert forall|k: int| 0 <= k < n implies #[trigger] s.subrange(i, i + n)[k] == a[k] by {
        assert(s.subrange(i, i + n + m)[k] == s[i + k]);
        assert(s.subrange(i, i + n)[k] == s[i + k]);
        assert(ab[k] == a[k]);
    }
    assert(s.subrange(i, i + n) =~= a);
    assert forall|k: int| 0 <= k < m implies #[trigger] s.subrange(i + n, i + n + m)[k] == b[k] by {
        assert(s.subrange(i, i + n + m)[n + k] == s[i + (n + k)]);
        assert(s.subrange(i + n, i + n + m)[k] == s[i + n + k]);
        assert(ab[n + k] == b[k]);
    }
    assert(s.subrange(i + n, i + n + m) =~= b);
}

// ---------------------------------------------------------------- exec

/// Emits the digit character for `d`.
pub fn digit_char_of(d: u32) -> (c: char)
    requires
        d < 10,
    ensures
        c == digit_char(d as int),
{
    if d == 0 {
        '0'
    } else if d == 1 {
        '1'
    } else if d == 2 {
        '2'
    } else if d == 3 {
        '3'
    } else if d == 4 {
        '4'
    } else if d == 5 {
        '5'
    } else if d == 6 {
        '6'
    } else if d == 7 {
        '7'
    } else if d == 8 {
        '8'
    } else {
        '9'
    }
}

/// Appends the literal text of `lit` to `out`.
pub fn push_lit(out: &mut Vec<char>, lit: &str)
    ensures
        final(out)@ == old(out)@ + lit@,
{
    let v = str_to_chars(lit);
    out.extend_from_slice(v.as_slice());
}

/// Appends the canonical JSON string encoding of `s` to `out`.
pub fn enc_str_into(out: &mut Vec<char>, s: &str)
    ensures
        final(out)@ == old(out)@ + spec_enc_str(s@),
{
    out.push('"');
    let v = str_to_chars(s);
    let mut k: usize = 0;
    while k < v.len()
        invariant
            v@ == s@,
            k <= v@.len(),
            out@ == old(out)@ + seq!['"'] + spec_enc_str_body(s@.subrange(0, k as int)),
        decreases v@.len() - k,
    {
        let c = v[k];
        if c == '"' || c == '\\' {
            out.push('\\');
        }
        out.push(c);
        proof {
            let single = seq![s@[k as int]];
            lemma_enc_str_body_append(s@.subrange(0, k as int), single);
            assert(single.drop_first() =~= Seq::<char>::empty());
            assert(spec_enc_str_body(Seq::<char>::empty()) == Seq::<char>::empty());
            assert(spec_enc_str_body(single) =~= esc_json(s@[k as int]));
            assert(s@.subrange(0, k + 1) =~= s@.subrange(0, k as int) + single);
            assert(out@ =~= old(out)@ + seq!['"'] + spec_enc_str_body(s@.subrange(0, k + 1)));
        }
        k = k + 1;
    }
    out.push('"');
    proof {
        assert(s@.subrange(0, s@.len() as int) =~= s@);
        assert(out@ =~= old(out)@ + spec_enc_str(s@));
    }
}

/// Appends the canonical digits of `n` to `out`.
pub fn enc_u32_into(out: &mut Vec<char>, n: u32)
    ensures
        final(out)@ == old(out)@ + spec_enc_nat(n as nat),
    decreases n,
{
    if n < 10 {
        out.push(digit_char_of(n));
        proof {
            assert(out@ =~= old(out)@ + spec_enc_nat(n as nat));
        }
    } else {
        enc_u32_into(out, n / 10);
        out.push(digit_char_of(n % 10));
        proof {
            assert(out@ =~= old(out)@ + spec_enc_nat(n as nat));
        }
    }
}

/// Appends the canonical decimal encoding of `n` to `out`.
pub fn enc_i32_into(out: &mut Vec<char>, n: i32)
    ensures
        final(out)@ == old(out)@ + spec_enc_int(n as int),
{
    if n < 0 {
        out.push('-');
        let m: u32 = (-(n as i64)) as u32;
        proof {
            assert(m as nat == (-(n as int)) as nat);
        }
        enc_u32_into(out, m);
        proof {
            assert(out@ =~= old(out)@ + spec_enc_int(n as int));
        }
    } else {
        enc_u32_into(out, n as u32);
        proof {
            assert(out@ =~= old(out)@ + spec_enc_int(n as int));
        }
    }
}

/// Matches the fixed literal `lit` at `i`.
pub fn parse_lit(s: &Vec<char>, i: usize, lit: &str) -> (r: Option<usize>)
    requires
        i <= s@.len(),
    ensures
        match r {
            Some(j) => spec_expect(s@, i as int, lit@) == Some(j as int) && i <= j <= s@.len(),
            None => spec_expect(s@, i as int, lit@) is None,
        },
{
    let lv = str_to_chars(lit);
    if s.len() - i >= lv.len() {
        if chars_match_at(s, i, &lv) {
            Some(i + lv.len())
        } else {
            None
        }
    } else {
        None
    }
}

/// Parses a JSON string body (after the opening quote).
pub fn parse_string_body(s: &Vec<char>, i: usize) -> (r: Option<(Vec<char>, usize)>)
    requires
        i <= s@.len(),
    ensures
        match r {
            Some(p) => spec_parse_str_body(s@, i as int) == Some((p.0@, p.1 as int)) && i < p.1
                <= s@.len(),
            None => spec_parse_str_body(s@, i as int) is None,
        },
    decreases s@.len() - i,
{
    proof {
        reveal(spec_parse_str_body);
    }
    if i >= s.len() {
        return None;
    }
    let c = s[i];
    if c == '"' {
        return Some((Vec::new(), i + 1));
    }
    if c == '\\' {
        if i + 1 >= s.len() {
            return None;
        }
        let e = s[i + 1];
        if e == '"' || e == '\\' || e == '/' {
            match parse_string_body(s, i + 2) {
                Some((mut t, j)) => {
                    let ghost t0 = t@;
                    t.insert(0, e);
                    proof {
                        assert(t@ =~= seq![s@[i + 1]] + t0);
                    }
                    Some((t, j))
                },
                None => None,
            }
        } else if e == 'b' || e == 'f' || e == 'n' || e == 'r' || e == 't' {
            let d: char = if e == 'b' {
                '\u{0008}'
            } else if e == 'f' {
                '\u{000C}'
            } else if e == 'n' {
                '\n'
            } else if e == 'r' {
                '\r'
            } else {
                '\t'
            };
            match parse_string_body(s, i + 2) {
                Some((mut t, j)) => {
                    let ghost t0 = t@;
                    t.insert(0, d);
                    proof {
                        assert(d == ctrl_escape_char(s@[i + 1]));
                        assert(t@ =~= seq![ctrl_escape_char(s@[i + 1])] + t0);
                    }
                    Some((t, j))
                },
                None => None,
            }
        } else if e == 'u' {
            match parse_u_escape(s, i + 2) {
                None => None,
                Some((d, j0)) => {
                    proof {
                        assert(past(i + 1, j0 as int, s@.len() as int) == j0 as int);
                    }
                    match parse_string_body(s, j0) {
                        Some((mut t, j)) => {
                            let ghost t0 = t@;
                            t.insert(0, d);
                            proof {
                                assert(t@ =~= seq![d] + t0);
                            }
                            Some((t, j))
                        },
                        None => None,
                    }
                },
            }
        } else {
            None
        }
    } else {
        match parse_string_body(s, i + 1) {
            Some((mut t, j)) => {
                let ghost t0 = t@;
                t.insert(0, c);
                proof {
                    assert(t@ =~= seq![s@[i as int]] + t0);
                }
                Some((t, j))
            },
            None => None,
        }
    }
}

/// Parses a quoted JSON string into an owned `String`.
pub fn parse_string(s: &Vec<char>, i: usize) -> (r: Option<(String, usize)>)
    requires
        i <= s@.len(),
    ensures
        match r {
            Some(p) => spec_parse_str(s@, i as int) == Some((p.0@, p.1 as int)) && i < p.1
                <= s@.len(),
            None => spec_parse_str(s@, i as int) is None,
        },
{
    if i < s.len() && s[i] == '"' {
        match parse_string_body(s, i + 1) {
            Some((t, j)) => Some((crate::strutil::string_from_chars(&t), j)),
            None => None,
        }
    } else {
        None
    }
}

/// Decides whether `c` is an ASCII digit.
fn is_digit_exec(c: char) -> (b: bool)
    ensures
        b == is_digit(c),
{
    c == '0' || c == '1' || c == '2' || c == '3' || c == '4' || c == '5' || c == '6' || c == '7'
        || c == '8' || c == '9'
}

/// Maps a digit character to its numeric value.
fn digit_of(c: char) -> (r: u32)
    requires
        is_digit(c),
    ensures
        r as int == digit_val(c),
        r < 10,
{
    if c == '0' {
        0
    } else if c == '1' {
        1
    } else if c == '2' {
        2
    } else if c == '3' {
        3
    } else if c == '4' {
        4
    } else if c == '5' {
        5
    } else if c == '6' {
        6
    } else if c == '7' {
        7
    } else if c == '8' {
        8
    } else {
        9
    }
}

/// Parses a signed integer in the `i32` range.
pub fn parse_int_val(s: &Vec<char>, i: usize) -> (r: Option<(i32, usize)>)
    requires
        i <= s@.len(),
    ensures
        match r {
            Some(p) => spec_parse_int(s@, i as int) == Some((p.0 as int, p.1 as int)) && i < p.1
                <= s@.len(),
            None => spec_parse_int(s@, i as int) is None,
        },
{
    proof {
        reveal(spec_parse_int);
    }
    if i >= s.len() {
        return None;
    }
    let c = s[i];
    if c == '-' {
        if i + 1 < s.len() && is_digit_exec(s[i + 1]) {
            proof {
                lemma_parse_digits_pos(s@, i + 1, 0);
            }
            match parse_digits_run(s, i + 1) {
                Some((v, j)) => {
                    if v <= 2147483648 {
                        proof {
                            assert(is_digit(s@[i + 1]));
                            assert(spec_parse_digits(s@, i + 1, 0) == spec_parse_digits(
                                s@,
                                i + 2,
                                digit_val(s@[i + 1]) as nat,
                            ));
                            lemma_parse_digits_pos(s@, i + 2, digit_val(s@[i + 1]) as nat);
                        }
                        let n: i32 = (-(v as i64)) as i32;
                        proof {
                            assert(n as int == -(v as int));
                        }
                        Some((n, j))
                    } else {
                        None
                    }
                },
                None => None,
            }
        } else {
            None
        }
    } else if is_digit_exec(c) {
        proof {
            assert(is_digit(s@[i as int]));
            assert(spec_parse_digits(s@, i as int, 0) == spec_parse_digits(
                s@,
                i + 1,
                digit_val(s@[i as int]) as nat,
            ));
            lemma_parse_digits_pos(s@, i + 1, digit_val(s@[i as int]) as nat);
        }
        match parse_digits_run(s, i) {
            Some((v, j)) => {
                if v <= 2147483647 {
                    Some((v as i32, j))
                } else {
                    None
                }
            },
            None => None,
        }
    } else {
        None
    }
}

/// Consumes a maximal digit run; `None` reports a value past the `i32`
/// magnitude cap, on which the integer parse fails either way.
fn parse_digits_run(s: &Vec<char>, i: usize) -> (r: Option<(u64, usize)>)
    requires
        i <= s@.len(),
    ensures
        ({
            let fold = spec_parse_digits(s@, i as int, 0);
            match r {
                Some(p) => fold.0 <= 2147483648 && p.0 as nat == fold.0 && p.1 as int == fold.1
                    && i <= p.1 <= s@.len(),
                None => fold.0 > 2147483648,
            }
        }),
{
    let mut acc: u64 = 0;
    let mut k: usize = i;
    while k < s.len()
        invariant
            i <= k <= s@.len(),
            acc <= 2147483648,
            spec_parse_digits(s@, i as int, 0) == spec_parse_digits(s@, k as int, acc as nat),
        decreases s@.len() - k,
    {
        let c = s[k];
        if !is_digit_exec(c) {
            proof {
                assert(spec_parse_digits(s@, k as int, acc as nat) == (acc as nat, k as int));
            }
            return Some((acc, k));
        }
        let d = digit_of(c);
        let next: u64 = acc * 10 + (d as u64);
        proof {
            assert(is_digit(s@[k as int]));
            assert(next as nat == acc as nat * 10 + digit_val(s@[k as int]) as nat);
            assert(spec_parse_digits(s@, k as int, acc as nat) == spec_parse_digits(
                s@,
                k + 1,
                next as nat,
            ));
        }
        if next > 2147483648 {
            proof {
                lemma_parse_digits_ge(s@, k + 1, next as nat);
            }
            return None;
        }
        acc = next;
        k = k + 1;
    }
    proof {
        assert(spec_parse_digits(s@, k as int, acc as nat) == (acc as nat, k as int));
    }
    Some((acc, k))
}

/// Relies on `char::from_u32`: `Some` exactly for valid Unicode scalar
/// values, returning the character with that value.
#[verifier::external_body]
fn char_from_code(u: u32) -> (r: Option<char>)
    ensures
        r matches Some(c) ==> c == ((u as int) as char),
        r is Some <==> (u < 0xD800 || (0xE000 <= u && u <= 0x10FFFF)),
{
    char::from_u32(u)
}

/// Maps a hexadecimal digit character to its value.
fn hex_of(c: char) -> (r: Option<u32>)
    ensures
        match r {
            Some(v) => is_hex(c) && v as int == hex_val(c) && v < 16,
            None => !is_hex(c),
        },
{
    if c == '0' {
        Some(0)
    } else if c == '1' {
        Some(1)
    } else if c == '2' {
        Some(2)
    } else if c == '3' {
        Some(3)
    } else if c == '4' {
        Some(4)
    } else if c == '5' {
        Some(5)
    } else if c == '6' {
        Some(6)
    } else if c == '7' {
        Some(7)
    } else if c == '8' {
        Some(8)
    } else if c == '9' {
        Some(9)
    } else if c == 'a' || c == 'A' {
        Some(10)
    } else if c == 'b' || c == 'B' {
        Some(11)
    } else if c == 'c' || c == 'C' {
        Some(12)
    } else if c == 'd' || c == 'D' {
        Some(13)
    } else if c == 'e' || c == 'E' {
        Some(14)
    } else if c == 'f' || c == 'F' {
        Some(15)
    } else {
        None
    }
}

/// Reads the four hex digits at `i`.
fn hex4_at(s: &Vec<char>, i: usize) -> (r: Option<u32>)
    requires
        i <= s@.len(),
    ensures
        match r {
            Some(v) => spec_hex4(s@, i as int) == Some(v as int) && v <= 0xFFFF,
            None => spec_hex4(s@, i as int) is None,
        },
{
    if s.len() - i >= 4 {
        let a = match hex_of(s[i]) {
            Some(v) => v,
            None => {
                return None;
            },
        };
        let b = match hex_of(s[i + 1]) {
            Some(v) => v,
            None => {
                return None;
            },
        };
        let c = match hex_of(s[i + 2]) {
            Some(v) => v,
            None => {
                return None;
            },
        };
        let d = match hex_of(s[i + 3]) {
            Some(v) => v,
            None => {
                return None;
            },
        };
        Some(a * 4096 + b * 256 + c * 16 + d)
    } else {
        None
    }
}

/// Reads a `\uXXXX` escape (after the `\u`), surrogate pairs included.
fn parse_u_escape(s: &Vec<char>, i: usize) -> (r: Option<(char, usize)>)
    requires
        i <= s@.len(),
    ensures
        match r {
            Some(p) => spec_parse_u_escape(s@, i as int) == Some((p.0, p.1 as int)) && i < p.1
                <= s@.len(),
            None => spec_parse_u_escape(s@, i as int) is None,
        },
{
    let limit = s.len();
    match hex4_at(s, i) {
        None => None,
        Some(n) => {
            if 0xD800 <= n && n <= 0xDBFF {
                proof {
                    assert(i + 4 <= s@.len());
                }
                if s.len() - i >= 6 && s[i + 4] == '\\' && s[i + 5] == 'u' {
                    match hex4_at(s, i + 6) {
                        None => None,
                        Some(m) => {
                            if 0xDC00 <= m && m <= 0xDFFF {
                                proof {
                                    assert(i + 10 <= s@.len());
                                }
                                let code: u32 = 0x10000 + (n - 0xD800) * 1024 + (m - 0xDC00);
                                match char_from_code(code) {
                                    Some(c) => {
                                        proof {
                                            assert(code as int == 0x10000 + (n as int - 0xD800)
                                                * 1024 + (m as int - 0xDC00));
                                        }
                                        Some((c, i + 10))
                                    },
                                    None => {
                                        proof {
                                            assert(false);
                                        }
                                        None
                                    },
                                }
                            } else {
                                None
                            }
                        },
                    }
                } else {
                    None
                }
            } else if 0xDC00 <= n && n <= 0xDFFF {
                None
            } else {
                proof {
                    assert(i + 4 <= limit);
                }
                match char_from_code(n) {
                    Some(c) => Some((c, i + 4)),
                    None => {
                        proof {
                            assert(false);
                        }
                        None
                    },
                }
            }
        },
    }
}

/// Skips to the first non-whitespace character at or after `i`.
pub fn skip_ws(s: &Vec<char>, i: usize) -> (j: usize)
    requires
        i <= s@.len(),
    ensures
        j as int == spec_skip_ws(s@, i as int),
        i <= j <= s@.len(),
{
    let mut k: usize = i;
    while k < s.len() && (s[k] == ' ' || s[k] == '\t' || s[k] == '\n' || s[k] == '\r')
        invariant
            i <= k <= s@.len(),
            spec_skip_ws(s@, i as int) == spec_skip_ws(s@, k as int),
        decreases s@.len() - k,
    {
        k = k + 1;
    }
    k
}

// ---------------------------------------------------------------- skipping

/// A character that can occur in a JSON number token.
pub open spec fn is_number_char(c: char) -> bool {
    is_digit(c) || c == '-' || c == '+' || c == '.' || c == 'e' || c == 'E'
}

/// The position right after the number token starting at `i`.
pub open spec fn spec_skip_number(s: Seq<char>, i: int) -> int
    decreases s.len() - i,
{
    if 0 <= i && i < s.len() && is_number_char(s[i]) {
        spec_skip_number(s, i + 1)
    } else {
        i
    }
}

proof fn lemma_skip_number_bounds(s: Seq<char>, i: int)
    requires
        0 <= i <= s.len(),
    ensures
        i <= spec_skip_number(s, i) <= s.len(),
    decreases s.len() - i,
{
    if 0 <= i && i < s.len() && is_number_char(s[i]) {
        lemma_skip_number_bounds(s, i + 1);
    }
}

/// Skips over one JSON value of any shape, whitespace included; `None`
/// when no value starts at `i`.
pub open spec fn spec_skip_value(s: Seq<char>, i: int) -> Option<int>
    decreases s.len() - i, 0int,
{
    if i < 0 || i >= s.len() {
        None
    } else if s[i] == '"' {
        match spec_parse_str(s, i) {
            Some((t, j)) => Some(j),
            None => None,
        }
    } else if s[i] == '{' {
        let j = at_least(i + 1, spec_skip_ws(s, i + 1), s.len() as int);
        if j < s.len() && s[j] == '}' {
            Some(j + 1)
        } else {
            spec_skip_members(s, j)
        }
    } else if s[i] == '[' {
        let j = at_least(i + 1, spec_skip_ws(s, i + 1), s.len() as int);
        if j < s.len() && s[j] == ']' {
            Some(j + 1)
        } else {
            spec_skip_elems(s, j)
        }
    } else if s[i] == 't' {
        spec_expect(s, i, "true"@)
    } else if s[i] == 'f' {
        spec_expect(s, i, "false"@)
    } else if s[i] == 'n' {
        spec_expect(s, i, "null"@)
    } else if s[i] == '-' || is_digit(s[i]) {
        Some(spec_skip_number(s, i))
    } else {
        None
    }
}

/// Skips the members of an object, from the first key through the `}`.
pub open spec fn spec_skip_members(s: Seq<char>, i: int) -> Option<int>
    decreases s.len() - i, 1int,
{
    if i < 0 || i >= s.len() {
        None
    } else {
        match spec_parse_str(s, i) {
            None => None,
            Some((key, j0)) => {
                let j = past(i, j0, s.len() as int);
                let j2 = at_least(j, spec_skip_ws(s, j), s.len() as int);
                if j2 < s.len() && s[j2] == ':' {
                    let v = at_least(j2 + 1, spec_skip_ws(s, j2 + 1), s.len() as int);
                    match spec_skip_value(s, v) {
                        None => None,
                        Some(k0) => {
                            let k = past(v, k0, s.len() as int);
                            let k2 = at_least(k, spec_skip_ws(s, k), s.len() as int);
                            if k2 < s.len() && s[k2] == ',' {
                                let m = at_least(k2 + 1, spec_skip_ws(s, k2 + 1), s.len() as int);
                                spec_skip_members(s, m)
                            } else if k2 < s.len() && s[k2] == '}' {
                                Some(k2 + 1)
                            } else {
                                None
                            }
                        },
                    }
                } else {
                    None
                }
            },
        }
    }
}

/// Skips the elements of an array, from the first element through the `]`.
pub open spec fn spec_skip_elems(s: Seq<char>, i: int) -> Option<int>
    decreases s.len() - i, 1int,
{
    if i < 0 || i > s.len() {
        None
    } else {
        match spec_skip_value(s, i) {
            None => None,
            Some(j0) => {
                let j = past(i, j0, s.len() as int);
                let j2 = at_least(j, spec_skip_ws(s, j), s.len() as int);
                if j2 < s.len() && s[j2] == ',' {
                    let m = at_least(j2 + 1, spec_skip_ws(s, j2 + 1), s.len() as int);
                    spec_skip_elems(s, m)
                } else if j2 < s.len() && s[j2] == ']' {
                    Some(j2 + 1)
                } else {
                    None
                }
            },
        }
    }
}

/// Skips a number token.
fn skip_number_run(s: &Vec<char>, i: usize) -> (j: usize)
    requires
        i <= s@.len(),
    ensures
        j as int == spec_skip_number(s@, i as int),
        i <= j <= s@.len(),
{
    let mut k: usize = i;
    while k < s.len() && (s[k] == '-' || s[k] == '+' || s[k] == '.' || s[k] == 'e' || s[k] == 'E'
        || is_digit_exec(s[k]))
        invariant
            i <= k <= s@.len(),
            spec_skip_number(s@, i as int) == spec_skip_number(s@, k as int),
        decreases s@.len() - k,
    {
        k = k + 1;
    }
    k
}

/// Skips over one JSON value of any shape.
pub fn skip_value(s: &Vec<char>, i: usize) -> (r: Option<usize>)
    requires
        i <= s@.len(),
    ensures
        match r {
            Some(j) => spec_skip_value(s@, i as int) == Some(j as int) && i < j <= s@.len(),
            None => spec_skip_value(s@, i as int) is None,
        },
    decreases s@.len() - i, 0int,
{
    if i >= s.len() {
        return None;
    }
    let c = s[i];
    if c == '"' {
        match parse_string(s, i) {
            Some((t, j)) => Some(j),
            None => None,
        }
    } else if c == '{' {
        let j = skip_ws(s, i + 1);
        proof {
            assert(at_least(i + 1, spec_skip_ws(s@, i + 1), s@.len() as int) == j as int);
        }
        if j < s.len() && s[j] == '}' {
            Some(j + 1)
        } else {
            skip_members(s, j)
        }
    } else if c == '[' {
        let j = skip_ws(s, i + 1);
        proof {
            assert(at_least(i + 1, spec_skip_ws(s@, i + 1), s@.len() as int) == j as int);
        }
        if j < s.len() && s[j] == ']' {
            Some(j + 1)
        } else {
            skip_elems(s, j)
        }
    } else if c == 't' {
        proof {
            reveal_strlit("true");
        }
        parse_lit(s, i, "true")
    } else if c == 'f' {
        proof {
            reveal_strlit("false");
        }
        parse_lit(s, i, "false")
    } else if c == 'n' {
        proof {
            reveal_strlit("null");
        }
        parse_lit(s, i, "null")
    } else if c == '-' || is_digit_exec(c) {
        let j = skip_number_run(s, i);
        proof {
            assert(is_number_char(s@[i as int]));
            assert(spec_skip_number(s@, i as int) == spec_skip_number(s@, i + 1));
            lemma_skip_number_bounds(s@, i + 1);
        }
        Some(j)
    } else {
        None
    }
}

/// Skips object members through the closing `}`.
fn skip_members(s: &Vec<char>, i: usize) -> (r: Option<usize>)
    requires
        i <= s@.len(),
    ensures
        match r {
            Some(j) => spec_skip_members(s@, i as int) == Some(j as int) && i < j <= s@.len(),
            None => spec_skip_members(s@, i as int) is None,
        },
    decreases s@.len() - i, 1int,
{
    if i >= s.len() {
        return None;
    }
    let (key, j0) = match parse_string(s, i) {
        Some(p) => p,
        None => {
            return None;
        },
    };
    proof {
        assert(past(i as int, j0 as int, s@.len() as int) == j0 as int);
    }
    let j2 = skip_ws(s, j0);
    proof {
        assert(at_least(j0 as int, spec_skip_ws(s@, j0 as int), s@.len() as int) == j2 as int);
    }
    if j2 < s.len() && s[j2] == ':' {
        let v = skip_ws(s, j2 + 1);
        proof {
            assert(at_least(j2 + 1, spec_skip_ws(s@, j2 + 1), s@.len() as int) == v as int);
        }
        match skip_value(s, v) {
            None => None,
            Some(k0) => {
                proof {
                    assert(past(v as int, k0 as int, s@.len() as int) == k0 as int);
                }
                let k2 = skip_ws(s, k0);
                proof {
                    assert(at_least(k0 as int, spec_skip_ws(s@, k0 as int), s@.len() as int) == k2
                        as int);
                }
                if k2 < s.len() && s[k2] == ',' {
                    let m = skip_ws(s, k2 + 1);
                    proof {
                        assert(at_least(k2 + 1, spec_skip_ws(s@, k2 + 1), s@.len() as int) == m
                            as int);
                    }
                    skip_members(s, m)
                } else if k2 < s.len() && s[k2] == '}' {
                    Some(k2 + 1)
                } else {
                    None
                }
            },
        }
    } else {
        None
    }
}

/// Skips array elements through the closing `]`.
fn skip_elems(s: &Vec<char>, i: usize) -> (r: Option<usize>)
    requires
        i <= s@.len(),
    ensures
        match r {
            Some(j) => spec_skip_elems(s@, i as int) == Some(j as int) && i < j <= s@.len(),
            None => spec_skip_elems(s@, i as int) is None,
        },
    decreases s@.len() - i, 1int,
{
    match skip_value(s, i) {
        None => None,
        Some(j0) => {
            proof {
                assert(past(i as int, j0 as int, s@.len() as int) == j0 as int);
            }
            let j2 = skip_ws(s, j0);
            proof {
                assert(at_least(j0 as int, spec_skip_ws(s@, j0 as int), s@.len() as int) == j2
                    as int);
            }
            if j2 < s.len() && s[j2] == ',' {
                let m = skip_ws(s, j2 + 1);
                proof {
                    assert(at_least(j2 + 1, spec_skip_ws(s@, j2 + 1), s@.len() as int) == m
                        as int);
                }
                skip_elems(s, m)
            } else if j2 < s.len() && s[j2] == ']' {
                Some(j2 + 1)
            } else {
                None
            }
        },
    }
}

} // verus!
