//! The wire codec: each response record travels as one complete JSON object
//! followed by a newline separator, and a request body is one JSON object
//! holding the prompt.
//!
//! The format is fixed: `{"text":...,"tokens":...,"latency":{"load":...,
//! "generation":...},"done":...}` with the latency figures written as
//! seconds with six decimal places (their microsecond readings split at one
//! million). Decoding inverts encoding exactly: see
//! [`lemma_response_round_trip`].

use vstd::prelude::*;

use crate::common::{TextGenLatency, TextGenRequest, TextGenResponse, TextGenResponseV};

verus! {

/// A decimal digit as a character.
pub open spec fn digit_char(d: nat) -> char
    recommends
        d < 10,
{
    ((d + 48) as u8) as char
}

/// Whether a character is a decimal digit.
pub open spec fn is_digit(c: char) -> bool {
    48 <= c as u32 <= 57
}

/// The numeric value of a decimal digit character.
pub open spec fn digit_val(c: char) -> nat
    recommends
        is_digit(c),
{
    (c as u32 - 48) as nat
}

/// A hexadecimal digit (lower case) as a character.
pub open spec fn hex_char(d: nat) -> char
    recommends
        d < 16,
{
    if d < 10 {
        digit_char(d)
    } else {
        ((d - 10 + 97) as u8) as char
    }
}

/// Whether a character is a hexadecimal digit as this codec writes them.
pub open spec fn is_hex(c: char) -> bool {
    is_digit(c) || 97 <= c as u32 <= 102
}

/// The numeric value of a hexadecimal digit character.
pub open spec fn hex_val(c: char) -> nat
    recommends
        is_hex(c),
{
    if is_digit(c) {
        digit_val(c)
    } else {
        (c as u32 - 87) as nat
    }
}

/// The decimal digits of `n`, most significant first, no leading zeros.
pub open spec fn dec_digits(n: nat) -> Seq<char>
    decreases n,
{
    if n < 10 {
        seq![digit_char(n)]
    } else {
        dec_digits(n / 10).push(digit_char(n % 10))
    }
}

/// The numeric value of a digit string, read left to right.
pub open spec fn val_of(ds: Seq<char>) -> nat
    decreases ds.len(),
{
    if ds.len() == 0 {
        0
    } else {
        val_of(ds.drop_last()) * 10 + digit_val(ds.last())
    }
}

/// Whether every character of `ds` is a decimal digit.
pub open spec fn all_digits(ds: Seq<char>) -> bool {
    forall|i: int| 0 <= i < ds.len() ==> is_digit(#[trigger] ds[i])
}

/// The JSON escape of one character: quote and backslash get a backslash,
/// control characters become `\u00..`, everything else stands for itself.
pub open spec fn esc_char(c: char) -> Seq<char> {
    if c == '"' {
        seq!['\\', '"']
    } else if c == '\\' {
        seq!['\\', '\\']
    } else if (c as u32) < 32 {
        seq!['\\', 'u', '0', '0', hex_char((c as u32 / 16) as nat), hex_char((c as u32 % 16) as nat)]
    } else {
        seq![c]
    }
}

/// The JSON escape of a string body, character by character.
pub open spec fn esc(s: Seq<char>) -> Seq<char>
    decreases s.len(),
{
    if s.len() == 0 {
        Seq::empty()
    } else {
        esc_char(s[0]) + esc(s.skip(1))
    }
}

/// The decimal rendering of a microsecond reading as seconds with six
/// decimal places.
pub open spec fn micros_chars(m: u64) -> Seq<char> {
    dec_digits((m as nat) / 1000000) + seq!['.'] + frac6((m as nat) % 1000000)
}

/// Six zero-padded decimal digits for a value below one million.
pub open spec fn frac6(r: nat) -> Seq<char>
    recommends
        r < 1000000,
{
    seq![
        digit_char(r / 100000 % 10),
        digit_char(r / 10000 % 10),
        digit_char(r / 1000 % 10),
        digit_char(r / 100 % 10),
        digit_char(r / 10 % 10),
        digit_char(r % 10),
    ]
}

/// The JSON object encoding of one response record.
pub open spec fn enc_response(r: TextGenResponseV) -> Seq<char> {
    "{\"text\":\""@ + esc(r.text) + "\""@ + ",\"tokens\":"@ + dec_digits(r.tokens as nat)
        + ",\"latency\":{\"load\":"@ + micros_chars(r.latency.load) + ",\"generation\":"@
        + micros_chars(r.latency.generation) + "},\"done\":"@ + (if r.done {
        "true"@
    } else {
        "false"@
    }) + "}"@
}

/// The JSON object encoding of one request body.
pub open spec fn enc_request(prompt: Seq<char>) -> Seq<char> {
    "{\"prompt\":\""@ + esc(prompt) + "\""@ + "}"@
}

/// Successful literal match: `l` stands at position `i` of `s`.
pub open spec fn expect_at(s: Seq<char>, i: int, l: Seq<char>) -> Option<int> {
    if i + l.len() <= s.len() && s.subrange(i, i + l.len()) == l {
        Some(i + l.len())
    } else {
        None
    }
}

/// The end of the run of decimal digits that starts at position `i`.
pub open spec fn digit_run_end(s: Seq<char>, i: int) -> int
    decreases s.len() - i,
{
    if 0 <= i < s.len() && is_digit(s[i]) {
        digit_run_end(s, i + 1)
    } else {
        i
    }
}

/// Parse the decimal number at position `i`: at least one digit, read
/// maximally, refused when its value exceeds `max`.
pub open spec fn parse_number_at(s: Seq<char>, i: int, max: nat) -> Option<(nat, int)> {
    let e = digit_run_end(s, i);
    if e == i {
        None
    } else {
        let v = val_of(s.subrange(i, e));
        if v > max {
            None
        } else {
            Some((v, e))
        }
    }
}

/// Parse exactly six decimal digits at position `i` into their value.
pub open spec fn parse_frac6_at(s: Seq<char>, i: int) -> Option<(nat, int)> {
    if i + 6 <= s.len() && is_digit(s[i]) && is_digit(s[i + 1]) && is_digit(s[i + 2]) && is_digit(
        s[i + 3],
    ) && is_digit(s[i + 4]) && is_digit(s[i + 5]) {
        Some(
            (
                digit_val(s[i]) * 100000 + digit_val(s[i + 1]) * 10000 + digit_val(s[i + 2]) * 1000
                    + digit_val(s[i + 3]) * 100 + digit_val(s[i + 4]) * 10 + digit_val(s[i + 5]),
                i + 6,
            ),
        )
    } else {
        None
    }
}

/// Parse a latency figure — seconds with six decimal places — back into
/// microseconds; refused when it does not fit a microsecond counter.
pub open spec fn parse_micros_at(s: Seq<char>, i: int) -> Option<(u64, int)> {
    match parse_number_at(s, i, 0xffff_ffff_ffff_ffff) {
        Some((whole, j)) => match expect_at(s, j, "."@) {
            Some(k) => match parse_frac6_at(s, k) {
                Some((frac, e)) => if whole * 1000000 + frac <= 0xffff_ffff_ffff_ffff {
                    Some(((whole * 1000000 + frac) as u64, e))
                } else {
                    None
                },
                None => None,
            },
            None => None,
        },
        None => None,
    }
}

/// Parse a JSON string body at position `i`, up to and including the closing
/// quote, undoing exactly the escapes [`esc_char`] writes.
pub open spec fn parse_body_at(s: Seq<char>, i: int) -> Option<(Seq<char>, int)>
    decreases s.len() - i,
{
    if i < 0 || i >= s.len() {
        None
    } else if s[i] == '"' {
        Some((Seq::empty(), i + 1))
    } else if s[i] == '\\' {
        if i + 2 <= s.len() && (s[i + 1] == '"' || s[i + 1] == '\\') {
            match parse_body_at(s, i + 2) {
                Some((t, j)) => Some((seq![s[i + 1]] + t, j)),
                None => None,
            }
        } else if i + 6 <= s.len() && s[i + 1] == 'u' && s[i + 2] == '0' && s[i + 3] == '0'
            && is_hex(s[i + 4]) && is_hex(s[i + 5]) && hex_val(s[i + 4]) * 16 + hex_val(s[i + 5])
            < 32 {
            match parse_body_at(s, i + 6) {
                Some((t, j)) => Some(
                    (seq![((hex_val(s[i + 4]) * 16 + hex_val(s[i + 5])) as u8) as char] + t, j),
                ),
                None => None,
            }
        } else {
            None
        }
    } else {
        match parse_body_at(s, i + 1) {
            Some((t, j)) => Some((seq![s[i]] + t, j)),
            None => None,
        }
    }
}

/// Parse `true` or `false` at position `i`.
pub open spec fn parse_bool_at(s: Seq<char>, i: int) -> Option<(bool, int)> {
    match expect_at(s, i, "true"@) {
        Some(j) => Some((true, j)),
        None => match expect_at(s, i, "false"@) {
            Some(j) => Some((false, j)),
            None => None,
        },
    }
}

/// Decode one response record from a whole JSON object; `None` on any
/// deviation from the format [`enc_response`] writes.
pub open spec fn dec_response(s: Seq<char>) -> Option<TextGenResponseV> {
    match expect_at(s, 0, "{\"text\":\""@) {
        Some(i1) => match parse_body_at(s, i1) {
            Some((text, i2)) => match expect_at(s, i2, ",\"tokens\":"@) {
                Some(i3) => match parse_number_at(s, i3, usize::MAX as nat) {
                    Some((tokens, i4)) => match expect_at(s, i4, ",\"latency\":{\"load\":"@) {
                        Some(i5) => match parse_micros_at(s, i5) {
                            Some((load, i6)) => match expect_at(s, i6, ",\"generation\":"@) {
                                Some(i7) => match parse_micros_at(s, i7) {
                                    Some((generation, i8)) => match expect_at(
                                        s,
                                        i8,
                                        "},\"done\":"@,
                                    ) {
                                        Some(i9) => match parse_bool_at(s, i9) {
                                            Some((done, i10)) => match expect_at(s, i10, "}"@) {
                                                Some(i11) => if i11 == s.len() {
                                                    Some(
                                                        TextGenResponseV {
                                                            text,
                                                            tokens: tokens as usize,
                                                            latency: TextGenLatency {
                                                                load,
                                                                generation,
                                                            },
                                                            done,
                                                        },
                                                    )
                                                } else {
                                                    None
                                                },
                                                None => None,
                                            },
                                            None => None,
                                        },
                                        None => None,
                                    },
                                    None => None,
                                },
                                None => None,
                            },
                            None => None,
                        },
                        None => None,
                    },
                    None => None,
                },
                None => None,
            },
            None => None,
        },
        None => None,
    }
}

/// Decode one request body; `None` on any deviation from the format
/// [`enc_request`] writes.
pub open spec fn dec_request(s: Seq<char>) -> Option<Seq<char>> {
    match expect_at(s, 0, "{\"prompt\":\""@) {
        Some(i1) => match parse_body_at(s, i1) {
            Some((prompt, i2)) => match expect_at(s, i2, "}"@) {
                Some(i3) => if i3 == s.len() {
                    Some(prompt)
                } else {
                    None
                },
                None => None,
            },
            None => None,
        },
        None => None,
    }
}

/// A decimal digit character is a digit and carries its value.
proof fn lemma_digit_char(d: nat)
    requires
        d < 10,
    ensures
        is_digit(digit_char(d)),
        digit_val(digit_char(d)) == d,
        !(digit_char(d) == '"'),
        !(digit_char(d) == '\\'),
        digit_char(d) as u32 >= 32,
{
}

/// A hexadecimal digit character is one and carries its value.
proof fn lemma_hex_char(d: nat)
    requires
        d < 16,
    ensures
        is_hex(hex_char(d)),
        hex_val(hex_char(d)) == d,
{
}

/// The decimal rendering of `n` is a non-empty digit string whose value
/// is `n` again.
proof fn lemma_dec_digits(n: nat)
    ensures
        all_digits(dec_digits(n)),
        dec_digits(n).len() >= 1,
        val_of(dec_digits(n)) == n,
    decreases n,
{
    if n < 10 {
        lemma_digit_char(n);
        assert(dec_digits(n) =~= seq![digit_char(n)]);
        assert(dec_digits(n).drop_last() =~= Seq::<char>::empty());
        assert(val_of(Seq::<char>::empty()) == 0);
        assert(val_of(dec_digits(n)) == digit_val(digit_char(n)));
    } else {
        lemma_dec_digits(n / 10);
        lemma_digit_char(n % 10);
        let ds = dec_digits(n / 10);
        assert(dec_digits(n) == ds.push(digit_char(n % 10)));
        assert(ds.push(digit_char(n % 10)).drop_last() =~= ds);
        assert(val_of(dec_digits(n)) == val_of(ds) * 10 + digit_val(digit_char(n % 10)));
        assert forall|i: int| 0 <= i < dec_digits(n).len() implies is_digit(
            #[trigger] dec_digits(n)[i],
        ) by {
            if i < ds.len() {
                assert(dec_digits(n)[i] == ds[i]);
            }
        }
    }
}

/// A digit run ends exactly where the digits end.
proof fn lemma_digit_run(s: Seq<char>, i: int, j: int)
    requires
        0 <= i <= j <= s.len(),
        forall|k: int| i <= k < j ==> is_digit(#[trigger] s[k]),
        j == s.len() || !is_digit(s[j]),
    ensures
        digit_run_end(s, i) == j,
    decreases j - i,
{
    if i < j {
        lemma_digit_run(s, i + 1, j);
    }
}

/// Where the decimal rendering of `n` stands at `i`, followed by a
/// non-digit, the maximal digit run parses back to exactly `n`.
proof fn lemma_parse_number(s: Seq<char>, i: int, n: nat, max: nat)
    requires
        0 <= i,
        i + dec_digits(n).len() <= s.len(),
        s.subrange(i, i + dec_digits(n).len() as int) == dec_digits(n),
        i + dec_digits(n).len() == s.len() || !is_digit(s[i + dec_digits(n).len()]),
        n <= max,
    ensures
        parse_number_at(s, i, max) == Some((n, i + dec_digits(n).len())),
{
    let ds = dec_digits(n);
    lemma_dec_digits(n);
    let j = i + ds.len();
    assert forall|k: int| i <= k < j implies is_digit(#[trigger] s[k]) by {
        assert(s[k] == s.subrange(i, j)[k - i]);
        assert(is_digit(ds[k - i]));
    }
    lemma_digit_run(s, i, j);
    assert(val_of(s.subrange(i, j)) == n);
}

/// Reading the six zero-padded digits of a value below one million gives
/// that value back.
proof fn lemma_parse_frac6(s: Seq<char>, i: int, r: nat)
    requires
        0 <= i,
        r < 1000000,
        i + 6 <= s.len(),
        s.subrange(i, i + 6) == frac6(r),
    ensures
        parse_frac6_at(s, i) == Some((r, i + 6)),
{
    assert forall|k: int| 0 <= k < 6 implies s[i + k] == frac6(r)[k] by {
        assert(s.subrange(i, i + 6)[k] == s[i + k]);
    }
    lemma_digit_char(r / 100000 % 10);
    lemma_digit_char(r / 10000 % 10);
    lemma_digit_char(r / 1000 % 10);
    lemma_digit_char(r / 100 % 10);
    lemma_digit_char(r / 10 % 10);
    lemma_digit_char(r % 10);
    assert(r / 100000 % 10 * 100000 + r / 10000 % 10 * 10000 + r / 1000 % 10 * 1000 + r / 100 % 10
        * 100 + r / 10 % 10 * 10 + r % 10 == r) by (nonlinear_arith)
        requires
            r < 1000000,
    ;
}

/// Reading a latency figure back from its rendering gives the microsecond
/// count again.
proof fn lemma_parse_micros(s: Seq<char>, i: int, m: u64)
    requires
        0 <= i,
        i + micros_chars(m).len() <= s.len(),
        s.subrange(i, i + micros_chars(m).len() as int) == micros_chars(m),
    ensures
        parse_micros_at(s, i) == Some((m, i + micros_chars(m).len())),
{
    let whole = (m as nat) / 1000000;
    let frac = (m as nat) % 1000000;
    let wd = dec_digits(whole);
    let e = i + micros_chars(m).len();
    lemma_dec_digits(whole);
    assert(micros_chars(m) == wd + seq!['.'] + frac6(frac));
    assert forall|k: int| i <= k < e implies s[k] == micros_chars(m)[k - i] by {
        assert(s.subrange(i, e)[k - i] == s[k]);
    }
    assert(s.subrange(i, i + wd.len() as int) =~= wd);
    assert(s[i + wd.len()] == '.');
    reveal_strlit(".");
    assert(!is_digit('.'));
    lemma_parse_number(s, i, whole, 0xffff_ffff_ffff_ffff);
    let j = i + wd.len();
    assert(s.subrange(j, j + 1) =~= "."@);
    assert(expect_at(s, j, "."@) == Some(j + 1));
    assert(s.subrange(j + 1, j + 1 + 6) =~= frac6(frac));
    lemma_parse_frac6(s, j + 1, frac);
    assert(whole * 1000000 + frac == m);
    assert(j + 1 + 6 == e);
}

/// Escaping distributes over concatenation.
proof fn lemma_esc_append(a: Seq<char>, b: Seq<char>)
    ensures
        esc(a + b) == esc(a) + esc(b),
    decreases a.len(),
{
    if a.len() == 0 {
        assert(a + b =~= b);
        assert(esc(a) =~= Seq::<char>::empty());
        assert(esc(a) + esc(b) =~= esc(b));
    } else {
        assert((a + b)[0] == a[0]);
        assert((a + b).skip(1) =~= a.skip(1) + b);
        lemma_esc_append(a.skip(1), b);
        assert(esc(a + b) =~= esc_char(a[0]) + (esc(a.skip(1)) + esc(b)));
        assert(esc_char(a[0]) + esc(a.skip(1)) + esc(b) =~= esc_char(a[0]) + (esc(a.skip(1))
            + esc(b)));
    }
}

/// Parsing a string body undoes escaping: where the escape of `t` stands at
/// `i`, followed by the closing quote, the parser returns exactly `t` and
/// stops right after that quote.
proof fn lemma_parse_body(s: Seq<char>, i: int, t: Seq<char>)
    requires
        0 <= i,
        i + esc(t).len() < s.len(),
        s.subrange(i, i + esc(t).len() as int) == esc(t),
        s[i + esc(t).len()] == '"',
    ensures
        parse_body_at(s, i) == Some((t, i + esc(t).len() + 1)),
    decreases t.len(),
{
    let el = esc(t).len() as int;
    assert forall|k: int| 0 <= k < el implies s[i + k] == esc(t)[k] by {
        assert(s.subrange(i, i + el)[k] == s[i + k]);
    }
    if t.len() == 0 {
        assert(esc(t) =~= Seq::<char>::empty());
        assert(t =~= Seq::<char>::empty());
    } else {
        let c = t[0];
        let t1 = t.skip(1);
        assert(esc(t) == esc_char(c) + esc(t1));
        let cl = esc_char(c).len() as int;
        assert forall|k: int| 0 <= k < cl implies s[i + k] == esc_char(c)[k] by {
            assert(esc(t)[k] == (esc_char(c) + esc(t1))[k]);
        }
        let i1 = i + cl;
        let el1 = esc(t1).len() as int;
        assert(s.subrange(i1, i1 + el1) =~= esc(t1)) by {
            assert forall|k: int| 0 <= k < el1 implies s.subrange(i1, i1 + el1)[k] == esc(
                t1,
            )[k] by {
                assert(s.subrange(i1, i1 + el1)[k] == s[i1 + k]);
                assert(s[i1 + k] == esc(t)[cl + k]);
                assert(esc(t)[cl + k] == (esc_char(c) + esc(t1))[cl + k]);
            }
        }
        assert(s[i1 + el1] == '"');
        lemma_parse_body(s, i1, t1);
        assert(seq![c] + t1 =~= t);
        if c == '"' {
            assert(s[i] == '\\');
            assert(s[i + 1] == '"');
        } else if c == '\\' {
            assert(s[i] == '\\');
            assert(s[i + 1] == '\\');
        } else if (c as u32) < 32 {
            let v = c as u32;
            lemma_hex_char((v / 16) as nat);
            lemma_hex_char((v % 16) as nat);
            assert(s[i] == '\\');
            assert(s[i + 1] == 'u');
            assert(s[i + 2] == '0');
            assert(s[i + 3] == '0');
            assert(s[i + 4] == hex_char((v / 16) as nat));
            assert(s[i + 5] == hex_char((v % 16) as nat));
            assert(is_hex(s[i + 4]) && is_hex(s[i + 5]));
            assert(hex_val(s[i + 4]) * 16 + hex_val(s[i + 5]) == v);
            assert(v as u8 as u32 == v) by (bit_vector)
                requires
                    v < 32,
            ;
            vstd::utf8::char_u32_cast(c, v);
            assert((v as char) == c);
            assert(((v as u8) as char) == c);
        } else {
            assert(s[i] == c);
            assert(!(s[i] == '"') && !(s[i] == '\\'));
        }
    }
}

/// The value of a digit string never shrinks when digits are appended, so
/// the value of a prefix bounds the whole from below.
proof fn lemma_val_prefix(ds: Seq<char>, k: int)
    requires
        0 <= k <= ds.len(),
    ensures
        val_of(ds.subrange(0, k)) <= val_of(ds),
    decreases ds.len(),
{
    if k == ds.len() {
        assert(ds.subrange(0, k) =~= ds);
    } else {
        let dl = ds.drop_last();
        assert(ds.subrange(0, k) =~= dl.subrange(0, k));
        lemma_val_prefix(dl, k);
    }
}

/// The digit run starting at `i` consists of digits, ends at a non-digit or
/// the end, and stays within bounds.
proof fn lemma_run_digits(s: Seq<char>, i: int)
    requires
        0 <= i <= s.len(),
    ensures
        i <= digit_run_end(s, i) <= s.len(),
        forall|k: int| i <= k < digit_run_end(s, i) ==> is_digit(#[trigger] s[k]),
        digit_run_end(s, i) == s.len() || !is_digit(s[digit_run_end(s, i)]),
    decreases s.len() - i,
{
    if i < s.len() && is_digit(s[i]) {
        lemma_run_digits(s, i + 1);
    }
}

/// Gathers characters into a vector, in order.
fn str_chars(s: &str) -> (r: Vec<char>)
    ensures
        r@ == s@,
{
    let n = s.unicode_len();
    let mut v: Vec<char> = Vec::new();
    let mut i: usize = 0;
    proof {
        assert(s@.take(0) =~= Seq::<char>::empty());
    }
    while i < n
        invariant
            i <= n,
            n == s@.len(),
            v@ == s@.take(i as int),
        decreases n - i,
    {
        let c = s.get_char(i);
        v.push(c);
        proof {
            assert(s@.take((i + 1) as int) =~= s@.take(i as int).push(s@[i as int]));
        }
        i = i + 1;
    }
    proof {
        assert(s@.take(n as int) =~= s@);
    }
    v
}

/// Relies on String::from_iter: collecting characters yields the string
/// holding exactly those characters, in order.
#[verifier::external_body]
fn chars_string(v: Vec<char>) -> (r: String)
    ensures
        r@ == v@,
{
    String::from_iter(v)
}

/// Append the characters of `lit` to `out`.
fn push_str_chars(out: &mut Vec<char>, lit: &str)
    ensures
        final(out)@ == old(out)@ + lit@,
{
    let n = lit.unicode_len();
    let mut i: usize = 0;
    proof {
        assert(old(out)@ + lit@.take(0) =~= old(out)@);
    }
    while i < n
        invariant
            i <= n,
            n == lit@.len(),
            out@ == old(out)@ + lit@.take(i as int),
        decreases n - i,
    {
        let c = lit.get_char(i);
        out.push(c);
        proof {
            assert(old(out)@ + lit@.take((i + 1) as int) =~= (old(out)@ + lit@.take(
                i as int,
            )).push(lit@[i as int]));
        }
        i = i + 1;
    }
    proof {
        assert(lit@.take(n as int) =~= lit@);
    }
}

/// The character of a decimal digit value.
fn digit_of(d: u8) -> (c: char)
    requires
        d < 10,
    ensures
        c == digit_char(d as nat),
{
    (d + 48) as char
}

/// The character of a hexadecimal digit value, lower case.
fn hex_of(d: u8) -> (c: char)
    requires
        d < 16,
    ensures
        c == hex_char(d as nat),
{
    if d < 10 {
        (d + 48) as char
    } else {
        (d - 10 + 97) as char
    }
}

/// Append the decimal digits of `n` to `out`, most significant first.
fn push_u64_digits(out: &mut Vec<char>, n: u64)
    ensures
        final(out)@ == old(out)@ + dec_digits(n as nat),
    decreases n,
{
    if n < 10 {
        let c = digit_of(n as u8);
        out.push(c);
        proof {
            assert(old(out)@ + dec_digits(n as nat) =~= old(out)@.push(digit_char(n as nat)));
        }
    } else {
        push_u64_digits(out, n / 10);
        let c = digit_of((n % 10) as u8);
        out.push(c);
        proof {
            assert(old(out)@ + dec_digits(n as nat) =~= (old(out)@ + dec_digits(
                (n / 10) as nat,
            )).push(digit_char((n % 10) as nat)));
        }
    }
}

/// Append the escape of one character to `out`.
fn push_esc_char(out: &mut Vec<char>, c: char)
    ensures
        final(out)@ == old(out)@ + esc_char(c),
{
    if c == '"' {
        out.push('\\');
        out.push('"');
        proof {
            assert(old(out)@ + esc_char(c) =~= old(out)@.push('\\').push('"'));
        }
    } else if c == '\\' {
        out.push('\\');
        out.push('\\');
        proof {
            assert(old(out)@ + esc_char(c) =~= old(out)@.push('\\').push('\\'));
        }
    } else if (c as u32) < 32 {
        let v: u32 = c as u32;
        out.push('\\');
        out.push('u');
        out.push('0');
        out.push('0');
        let h1 = hex_of((v / 16) as u8);
        let h2 = hex_of((v % 16) as u8);
        out.push(h1);
        out.push(h2);
        proof {
            assert(old(out)@ + esc_char(c) =~= old(out)@.push('\\').push('u').push('0').push(
                '0',
            ).push(hex_char((v / 16) as nat)).push(hex_char((v % 16) as nat)));
        }
    } else {
        out.push(c);
        proof {
            assert(old(out)@ + esc_char(c) =~= old(out)@.push(c));
        }
    }
}

/// Append the escape of a whole string body to `out`.
fn push_escaped(out: &mut Vec<char>, t: &str)
    ensures
        final(out)@ == old(out)@ + esc(t@),
{
    let n = t.unicode_len();
    let mut i: usize = 0;
    proof {
        assert(t@.take(0) =~= Seq::<char>::empty());
        assert(esc(Seq::<char>::empty()) =~= Seq::<char>::empty());
        assert(old(out)@ + esc(t@.take(0)) =~= old(out)@);
    }
    while i < n
        invariant
            i <= n,
            n == t@.len(),
            out@ == old(out)@ + esc(t@.take(i as int)),
        decreases n - i,
    {
        let c = t.get_char(i);
        push_esc_char(out, c);
        proof {
            let pre = t@.take(i as int);
            let one = seq![t@[i as int]];
            lemma_esc_append(pre, one);
            assert(t@.take((i + 1) as int) =~= pre + one);
            assert(one.skip(1) =~= Seq::<char>::empty());
            assert(esc(Seq::<char>::empty()) =~= Seq::<char>::empty());
            assert(esc(one) =~= esc_char(t@[i as int]));
            assert(old(out)@ + esc(t@.take((i + 1) as int)) =~= (old(out)@ + esc(pre))
                + esc_char(t@[i as int]));
        }
        i = i + 1;
    }
    proof {
        assert(t@.take(n as int) =~= t@);
    }
}

/// Append the six zero-padded fraction digits of `r` to `out`.
fn push_frac6(out: &mut Vec<char>, r: u64)
    requires
        r < 1000000,
    ensures
        final(out)@ == old(out)@ + frac6(r as nat),
{
    out.push(digit_of((r / 100000 % 10) as u8));
    out.push(digit_of((r / 10000 % 10) as u8));
    out.push(digit_of((r / 1000 % 10) as u8));
    out.push(digit_of((r / 100 % 10) as u8));
    out.push(digit_of((r / 10 % 10) as u8));
    out.push(digit_of((r % 10) as u8));
    proof {
        let m = r as nat;
        assert(old(out)@ + frac6(m) =~= old(out)@.push(digit_char(m / 100000 % 10)).push(
            digit_char(m / 10000 % 10),
        ).push(digit_char(m / 1000 % 10)).push(digit_char(m / 100 % 10)).push(
            digit_char(m / 10 % 10),
        ).push(digit_char(m % 10)));
    }
}

/// Append the rendering of a microsecond reading to `out`.
fn push_micros(out: &mut Vec<char>, m: u64)
    ensures
        final(out)@ == old(out)@ + micros_chars(m),
{
    push_u64_digits(out, m / 1000000);
    out.push('.');
    push_frac6(out, m % 1000000);
    proof {
        assert(old(out)@ + micros_chars(m) =~= ((old(out)@ + dec_digits((m as nat) / 1000000))
            .push('.')) + frac6((m as nat) % 1000000));
    }
}

/// Encode one response record as its JSON object.
pub fn encode_response(r: &TextGenResponse) -> (out: String)
    ensures
        out@ == enc_response(r@),
{
    let mut v: Vec<char> = Vec::new();
    push_str_chars(&mut v, "{\"text\":\"");
    push_escaped(&mut v, r.text.as_str());
    push_str_chars(&mut v, "\"");
    push_str_chars(&mut v, ",\"tokens\":");
    push_u64_digits(&mut v, r.tokens as u64);
    push_str_chars(&mut v, ",\"latency\":{\"load\":");
    push_micros(&mut v, r.latency.load);
    push_str_chars(&mut v, ",\"generation\":");
    push_micros(&mut v, r.latency.generation);
    push_str_chars(&mut v, "},\"done\":");
    if r.done {
        push_str_chars(&mut v, "true");
    } else {
        push_str_chars(&mut v, "false");
    }
    push_str_chars(&mut v, "}");
    proof {
        assert(v@ =~= enc_response(r@));
    }
    chars_string(v)
}

/// Encode one response record as a complete wire frame: the JSON object
/// followed by the newline separator.
pub fn encode_response_line(r: &TextGenResponse) -> (out: String)
    ensures
        out@ == enc_response(r@) + "\n"@,
{
    let mut s = encode_response(r);
    s.append("\n");
    s
}

/// Encode one request body as its JSON object.
pub fn encode_request(req: &TextGenRequest) -> (out: String)
    ensures
        out@ == enc_request(req.prompt@),
{
    let mut v: Vec<char> = Vec::new();
    push_str_chars(&mut v, "{\"prompt\":\"");
    push_escaped(&mut v, req.prompt.as_str());
    push_str_chars(&mut v, "\"");
    push_str_chars(&mut v, "}");
    proof {
        assert(v@ =~= enc_request(req.prompt@));
    }
    chars_string(v)
}

/// Whether a character is a decimal digit.
fn is_digit_exec(c: char) -> (r: bool)
    ensures
        r == is_digit(c),
{
    let u = c as u32;
    48 <= u && u <= 57
}

/// Whether a character is a hexadecimal digit as this codec writes them.
fn is_hex_exec(c: char) -> (r: bool)
    ensures
        r == is_hex(c),
{
    let u = c as u32;
    (48 <= u && u <= 57) || (97 <= u && u <= 102)
}

/// The value of a hexadecimal digit character.
fn hex_val_exec(c: char) -> (r: u32)
    requires
        is_hex(c),
    ensures
        r as nat == hex_val(c),
        r < 16,
{
    let u = c as u32;
    if 48 <= u && u <= 57 {
        u - 48
    } else {
        u - 87
    }
}

/// Match `lit` at position `i` of `v`; on success return the position right
/// after it.
fn expect_lit(v: &Vec<char>, i: usize, lit: &str) -> (r: Option<usize>)
    ensures
        (r is Some) == (expect_at(v@, i as int, lit@) is Some),
        r matches Some(j) ==> expect_at(v@, i as int, lit@) == Some(j as int) && j <= v.len(),
{
    let n = lit.unicode_len();
    if n > v.len() || i > v.len() - n {
        return None;
    }
    let mut k: usize = 0;
    while k < n
        invariant
            k <= n,
            i + n <= v.len(),
            n == lit@.len(),
            forall|q: int| 0 <= q < k ==> v@[i + q] == lit@[q],
        decreases n - k,
    {
        let c = lit.get_char(k);
        if v[i + k] != c {
            proof {
                if i + n <= v@.len() && v@.subrange(i as int, i + n) == lit@ {
                    assert(v@.subrange(i as int, i + n)[k as int] == v@[i + k]);
                    assert(false);
                }
            }
            return None;
        }
        k = k + 1;
    }
    proof {
        assert(v@.subrange(i as int, i + n) =~= lit@);
    }
    Some(i + n)
}

/// The end of the digit run starting at `i`.
fn scan_digits(v: &Vec<char>, i: usize) -> (e: usize)
    requires
        i <= v.len(),
    ensures
        i <= e <= v.len(),
        e as int == digit_run_end(v@, i as int),
{
    let mut j: usize = i;
    while j < v.len()
        invariant
            i <= j <= v.len(),
            digit_run_end(v@, i as int) == digit_run_end(v@, j as int),
        decreases v.len() - j,
    {
        if !is_digit_exec(v[j]) {
            proof {
                assert(digit_run_end(v@, j as int) == j as int);
            }
            return j;
        }
        proof {
            assert(digit_run_end(v@, j as int) == digit_run_end(v@, (j + 1) as int));
        }
        j = j + 1;
    }
    proof {
        assert(digit_run_end(v@, j as int) == j as int);
    }
    j
}

/// Parse the decimal number at `i`, refusing values above `max`.
fn parse_u64_at(v: &Vec<char>, i: usize, max: u64) -> (r: Option<(u64, usize)>)
    requires
        i <= v.len(),
    ensures
        (r is Some) == (parse_number_at(v@, i as int, max as nat) is Some),
        r matches Some(p) ==> parse_number_at(v@, i as int, max as nat) == Some(
            (p.0 as nat, p.1 as int),
        ) && p.1 <= v.len() && p.0 <= max,
{
    proof {
        lemma_run_digits(v@, i as int);
    }
    let e = scan_digits(v, i);
    if e == i {
        return None;
    }
    let ghost full = v@.subrange(i as int, e as int);
    let mut acc: u64 = 0;
    let mut j: usize = i;
    proof {
        assert(v@.subrange(i as int, i as int) =~= Seq::<char>::empty());
        assert(val_of(Seq::<char>::empty()) == 0);
    }
    while j < e
        invariant
            i <= j <= e <= v.len(),
            e as int == digit_run_end(v@, i as int),
            acc as nat == val_of(v@.subrange(i as int, j as int)),
            acc <= max,
            forall|k: int| i <= k < e ==> is_digit(#[trigger] v@[k]),
            full == v@.subrange(i as int, e as int),
        decreases e - j,
    {
        let d: u32 = (v[j] as u32) - 48;
        let wide: u128 = (acc as u128) * 10 + (d as u128);
        proof {
            let next = v@.subrange(i as int, (j + 1) as int);
            assert(next.drop_last() =~= v@.subrange(i as int, j as int));
            assert(next.last() == v@[j as int]);
            assert(val_of(next) == wide as nat);
        }
        if wide > max as u128 {
            proof {
                lemma_val_prefix(full, j + 1 - i);
                assert(full.subrange(0, j + 1 - i) =~= v@.subrange(i as int, (j + 1) as int));
                assert(val_of(full) > max as nat);
            }
            return None;
        }
        acc = wide as u64;
        j = j + 1;
    }
    Some((acc, e))
}

/// Parse exactly six fraction digits at `i`.
fn parse_frac6_exec(v: &Vec<char>, i: usize) -> (r: Option<(u64, usize)>)
    requires
        i <= v.len(),
    ensures
        (r is Some) == (parse_frac6_at(v@, i as int) is Some),
        r matches Some(p) ==> parse_frac6_at(v@, i as int) == Some((p.0 as nat, p.1 as int))
            && p.1 <= v.len() && p.0 < 1000000,
{
    if v.len() - i < 6 {
        return None;
    }
    if !(is_digit_exec(v[i]) && is_digit_exec(v[i + 1]) && is_digit_exec(v[i + 2])
        && is_digit_exec(v[i + 3]) && is_digit_exec(v[i + 4]) && is_digit_exec(v[i + 5])) {
        return None;
    }
    let d0: u64 = ((v[i] as u32) - 48) as u64;
    let d1: u64 = ((v[i + 1] as u32) - 48) as u64;
    let d2: u64 = ((v[i + 2] as u32) - 48) as u64;
    let d3: u64 = ((v[i + 3] as u32) - 48) as u64;
    let d4: u64 = ((v[i + 4] as u32) - 48) as u64;
    let d5: u64 = ((v[i + 5] as u32) - 48) as u64;
    let value: u64 = d0 * 100000 + d1 * 10000 + d2 * 1000 + d3 * 100 + d4 * 10 + d5;
    Some((value, i + 6))
}

/// Parse a latency figure at `i` back into microseconds.
fn parse_micros_exec(v: &Vec<char>, i: usize) -> (r: Option<(u64, usize)>)
    requires
        i <= v.len(),
    ensures
        (r is Some) == (parse_micros_at(v@, i as int) is Some),
        r matches Some(p) ==> parse_micros_at(v@, i as int) == Some((p.0, p.1 as int)) && p.1
            <= v.len(),
{
    match parse_u64_at(v, i, u64::MAX) {
        None => None,
        Some((whole, j)) => match expect_lit(v, j, ".") {
            None => None,
            Some(k) => match parse_frac6_exec(v, k) {
                None => None,
                Some((frac, e)) => {
                    let total: u128 = (whole as u128) * 1000000 + (frac as u128);
                    if total > u64::MAX as u128 {
                        None
                    } else {
                        Some((total as u64, e))
                    }
                },
            },
        },
    }
}

/// Parse a string body at `i`, undoing the escapes, up to and including the
/// closing quote.
fn parse_body_exec(v: &Vec<char>, i: usize) -> (r: Option<(Vec<char>, usize)>)
    requires
        i <= v.len(),
    ensures
        (r is Some) == (parse_body_at(v@, i as int) is Some),
        r matches Some(p) ==> parse_body_at(v@, i as int) == Some((p.0@, p.1 as int)) && p.1
            <= v.len(),
    decreases v.len() - i,
{
    if i >= v.len() {
        return None;
    }
    let c = v[i];
    if c == '"' {
        let empty: Vec<char> = Vec::new();
        return Some((empty, i + 1));
    }
    if c == '\\' {
        if v.len() - i >= 2 && (v[i + 1] == '"' || v[i + 1] == '\\') {
            match parse_body_exec(v, i + 2) {
                None => None,
                Some((mut t, j)) => {
                    let e = v[i + 1];
                    t.insert(0, e);
                    proof {
                        assert(t@ =~= seq![v@[i + 1]] + t@.subrange(1, t@.len() as int));
                    }
                    Some((t, j))
                },
            }
        } else if v.len() - i >= 6 && v[i + 1] == 'u' && v[i + 2] == '0' && v[i + 3] == '0'
            && is_hex_exec(v[i + 4]) && is_hex_exec(v[i + 5]) && hex_val_exec(v[i + 4]) * 16
            + hex_val_exec(v[i + 5]) < 32 {
            let code: u32 = hex_val_exec(v[i + 4]) * 16 + hex_val_exec(v[i + 5]);
            let ch: char = (code as u8) as char;
            match parse_body_exec(v, i + 6) {
                None => None,
                Some((mut t, j)) => {
                    t.insert(0, ch);
                    proof {
                        assert(t@ =~= seq![ch] + t@.subrange(1, t@.len() as int));
                    }
                    Some((t, j))
                },
            }
        } else {
            None
        }
    } else {
        match parse_body_exec(v, i + 1) {
            None => None,
            Some((mut t, j)) => {
                t.insert(0, c);
                proof {
                    assert(t@ =~= seq![c] + t@.subrange(1, t@.len() as int));
                }
                Some((t, j))
            },
        }
    }
}

/// Decode one response record from a whole JSON object; `None` on any
/// deviation from the wire format.
pub fn decode_response(s: &str) -> (r: Option<TextGenResponse>)
    ensures
        (r is Some) == (dec_response(s@) is Some),
        r matches Some(t) ==> dec_response(s@) == Some(t@),
{
    let v = str_chars(s);
    let i1 = match expect_lit(&v, 0, "{\"text\":\"") {
        None => {
            return None;
        },
        Some(j) => j,
    };
    let (text, i2) = match parse_body_exec(&v, i1) {
        None => {
            return None;
        },
        Some(p) => p,
    };
    let i3 = match expect_lit(&v, i2, ",\"tokens\":") {
        None => {
            return None;
        },
        Some(j) => j,
    };
    let (tokens, i4) = match parse_u64_at(&v, i3, usize::MAX as u64) {
        None => {
            return None;
        },
        Some(p) => p,
    };
    let i5 = match expect_lit(&v, i4, ",\"latency\":{\"load\":") {
        None => {
            return None;
        },
        Some(j) => j,
    };
    let (load, i6) = match parse_micros_exec(&v, i5) {
        None => {
            return None;
        },
        Some(p) => p,
    };
    let i7 = match expect_lit(&v, i6, ",\"generation\":") {
        None => {
            return None;
        },
        Some(j) => j,
    };
    let (generation, i8) = match parse_micros_exec(&v, i7) {
        None => {
            return None;
        },
        Some(p) => p,
    };
    let i9 = match expect_lit(&v, i8, "},\"done\":") {
        None => {
            return None;
        },
        Some(j) => j,
    };
    let (done, i10) = match expect_lit(&v, i9, "true") {
        Some(j) => (true, j),
        None => match expect_lit(&v, i9, "false") {
            Some(j) => (false, j),
            None => {
                return None;
            },
        },
    };
    let i11 = match expect_lit(&v, i10, "}") {
        None => {
            return None;
        },
        Some(j) => j,
    };
    if i11 != v.len() {
        return None;
    }
    let record = TextGenResponse::new(
        chars_string(text),
        tokens as usize,
        TextGenLatency::new(load, generation),
        done,
    );
    proof {
        assert(dec_response(s@) matches Some(m) && m =~= record@);
    }
    Some(record)
}

/// Decode one request body; `None` on any deviation from the wire format.
pub fn decode_request(s: &str) -> (r: Option<TextGenRequest>)
    ensures
        (r is Some) == (dec_request(s@) is Some),
        r matches Some(t) ==> dec_request(s@) == Some(t.prompt@),
{
    let v = str_chars(s);
    let i1 = match expect_lit(&v, 0, "{\"prompt\":\"") {
        None => {
            return None;
        },
        Some(j) => j,
    };
    let (prompt, i2) = match parse_body_exec(&v, i1) {
        None => {
            return None;
        },
        Some(p) => p,
    };
    let i3 = match expect_lit(&v, i2, "}") {
        None => {
            return None;
        },
        Some(j) => j,
    };
    if i3 != v.len() {
        return None;
    }
    Some(TextGenRequest::new(chars_string(prompt)))
}

/// Round trip: decoding an encoded response record reproduces every field
/// exactly — the text (escapes undone), the token count, both latency
/// figures, and the terminal flag.
#[verifier::rlimit(100)]
pub proof fn lemma_response_round_trip(r: TextGenResponseV)
    ensures
        dec_response(enc_response(r)) == Some(r),
{
    reveal_strlit("{\"text\":\"");
    reveal_strlit("\"");
    reveal_strlit(",\"tokens\":");
    reveal_strlit(",\"latency\":{\"load\":");
    reveal_strlit(",\"generation\":");
    reveal_strlit("},\"done\":");
    reveal_strlit("true");
    reveal_strlit("false");
    reveal_strlit("}");
    let p1 = "{\"text\":\""@;
    let p2 = esc(r.text);
    let p4 = ",\"tokens\":"@;
    let p5 = dec_digits(r.tokens as nat);
    let p6 = ",\"latency\":{\"load\":"@;
    let p7 = micros_chars(r.latency.load);
    let p8 = ",\"generation\":"@;
    let p9 = micros_chars(r.latency.generation);
    let p10 = "},\"done\":"@;
    let p11 = if r.done {
        "true"@
    } else {
        "false"@
    };
    let s = enc_response(r);
    let o1 = p1.len() as int;
    let o2 = o1 + p2.len();
    let o3 = o2 + 1;
    let o4 = o3 + p4.len();
    let o5 = o4 + p5.len();
    let o6 = o5 + p6.len();
    let o7 = o6 + p7.len();
    let o8 = o7 + p8.len();
    let o9 = o8 + p9.len();
    let o10 = o9 + p10.len();
    let o11 = o10 + p11.len();
    let o12 = o11 + 1;
    assert(s.len() == o12);
    assert(s.subrange(0, o1) =~= p1) by {
        assert forall|k: int| 0 <= k < p1.len() implies s.subrange(0, o1)[k] == p1[k] by {
            assert(s.subrange(0, o1)[k] == s[k]);
        }
    }
    assert(s.subrange(o1, o2) =~= p2) by {
        assert forall|k: int| 0 <= k < p2.len() implies s.subrange(o1, o2)[k] == p2[k] by {
            assert(s.subrange(o1, o2)[k] == s[o1 + k]);
        }
    }
    assert(s[o2] == '"');
    assert(s.subrange(o3, o4) =~= p4) by {
        assert forall|k: int| 0 <= k < p4.len() implies s.subrange(o3, o4)[k] == p4[k] by {
            assert(s.subrange(o3, o4)[k] == s[o3 + k]);
        }
    }
    assert(s.subrange(o4, o5) =~= p5) by {
        assert forall|k: int| 0 <= k < p5.len() implies s.subrange(o4, o5)[k] == p5[k] by {
            assert(s.subrange(o4, o5)[k] == s[o4 + k]);
        }
    }
    assert(s.subrange(o5, o6) =~= p6) by {
        assert forall|k: int| 0 <= k < p6.len() implies s.subrange(o5, o6)[k] == p6[k] by {
            assert(s.subrange(o5, o6)[k] == s[o5 + k]);
        }
    }
    assert(s.subrange(o6, o7) =~= p7) by {
        assert forall|k: int| 0 <= k < p7.len() implies s.subrange(o6, o7)[k] == p7[k] by {
            assert(s.subrange(o6, o7)[k] == s[o6 + k]);
        }
    }
    assert(s.subrange(o7, o8) =~= p8) by {
        assert forall|k: int| 0 <= k < p8.len() implies s.subrange(o7, o8)[k] == p8[k] by {
            assert(s.subrange(o7, o8)[k] == s[o7 + k]);
        }
    }
    assert(s.subrange(o8, o9) =~= p9) by {
        assert forall|k: int| 0 <= k < p9.len() implies s.subrange(o8, o9)[k] == p9[k] by {
            assert(s.subrange(o8, o9)[k] == s[o8 + k]);
        }
    }
    assert(s.subrange(o9, o10) =~= p10) by {
        assert forall|k: int| 0 <= k < p10.len() implies s.subrange(o9, o10)[k] == p10[k] by {
            assert(s.subrange(o9, o10)[k] == s[o9 + k]);
        }
    }
    assert(s.subrange(o10, o11) =~= p11) by {
        assert forall|k: int| 0 <= k < p11.len() implies s.subrange(o10, o11)[k] == p11[k] by {
            assert(s.subrange(o10, o11)[k] == s[o10 + k]);
        }
    }
    assert(s.subrange(o11, o12) =~= "}"@) by {
        assert(s.subrange(o11, o12)[0] == s[o11]);
    }
    assert(expect_at(s, 0, p1) == Some(o1));
    lemma_parse_body(s, o1, r.text);
    assert(expect_at(s, o3, p4) == Some(o4));
    lemma_parse_number(s, o4, r.tokens as nat, usize::MAX as nat);
    assert(s[o5] == ',');
    assert(!is_digit(','));
    assert(expect_at(s, o5, p6) == Some(o6));
    lemma_parse_micros(s, o6, r.latency.load);
    assert(expect_at(s, o7, p8) == Some(o8));
    lemma_parse_micros(s, o8, r.latency.generation);
    assert(expect_at(s, o9, p10) == Some(o10));
    if r.done {
        assert(expect_at(s, o10, "true"@) == Some(o11));
    } else {
        if o10 + 4 <= s.len() && s.subrange(o10, o10 + 4) == "true"@ {
            assert(s.subrange(o10, o10 + 4)[0] == s[o10]);
            assert(s[o10] == p11[0]);
            assert(false);
        }
        assert(expect_at(s, o10, "true"@) is None);
        assert(expect_at(s, o10, "false"@) == Some(o11));
    }
    assert(expect_at(s, o11, "}"@) == Some(o12));
    assert((r.tokens as nat) as usize == r.tokens);
    assert(TextGenLatency { load: r.latency.load, generation: r.latency.generation }
        == r.latency);
    assert(dec_response(s) matches Some(x) && x =~= r);
}

/// Round trip: decoding an encoded request body reproduces the prompt
/// exactly.
pub proof fn lemma_request_round_trip(prompt: Seq<char>)
    ensures
        dec_request(enc_request(prompt)) == Some(prompt),
{
    reveal_strlit("{\"prompt\":\"");
    reveal_strlit("\"");
    reveal_strlit("}");
    let p1 = "{\"prompt\":\""@;
    let p2 = esc(prompt);
    let s = enc_request(prompt);
    let o1 = p1.len() as int;
    let o2 = o1 + p2.len();
    let o3 = o2 + 1;
    let o4 = o3 + 1;
    assert(s.len() == o4);
    assert(s.subrange(0, o1) =~= p1) by {
        assert forall|k: int| 0 <= k < p1.len() implies s.subrange(0, o1)[k] == p1[k] by {
            assert(s.subrange(0, o1)[k] == s[k]);
        }
    }
    assert(s.subrange(o1, o2) =~= p2) by {
        assert forall|k: int| 0 <= k < p2.len() implies s.subrange(o1, o2)[k] == p2[k] by {
            assert(s.subrange(o1, o2)[k] == s[o1 + k]);
        }
    }
    assert(s[o2] == '"');
    assert(s.subrange(o3, o4) =~= "}"@) by {
        assert(s.subrange(o3, o4)[0] == s[o3]);
    }
    assert(expect_at(s, 0, p1) == Some(o1));
    lemma_parse_body(s, o1, prompt);
    assert(expect_at(s, o3, "}"@) == Some(o4));
}

} // verus!
