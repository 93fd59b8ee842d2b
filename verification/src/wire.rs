//! Parsing of the inbound wire envelope `["EVENT", <subscription id>,
//! {...}]` into a `Message`. The grammar accepted here is the JSON the
//! relays exchange for events: strings with the standard escapes,
//! unsigned integers, and arrays of arrays of strings for the tag list.
//! A malformed frame yields an error and is dropped by the caller.

use vstd::prelude::*;

use crate::strkit;

verus! {

/// JSON whitespace.
pub open spec fn spec_is_ws(c: char) -> bool {
    c == ' ' || c == '\t' || c == '\n' || c == '\r'
}

/// The suffix after leading whitespace.
pub open spec fn spec_ws(s: Seq<char>) -> Seq<char>
    decreases s.len(),
{
    if s.len() > 0 && spec_is_ws(s[0]) {
        spec_ws(s.drop_first())
    } else {
        s
    }
}

proof fn lemma_ws_len(s: Seq<char>)
    ensures
        spec_ws(s).len() <= s.len(),
    decreases s.len(),
{
    if s.len() > 0 && spec_is_ws(s[0]) {
        lemma_ws_len(s.drop_first());
    }
}

/// Advances past whitespace.
fn skip_ws(s: &Vec<char>, i: usize) -> (j: usize)
    requires
        i <= s@.len(),
    ensures
        i <= j <= s@.len(),
        s@.skip(j as int) == spec_ws(s@.skip(i as int)),
{
    let mut j = i;
    while j < s.len() && (s[j] == ' ' || s[j] == '\t' || s[j] == '\n' || s[j] == '\r')
        invariant
            i <= j <= s@.len(),
            spec_ws(s@.skip(j as int)) == spec_ws(s@.skip(i as int)),
        decreases s@.len() - j,
    {
        proof {
            assert(s@.skip(j as int)[0] == s@[j as int]);
            assert(s@.skip(j as int).drop_first() =~= s@.skip(j + 1));
        }
        j += 1;
    }
    proof {
        if s@.skip(j as int).len() > 0 {
            assert(s@.skip(j as int)[0] == s@[j as int]);
        }
        assert(s@.skip(j as int) == spec_ws(s@.skip(j as int)));
    }
    j
}

/// What a single-character escape decodes to.
pub open spec fn spec_esc_char(c: char) -> Option<char> {
    if c == '"' { Some('"') }
    else if c == '\\' { Some('\\') }
    else if c == '/' { Some('/') }
    else if c == 'n' { Some('\n') }
    else if c == 'r' { Some('\r') }
    else if c == 't' { Some('\t') }
    else if c == 'b' { Some(8u8 as char) }
    else if c == 'f' { Some(12u8 as char) }
    else { None }
}

fn esc_char(c: char) -> (r: Option<char>)
    ensures
        r == spec_esc_char(c),
{
    if c == '"' { Some('"') }
    else if c == '\\' { Some('\\') }
    else if c == '/' { Some('/') }
    else if c == 'n' { Some('\n') }
    else if c == 'r' { Some('\r') }
    else if c == 't' { Some('\t') }
    else if c == 'b' { Some(8u8 as char) }
    else if c == 'f' { Some(12u8 as char) }
    else { None }
}

/// The value of a hex digit, -1 for anything else.
pub open spec fn spec_hex_val(c: char) -> int {
    if '0' <= c && c <= '9' { c as u32 - '0' as u32 }
    else if 'a' <= c && c <= 'f' { c as u32 - 'a' as u32 + 10 }
    else if 'A' <= c && c <= 'F' { c as u32 - 'A' as u32 + 10 }
    else { -1 }
}

fn hex_val(c: char) -> (r: Option<u32>)
    ensures
        r.is_some() == (spec_hex_val(c) >= 0),
        r.is_some() ==> r.unwrap() == spec_hex_val(c),
{
    if '0' <= c && c <= '9' { Some(c as u32 - '0' as u32) }
    else if 'a' <= c && c <= 'f' { Some(c as u32 - 'a' as u32 + 10) }
    else if 'A' <= c && c <= 'F' { Some(c as u32 - 'A' as u32 + 10) }
    else { None }
}

/// Relies on std char::from_u32: `Some` exactly on Unicode scalar
/// values, and the returned character casts back to the value.
#[verifier::external_body]
fn char_from_u32(u: u32) -> (r: Option<char>)
    ensures
        r.is_some() == vstd::utf8::is_scalar(u),
        r.is_some() ==> r.unwrap() as u32 == u,
{
    char::from_u32(u)
}

/// What a `\uXXXX` escape decodes to; `None` when a digit is bad or
/// the value is no Unicode scalar.
pub open spec fn spec_u_escape(h: Seq<char>) -> Option<char> {
    if h.len() == 4 && spec_hex_val(h[0]) >= 0 && spec_hex_val(h[1]) >= 0
        && spec_hex_val(h[2]) >= 0 && spec_hex_val(h[3]) >= 0 {
        let v = spec_hex_val(h[0]) * 4096 + spec_hex_val(h[1]) * 256 + spec_hex_val(h[2]) * 16
            + spec_hex_val(h[3]);
        if vstd::utf8::is_scalar(v as u32) {
            Some((v as u32) as char)
        } else {
            None
        }
    } else {
        None
    }
}

/// The body of a JSON string after the opening quote: the decoded
/// characters and the suffix after the closing quote.
pub open spec fn spec_str_body(s: Seq<char>) -> Option<(Seq<char>, Seq<char>)>
    decreases s.len(),
{
    if s.len() == 0 {
        None
    } else if s[0] == '"' {
        Some((Seq::<char>::empty(), s.drop_first()))
    } else if s[0] == '\\' {
        if s.len() >= 2 && spec_esc_char(s[1]).is_some() {
            match spec_str_body(s.skip(2)) {
                Some((t, rest)) => Some((seq![spec_esc_char(s[1]).unwrap()] + t, rest)),
                None => None,
            }
        } else if s.len() >= 6 && s[1] == 'u' && spec_u_escape(s.subrange(2, 6)).is_some() {
            match spec_str_body(s.skip(6)) {
                Some((t, rest)) => Some((seq![spec_u_escape(s.subrange(2, 6)).unwrap()] + t,
                    rest)),
                None => None,
            }
        } else {
            None
        }
    } else if (s[0] as u32) < 32 {
        None
    } else {
        match spec_str_body(s.drop_first()) {
            Some((t, rest)) => Some((seq![s[0]] + t, rest)),
            None => None,
        }
    }
}

/// A JSON string literal: the decoded text and the suffix after it.
pub open spec fn spec_parse_string(s: Seq<char>) -> Option<(Seq<char>, Seq<char>)> {
    if s.len() > 0 && s[0] == '"' {
        spec_str_body(s.drop_first())
    } else {
        None
    }
}

pub proof fn lemma_str_body_shrinks(s: Seq<char>)
    ensures
        spec_str_body(s).is_some() ==> spec_str_body(s).unwrap().1.len() < s.len(),
    decreases s.len(),
{
    if s.len() > 0 && s[0] != '"' {
        if s[0] == '\\' {
            if s.len() >= 2 && spec_esc_char(s[1]).is_some() {
                lemma_str_body_shrinks(s.skip(2));
            } else if s.len() >= 6 && s[1] == 'u' && spec_u_escape(s.subrange(2, 6)).is_some() {
                lemma_str_body_shrinks(s.skip(6));
            }
        } else if (s[0] as u32) >= 32 {
            lemma_str_body_shrinks(s.drop_first());
        }
    }
}

pub proof fn lemma_parse_string_shrinks(s: Seq<char>)
    ensures
        spec_parse_string(s).is_some() ==> spec_parse_string(s).unwrap().1.len() < s.len(),
{
    if s.len() > 0 && s[0] == '"' {
        lemma_str_body_shrinks(s.drop_first());
    }
}

/// Parses a JSON string literal starting at `i`; on success, the
/// decoded text and the index after the closing quote.
#[verifier::rlimit(60)]
#[verifier::spinoff_prover]
fn parse_string(s: &Vec<char>, i: usize) -> (r: Option<(String, usize)>)
    requires
        i <= s@.len(),
    ensures
        (match r {
            Some(p) => i < p.1 <= s@.len() && spec_parse_string(s@.skip(i as int))
                == Some((p.0@, s@.skip(p.1 as int))),
            None => spec_parse_string(s@.skip(i as int)).is_none(),
        }),
{
    if i >= s.len() || s[i] != '"' {
        proof {
            if i < s@.len() {
                assert(s@.skip(i as int)[0] == s@[i as int]);
            }
        }
        return None;
    }
    proof {
        assert(s@.skip(i as int)[0] == '"');
        assert(s@.skip(i as int).drop_first() =~= s@.skip(i + 1));
    }
    let mut out = String::new();
    let mut j = i + 1;
    loop
        invariant
            i < s@.len(),
            s@[i as int] == '"',
            spec_parse_string(s@.skip(i as int)) == spec_str_body(s@.skip(i + 1)),
            i + 1 <= j <= s@.len(),
            (match spec_str_body(s@.skip(j as int)) {
                Some(p) => spec_str_body(s@.skip(i + 1)) == Some((out@ + p.0, p.1)),
                None => spec_str_body(s@.skip(i + 1)).is_none(),
            }),
        decreases s@.len() - j,
    {
        if j >= s.len() {
            return None;
        }
        let c = s[j];
        proof {
            assert(s@.skip(j as int)[0] == c);
            assert(s@.skip(j as int).drop_first() =~= s@.skip(j + 1));
        }
        if c == '"' {
            proof {
                assert(out@ + Seq::<char>::empty() =~= out@);
            }
            return Some((out, j + 1));
        }
        if c == '\\' {
            if j + 1 >= s.len() {
                return None;
            }
            let e = s[j + 1];
            proof {
                assert(s@.skip(j as int)[1] == e);
            }
            match esc_char(e) {
                Some(decoded) => {
                    proof {
                        assert(s@.skip(j as int).skip(2) =~= s@.skip(j + 2));
                        if spec_str_body(s@.skip(j + 2)) is Some {
                            let p = spec_str_body(s@.skip(j + 2)).unwrap();
                            assert(out@ + (seq![decoded] + p.0) =~= out@.push(decoded) + p.0);
                        }
                    }
                    strkit::push_char(&mut out, decoded);
                    j += 2;
                },
                None => {
                    if e != 'u' {
                        return None;
                    }
                    if s.len() - j < 6 {
                        proof {
                            assert(s@.skip(j as int).len() < 6);
                        }
                        return None;
                    }
                    let h0 = hex_val(s[j + 2]);
                    let h1 = hex_val(s[j + 3]);
                    let h2 = hex_val(s[j + 4]);
                    let h3 = hex_val(s[j + 5]);
                    proof {
                        assert(s@.skip(j as int).subrange(2, 6) =~= s@.subrange(j + 2, j + 6));
                        assert(s@.subrange(j + 2, j + 6)[0] == s@[j + 2]);
                        assert(s@.subrange(j + 2, j + 6)[1] == s@[j + 3]);
                        assert(s@.subrange(j + 2, j + 6)[2] == s@[j + 4]);
                        assert(s@.subrange(j + 2, j + 6)[3] == s@[j + 5]);
                    }
                    match (h0, h1, h2, h3) {
                        (Some(v0), Some(v1), Some(v2), Some(v3)) => {
                            let v: u32 = v0 * 4096 + v1 * 256 + v2 * 16 + v3;
                            match char_from_u32(v) {
                                Some(decoded) => {
                                    proof {
                                        vstd::utf8::char_u32_cast(decoded, v);
                                        assert(spec_u_escape(s@.skip(j as int).subrange(2, 6))
                                            == Some(decoded));
                                        assert(s@.skip(j as int).skip(6) =~= s@.skip(j + 6));
                                        if spec_str_body(s@.skip(j + 6)) is Some {
                                            let p = spec_str_body(s@.skip(j + 6)).unwrap();
                                            assert(out@ + (seq![decoded] + p.0)
                                                =~= out@.push(decoded) + p.0);
                                        }
                                    }
                                    strkit::push_char(&mut out, decoded);
                                    j += 6;
                                },
                                None => {
                                    return None;
                                },
                            }
                        },
                        _ => {
                            return None;
                        },
                    }
                },
            }
        } else if (c as u32) < 32 {
            return None;
        } else {
            proof {
                if spec_str_body(s@.skip(j + 1)) is Some {
                    let p = spec_str_body(s@.skip(j + 1)).unwrap();
                    assert(out@ + (seq![c] + p.0) =~= out@.push(c) + p.0);
                }
            }
            strkit::push_char(&mut out, c);
            j += 1;
        }
    }
}

/// The leading digit run and the rest.
pub open spec fn spec_digits(s: Seq<char>) -> (Seq<char>, Seq<char>)
    decreases s.len(),
{
    if s.len() > 0 && strkit::spec_is_digit(s[0]) {
        let p = spec_digits(s.drop_first());
        (seq![s[0]] + p.0, p.1)
    } else {
        (Seq::<char>::empty(), s)
    }
}

/// A JSON unsigned integer: its value and the suffix after it; `None`
/// when no digit starts `s` or the value exceeds `u64::MAX`.
pub open spec fn spec_parse_number(s: Seq<char>) -> Option<(u64, Seq<char>)> {
    let p = spec_digits(s);
    match strkit::spec_parse_u64(p.0) {
        Some(v) => Some((v, p.1)),
        None => None,
    }
}

proof fn lemma_digits_span(s: Seq<char>, i: int, end: int)
    requires
        0 <= i <= end <= s.len(),
        forall|m: int| i <= m < end ==> strkit::spec_is_digit(#[trigger] s[m]),
        end == s.len() || !strkit::spec_is_digit(s[end]),
    ensures
        spec_digits(s.skip(i)) == (s.subrange(i, end), s.skip(end)),
    decreases end - i,
{
    if i < end {
        lemma_digits_span(s, i + 1, end);
        assert(s.skip(i)[0] == s[i]);
        assert(s.skip(i).drop_first() =~= s.skip(i + 1));
        assert(seq![s[i]] + s.subrange(i + 1, end) =~= s.subrange(i, end));
    } else {
        if i < s.len() {
            assert(s.skip(i)[0] == s[i]);
        }
        assert(s.subrange(i, i) =~= Seq::<char>::empty());
    }
}

/// Parses an unsigned integer starting at `i`.
fn parse_number(s: &Vec<char>, i: usize) -> (r: Option<(u64, usize)>)
    requires
        i <= s@.len(),
    ensures
        (match r {
            Some(p) => i < p.1 <= s@.len() && spec_parse_number(s@.skip(i as int))
                == Some((p.0, s@.skip(p.1 as int))),
            None => spec_parse_number(s@.skip(i as int)).is_none(),
        }),
{
    let n = s.len();
    let mut end = i;
    while end < n && '0' <= s[end] && s[end] <= '9'
        invariant
            i <= end <= n,
            n == s@.len(),
            forall|m: int| i <= m < end ==> strkit::spec_is_digit(#[trigger] s@[m]),
        decreases n - end,
    {
        end += 1;
    }
    proof {
        lemma_digits_span(s@, i as int, end as int);
    }
    if end == i {
        proof {
            assert(spec_digits(s@.skip(i as int)).0.len() == 0);
        }
        return None;
    }
    let ghost digits = s@.subrange(i as int, end as int);
    let mut val: u64 = 0;
    let mut k = i;
    proof {
        assert(digits.take(0).len() == 0);
    }
    while k < end
        invariant
            i < end <= n,
            i <= k <= end,
            n == s@.len(),
            digits == s@.subrange(i as int, end as int),
            spec_digits(s@.skip(i as int)) == (digits, s@.skip(end as int)),
            forall|m: int| i <= m < end ==> strkit::spec_is_digit(#[trigger] s@[m]),
            val as int == strkit::spec_dec_val(digits.take(k - i)),
        decreases end - k,
    {
        let c = s[k];
        let d = (c as u32 - '0' as u32) as u64;
        proof {
            assert(digits[k - i] == s@[k as int]);
            assert(digits.take(k - i + 1).drop_last() =~= digits.take(k - i));
            assert(digits.take(k - i + 1).last() == digits[k - i]);
        }
        if val > (u64::MAX - d) / 10 {
            proof {
                assert(val as int * 10 + d > u64::MAX) by (nonlinear_arith)
                    requires
                        val as int > (u64::MAX - d) as int / 10,
                        0 <= d <= 9,
                        val as int >= 0,
                ;
                assert(strkit::spec_dec_val(digits.take(k - i + 1)) > u64::MAX);
                assert(forall|m: int| 0 <= m < digits.len()
                    ==> strkit::spec_is_digit(#[trigger] digits[m]));
                strkit::lemma_dec_val_prefix_le(digits, k - i + 1);
                assert(strkit::spec_parse_u64(digits).is_none());
            }
            return None;
        }
        proof {
            assert(val as int * 10 + d <= u64::MAX) by (nonlinear_arith)
                requires
                    val as int <= (u64::MAX - d) as int / 10,
                    0 <= d <= 9,
                    val as int >= 0,
            ;
        }
        val = val * 10 + d;
        k += 1;
    }
    proof {
        assert(digits.take(end - i) =~= digits);
        assert(forall|m: int| 0 <= m < digits.len()
            ==> strkit::spec_is_digit(#[trigger] digits[m]));
        assert(digits.len() > 0);
        assert(strkit::spec_parse_u64(digits) == Some(val));
    }
    Some((val, end))
}


// ---------------------------------------------------------------------
// Arrays
// ---------------------------------------------------------------------

proof fn lemma_digits_len(s: Seq<char>)
    ensures
        spec_digits(s).0.len() + spec_digits(s).1.len() == s.len(),
    decreases s.len(),
{
    if s.len() > 0 && strkit::spec_is_digit(s[0]) {
        lemma_digits_len(s.drop_first());
    }
}

pub proof fn lemma_parse_number_shrinks(s: Seq<char>)
    ensures
        spec_parse_number(s).is_some() ==> spec_parse_number(s).unwrap().1.len() < s.len(),
{
    lemma_digits_len(s);
    if spec_parse_number(s).is_some() {
        assert(spec_digits(s).0.len() > 0);
    }
}

/// The elements of a tag array after the first, up to `]`.
pub open spec fn spec_tag_more(acc: Seq<Seq<char>>, s: Seq<char>) -> Option<(
    Seq<Seq<char>>,
    Seq<char>,
)>
    decreases s.len(),
    via spec_tag_more_decreases
{
    let s1 = spec_ws(s);
    if s1.len() > 0 && s1[0] == ']' {
        Some((acc, s1.drop_first()))
    } else if s1.len() > 0 && s1[0] == ',' {
        let s2 = spec_ws(s1.drop_first());
        match spec_parse_string(s2) {
            Some((t, r)) => spec_tag_more(acc.push(t), r),
            None => None,
        }
    } else {
        None
    }
}

#[via_fn]
proof fn spec_tag_more_decreases(acc: Seq<Seq<char>>, s: Seq<char>) {
    let s1 = spec_ws(s);
    lemma_ws_len(s);
    if s1.len() > 0 && s1[0] == ',' {
        lemma_ws_len(s1.drop_first());
        lemma_parse_string_shrinks(spec_ws(s1.drop_first()));
    }
}

/// One tag: a JSON array of strings.
pub open spec fn spec_parse_tag(s: Seq<char>) -> Option<(Seq<Seq<char>>, Seq<char>)> {
    if s.len() > 0 && s[0] == '[' {
        let s1 = spec_ws(s.drop_first());
        if s1.len() > 0 && s1[0] == ']' {
            Some((Seq::<Seq<char>>::empty(), s1.drop_first()))
        } else {
            match spec_parse_string(s1) {
                Some((t, r)) => spec_tag_more(seq![t], r),
                None => None,
            }
        }
    } else {
        None
    }
}

proof fn lemma_tag_more_shrinks(acc: Seq<Seq<char>>, s: Seq<char>)
    ensures
        spec_tag_more(acc, s).is_some() ==> spec_tag_more(acc, s).unwrap().1.len() <= s.len(),
    decreases s.len(),
{
    let s1 = spec_ws(s);
    lemma_ws_len(s);
    if s1.len() > 0 && s1[0] == ',' {
        let s2 = spec_ws(s1.drop_first());
        lemma_ws_len(s1.drop_first());
        lemma_parse_string_shrinks(s2);
        match spec_parse_string(s2) {
            Some((t, r)) => {
                lemma_tag_more_shrinks(acc.push(t), r);
            },
            None => {},
        }
    }
}

pub proof fn lemma_parse_tag_shrinks(s: Seq<char>)
    ensures
        spec_parse_tag(s).is_some() ==> spec_parse_tag(s).unwrap().1.len() < s.len(),
{
    if s.len() > 0 && s[0] == '[' {
        let s1 = spec_ws(s.drop_first());
        lemma_ws_len(s.drop_first());
        if !(s1.len() > 0 && s1[0] == ']') {
            lemma_parse_string_shrinks(s1);
            match spec_parse_string(s1) {
                Some((t, r)) => {
                    lemma_tag_more_shrinks(seq![t], r);
                },
                None => {},
            }
        }
    }
}

/// The tags after the first, up to `]`.
pub open spec fn spec_tags_more(acc: Seq<Seq<Seq<char>>>, s: Seq<char>) -> Option<(
    Seq<Seq<Seq<char>>>,
    Seq<char>,
)>
    decreases s.len(),
    via spec_tags_more_decreases
{
    let s1 = spec_ws(s);
    if s1.len() > 0 && s1[0] == ']' {
        Some((acc, s1.drop_first()))
    } else if s1.len() > 0 && s1[0] == ',' {
        let s2 = spec_ws(s1.drop_first());
        match spec_parse_tag(s2) {
            Some((t, r)) => spec_tags_more(acc.push(t), r),
            None => None,
        }
    } else {
        None
    }
}

#[via_fn]
proof fn spec_tags_more_decreases(acc: Seq<Seq<Seq<char>>>, s: Seq<char>) {
    let s1 = spec_ws(s);
    lemma_ws_len(s);
    if s1.len() > 0 && s1[0] == ',' {
        lemma_ws_len(s1.drop_first());
        lemma_parse_tag_shrinks(spec_ws(s1.drop_first()));
    }
}

/// The tag list: a JSON array of arrays of strings.
pub open spec fn spec_parse_tags(s: Seq<char>) -> Option<(Seq<Seq<Seq<char>>>, Seq<char>)> {
    if s.len() > 0 && s[0] == '[' {
        let s1 = spec_ws(s.drop_first());
        if s1.len() > 0 && s1[0] == ']' {
            Some((Seq::<Seq<Seq<char>>>::empty(), s1.drop_first()))
        } else {
            match spec_parse_tag(s1) {
                Some((t, r)) => spec_tags_more(seq![t], r),
                None => None,
            }
        }
    } else {
        None
    }
}

proof fn lemma_tags_more_shrinks(acc: Seq<Seq<Seq<char>>>, s: Seq<char>)
    ensures
        spec_tags_more(acc, s).is_some() ==> spec_tags_more(acc, s).unwrap().1.len() <= s.len(),
    decreases s.len(),
{
    let s1 = spec_ws(s);
    lemma_ws_len(s);
    if s1.len() > 0 && s1[0] == ',' {
        let s2 = spec_ws(s1.drop_first());
        lemma_ws_len(s1.drop_first());
        lemma_parse_tag_shrinks(s2);
        match spec_parse_tag(s2) {
            Some((t, r)) => {
                lemma_tags_more_shrinks(acc.push(t), r);
            },
            None => {},
        }
    }
}

pub proof fn lemma_parse_tags_shrinks(s: Seq<char>)
    ensures
        spec_parse_tags(s).is_some() ==> spec_parse_tags(s).unwrap().1.len() < s.len(),
{
    if s.len() > 0 && s[0] == '[' {
        let s1 = spec_ws(s.drop_first());
        lemma_ws_len(s.drop_first());
        if !(s1.len() > 0 && s1[0] == ']') {
            lemma_parse_tag_shrinks(s1);
            match spec_parse_tag(s1) {
                Some((t, r)) => {
                    lemma_tags_more_shrinks(seq![t], r);
                },
                None => {},
            }
        }
    }
}

/// Parses a JSON array of strings starting at `i`.
fn parse_tag(s: &Vec<char>, i: usize) -> (r: Option<(Vec<String>, usize)>)
    requires
        i <= s@.len(),
    ensures
        (match r {
            Some(p) => i < p.1 <= s@.len() && spec_parse_tag(s@.skip(i as int))
                == Some((p.0.deep_view(), s@.skip(p.1 as int))),
            None => spec_parse_tag(s@.skip(i as int)).is_none(),
        }),
{
    if i >= s.len() || s[i] != '[' {
        proof {
            if i < s@.len() {
                assert(s@.skip(i as int)[0] == s@[i as int]);
            }
        }
        return None;
    }
    proof {
        assert(s@.skip(i as int)[0] == '[');
        assert(s@.skip(i as int).drop_first() =~= s@.skip(i + 1));
    }
    let j = skip_ws(s, i + 1);
    if j < s.len() && s[j] == ']' {
        let acc: Vec<String> = Vec::new();
        proof {
            assert(s@.skip(j as int)[0] == ']');
            assert(s@.skip(j as int).drop_first() =~= s@.skip(j + 1));
            assert(acc.deep_view() =~= Seq::<Seq<char>>::empty());
        }
        return Some((acc, j + 1));
    }
    proof {
        if j < s@.len() {
            assert(s@.skip(j as int)[0] == s@[j as int]);
        }
    }
    let (t0, mut cur) = match parse_string(s, j) {
        Some(p) => p,
        None => {
            return None;
        },
    };
    let mut acc: Vec<String> = Vec::new();
    acc.push(t0);
    proof {
        assert(acc.deep_view() =~= seq![spec_parse_string(s@.skip(j as int)).unwrap().0]);
    }
    loop
        invariant
            i < s@.len(),
            i < cur <= s@.len(),
            spec_parse_tag(s@.skip(i as int)) == spec_tag_more(acc.deep_view(),
                s@.skip(cur as int)),
        decreases s@.len() - cur,
    {
        let k = skip_ws(s, cur);
        proof {
            if k < s@.len() {
                assert(s@.skip(k as int)[0] == s@[k as int]);
            }
        }
        if k >= s.len() {
            return None;
        }
        if s[k] == ']' {
            proof {
                assert(s@.skip(k as int).drop_first() =~= s@.skip(k + 1));
            }
            return Some((acc, k + 1));
        }
        if s[k] != ',' {
            return None;
        }
        proof {
            assert(s@.skip(k as int).drop_first() =~= s@.skip(k + 1));
        }
        let k2 = skip_ws(s, k + 1);
        match parse_string(s, k2) {
            Some((t, k3)) => {
                let ghost acc_before = acc.deep_view();
                acc.push(t);
                proof {
                    assert(acc.deep_view() =~= acc_before.push(
                        spec_parse_string(s@.skip(k2 as int)).unwrap().0));
                }
                cur = k3;
            },
            None => {
                return None;
            },
        }
    }
}

/// Parses a JSON array of arrays of strings starting at `i`.
fn parse_tags(s: &Vec<char>, i: usize) -> (r: Option<(Vec<Vec<String>>, usize)>)
    requires
        i <= s@.len(),
    ensures
        (match r {
            Some(p) => i < p.1 <= s@.len() && spec_parse_tags(s@.skip(i as int))
                == Some((p.0.deep_view(), s@.skip(p.1 as int))),
            None => spec_parse_tags(s@.skip(i as int)).is_none(),
        }),
{
    if i >= s.len() || s[i] != '[' {
        proof {
            if i < s@.len() {
                assert(s@.skip(i as int)[0] == s@[i as int]);
            }
        }
        return None;
    }
    proof {
        assert(s@.skip(i as int)[0] == '[');
        assert(s@.skip(i as int).drop_first() =~= s@.skip(i + 1));
    }
    let j = skip_ws(s, i + 1);
    if j < s.len() && s[j] == ']' {
        let acc: Vec<Vec<String>> = Vec::new();
        proof {
            assert(s@.skip(j as int)[0] == ']');
            assert(s@.skip(j as int).drop_first() =~= s@.skip(j + 1));
            assert(acc.deep_view() =~= Seq::<Seq<Seq<char>>>::empty());
        }
        return Some((acc, j + 1));
    }
    proof {
        if j < s@.len() {
            assert(s@.skip(j as int)[0] == s@[j as int]);
        }
    }
    let (t0, mut cur) = match parse_tag(s, j) {
        Some(p) => p,
        None => {
            return None;
        },
    };
    let mut acc: Vec<Vec<String>> = Vec::new();
    let ghost t0v = spec_parse_tag(s@.skip(j as int)).unwrap().0;
    acc.push(t0);
    proof {
        assert(acc.deep_view() =~= seq![t0v]);
    }
    loop
        invariant
            i < s@.len(),
            i < cur <= s@.len(),
            spec_parse_tags(s@.skip(i as int)) == spec_tags_more(acc.deep_view(),
                s@.skip(cur as int)),
        decreases s@.len() - cur,
    {
        let k = skip_ws(s, cur);
        proof {
            if k < s@.len() {
                assert(s@.skip(k as int)[0] == s@[k as int]);
            }
        }
        if k >= s.len() {
            return None;
        }
        if s[k] == ']' {
            proof {
                assert(s@.skip(k as int).drop_first() =~= s@.skip(k + 1));
            }
            return Some((acc, k + 1));
        }
        if s[k] != ',' {
            return None;
        }
        proof {
            assert(s@.skip(k as int).drop_first() =~= s@.skip(k + 1));
        }
        let k2 = skip_ws(s, k + 1);
        match parse_tag(s, k2) {
            Some((t, k3)) => {
                let ghost acc_before = acc.deep_view();
                let ghost tv = spec_parse_tag(s@.skip(k2 as int)).unwrap().0;
                acc.push(t);
                proof {
                    assert(acc.deep_view() =~= acc_before.push(tv));
                }
                cur = k3;
            },
            None => {
                return None;
            },
        }
    }
}


// ---------------------------------------------------------------------
// The event object and the envelope
// ---------------------------------------------------------------------

/// The event fields collected so far, each until seen `None`.
struct Fields {
    id: Option<String>,
    pubkey: Option<String>,
    created_at: Option<u64>,
    kind: Option<u64>,
    tags: Option<Vec<Vec<String>>>,
    content: Option<String>,
    sig: Option<String>,
}

/// The spec-level image of the collected fields.
spec fn spec_fields_view(f: Fields) -> (
    Option<Seq<char>>,
    Option<Seq<char>>,
    Option<u64>,
    Option<u64>,
    Option<Seq<Seq<Seq<char>>>>,
    Option<Seq<char>>,
    Option<Seq<char>>,
) {
    (
        (match f.id { Some(v) => Some(v@), None => None }),
        (match f.pubkey { Some(v) => Some(v@), None => None }),
        f.created_at,
        f.kind,
        (match f.tags { Some(v) => Some(v.deep_view()), None => None }),
        (match f.content { Some(v) => Some(v@), None => None }),
        (match f.sig { Some(v) => Some(v@), None => None }),
    )
}

/// Stores a string value under its key; `None` when the key demands
/// another type; unknown keys are ignored.
pub open spec fn spec_assign_str(
    f: (Option<Seq<char>>, Option<Seq<char>>, Option<u64>, Option<u64>,
        Option<Seq<Seq<Seq<char>>>>, Option<Seq<char>>, Option<Seq<char>>),
    key: Seq<char>,
    t: Seq<char>,
) -> Option<(Option<Seq<char>>, Option<Seq<char>>, Option<u64>, Option<u64>,
    Option<Seq<Seq<Seq<char>>>>, Option<Seq<char>>, Option<Seq<char>>)> {
    if key == "id"@ { Some((Some(t), f.1, f.2, f.3, f.4, f.5, f.6)) }
    else if key == "pubkey"@ { Some((f.0, Some(t), f.2, f.3, f.4, f.5, f.6)) }
    else if key == "content"@ { Some((f.0, f.1, f.2, f.3, f.4, Some(t), f.6)) }
    else if key == "sig"@ { Some((f.0, f.1, f.2, f.3, f.4, f.5, Some(t))) }
    else if key == "created_at"@ || key == "kind"@ || key == "tags"@ { None }
    else { Some(f) }
}

/// Stores a numeric value under its key.
pub open spec fn spec_assign_num(
    f: (Option<Seq<char>>, Option<Seq<char>>, Option<u64>, Option<u64>,
        Option<Seq<Seq<Seq<char>>>>, Option<Seq<char>>, Option<Seq<char>>),
    key: Seq<char>,
    v: u64,
) -> Option<(Option<Seq<char>>, Option<Seq<char>>, Option<u64>, Option<u64>,
    Option<Seq<Seq<Seq<char>>>>, Option<Seq<char>>, Option<Seq<char>>)> {
    if key == "created_at"@ { Some((f.0, f.1, Some(v), f.3, f.4, f.5, f.6)) }
    else if key == "kind"@ { Some((f.0, f.1, f.2, Some(v), f.4, f.5, f.6)) }
    else if key == "id"@ || key == "pubkey"@ || key == "content"@ || key == "sig"@
        || key == "tags"@ { None }
    else { Some(f) }
}

/// Stores a tag-list value under its key.
pub open spec fn spec_assign_tags(
    f: (Option<Seq<char>>, Option<Seq<char>>, Option<u64>, Option<u64>,
        Option<Seq<Seq<Seq<char>>>>, Option<Seq<char>>, Option<Seq<char>>),
    key: Seq<char>,
    tv: Seq<Seq<Seq<char>>>,
) -> Option<(Option<Seq<char>>, Option<Seq<char>>, Option<u64>, Option<u64>,
    Option<Seq<Seq<Seq<char>>>>, Option<Seq<char>>, Option<Seq<char>>)> {
    if key == "tags"@ { Some((f.0, f.1, f.2, f.3, Some(tv), f.5, f.6)) }
    else if key == "id"@ || key == "pubkey"@ || key == "content"@ || key == "sig"@
        || key == "created_at"@ || key == "kind"@ { None }
    else { Some(f) }
}

/// One `"key": value` pair, starting at the key's opening quote.
pub open spec fn spec_obj_entry(
    f: (Option<Seq<char>>, Option<Seq<char>>, Option<u64>, Option<u64>,
        Option<Seq<Seq<Seq<char>>>>, Option<Seq<char>>, Option<Seq<char>>),
    s: Seq<char>,
) -> Option<((Option<Seq<char>>, Option<Seq<char>>, Option<u64>, Option<u64>,
    Option<Seq<Seq<Seq<char>>>>, Option<Seq<char>>, Option<Seq<char>>), Seq<char>)> {
    match spec_parse_string(s) {
        None => None,
        Some((key, r1)) => {
            let r2 = spec_ws(r1);
            if r2.len() > 0 && r2[0] == ':' {
                let r3 = spec_ws(r2.drop_first());
                if r3.len() > 0 && r3[0] == '"' {
                    match spec_parse_string(r3) {
                        Some((t, r4)) => match spec_assign_str(f, key, t) {
                            Some(f2) => Some((f2, r4)),
                            None => None,
                        },
                        None => None,
                    }
                } else if r3.len() > 0 && r3[0] == '[' {
                    match spec_parse_tags(r3) {
                        Some((tv, r4)) => match spec_assign_tags(f, key, tv) {
                            Some(f2) => Some((f2, r4)),
                            None => None,
                        },
                        None => None,
                    }
                } else {
                    match spec_parse_number(r3) {
                        Some((v, r4)) => match spec_assign_num(f, key, v) {
                            Some(f2) => Some((f2, r4)),
                            None => None,
                        },
                        None => None,
                    }
                }
            } else {
                None
            }
        },
    }
}

proof fn lemma_obj_entry_shrinks(
    f: (Option<Seq<char>>, Option<Seq<char>>, Option<u64>, Option<u64>,
        Option<Seq<Seq<Seq<char>>>>, Option<Seq<char>>, Option<Seq<char>>),
    s: Seq<char>,
)
    ensures
        spec_obj_entry(f, s).is_some() ==> spec_obj_entry(f, s).unwrap().1.len() < s.len(),
{
    lemma_parse_string_shrinks(s);
    match spec_parse_string(s) {
        None => {},
        Some((key, r1)) => {
            let r2 = spec_ws(r1);
            lemma_ws_len(r1);
            if r2.len() > 0 && r2[0] == ':' {
                let r3 = spec_ws(r2.drop_first());
                lemma_ws_len(r2.drop_first());
                lemma_parse_string_shrinks(r3);
                lemma_parse_tags_shrinks(r3);
                lemma_parse_number_shrinks(r3);
            }
        },
    }
}

/// The pairs after the first, up to `}`.
pub open spec fn spec_obj_more(
    f: (Option<Seq<char>>, Option<Seq<char>>, Option<u64>, Option<u64>,
        Option<Seq<Seq<Seq<char>>>>, Option<Seq<char>>, Option<Seq<char>>),
    s: Seq<char>,
) -> Option<((Option<Seq<char>>, Option<Seq<char>>, Option<u64>, Option<u64>,
    Option<Seq<Seq<Seq<char>>>>, Option<Seq<char>>, Option<Seq<char>>), Seq<char>)>
    decreases s.len(),
    via spec_obj_more_decreases
{
    let s1 = spec_ws(s);
    if s1.len() > 0 && s1[0] == '}' {
        Some((f, s1.drop_first()))
    } else if s1.len() > 0 && s1[0] == ',' {
        let s2 = spec_ws(s1.drop_first());
        match spec_obj_entry(f, s2) {
            Some((f2, r)) => spec_obj_more(f2, r),
            None => None,
        }
    } else {
        None
    }
}

#[via_fn]
proof fn spec_obj_more_decreases(
    f: (Option<Seq<char>>, Option<Seq<char>>, Option<u64>, Option<u64>,
        Option<Seq<Seq<Seq<char>>>>, Option<Seq<char>>, Option<Seq<char>>),
    s: Seq<char>,
) {
    let s1 = spec_ws(s);
    lemma_ws_len(s);
    if s1.len() > 0 && s1[0] == ',' {
        lemma_ws_len(s1.drop_first());
        lemma_obj_entry_shrinks(f, spec_ws(s1.drop_first()));
    }
}

/// The event object `{ ... }`: the collected fields and the suffix.
pub open spec fn spec_parse_obj(s: Seq<char>) -> Option<((Option<Seq<char>>,
    Option<Seq<char>>, Option<u64>, Option<u64>, Option<Seq<Seq<Seq<char>>>>,
    Option<Seq<char>>, Option<Seq<char>>), Seq<char>)> {
    if s.len() > 0 && s[0] == '{' {
        let s1 = spec_ws(s.drop_first());
        let f0 = (Option::<Seq<char>>::None, Option::<Seq<char>>::None, Option::<u64>::None,
            Option::<u64>::None, Option::<Seq<Seq<Seq<char>>>>::None, Option::<Seq<char>>::None,
            Option::<Seq<char>>::None);
        if s1.len() > 0 && s1[0] == '}' {
            Some((f0, s1.drop_first()))
        } else {
            match spec_obj_entry(f0, s1) {
                Some((f, r)) => spec_obj_more(f, r),
                None => None,
            }
        }
    } else {
        None
    }
}

fn assign_str(f: Fields, key: &str, t: String) -> (r: Option<Fields>)
    ensures
        (match r {
            Some(f2) => spec_assign_str(spec_fields_view(f), key@, t@)
                == Some(spec_fields_view(f2)),
            None => spec_assign_str(spec_fields_view(f), key@, t@).is_none(),
        }),
{
    if strkit::str_eq(key, "id") {
        Some(Fields { id: Some(t), ..f })
    } else if strkit::str_eq(key, "pubkey") {
        Some(Fields { pubkey: Some(t), ..f })
    } else if strkit::str_eq(key, "content") {
        Some(Fields { content: Some(t), ..f })
    } else if strkit::str_eq(key, "sig") {
        Some(Fields { sig: Some(t), ..f })
    } else if strkit::str_eq(key, "created_at") || strkit::str_eq(key, "kind")
        || strkit::str_eq(key, "tags") {
        None
    } else {
        Some(f)
    }
}

fn assign_num(f: Fields, key: &str, v: u64) -> (r: Option<Fields>)
    ensures
        (match r {
            Some(f2) => spec_assign_num(spec_fields_view(f), key@, v)
                == Some(spec_fields_view(f2)),
            None => spec_assign_num(spec_fields_view(f), key@, v).is_none(),
        }),
{
    if strkit::str_eq(key, "created_at") {
        Some(Fields { created_at: Some(v), ..f })
    } else if strkit::str_eq(key, "kind") {
        Some(Fields { kind: Some(v), ..f })
    } else if strkit::str_eq(key, "id") || strkit::str_eq(key, "pubkey")
        || strkit::str_eq(key, "content") || strkit::str_eq(key, "sig")
        || strkit::str_eq(key, "tags") {
        None
    } else {
        Some(f)
    }
}

fn assign_tags(f: Fields, key: &str, tv: Vec<Vec<String>>) -> (r: Option<Fields>)
    ensures
        (match r {
            Some(f2) => spec_assign_tags(spec_fields_view(f), key@, tv.deep_view())
                == Some(spec_fields_view(f2)),
            None => spec_assign_tags(spec_fields_view(f), key@, tv.deep_view()).is_none(),
        }),
{
    if strkit::str_eq(key, "tags") {
        Some(Fields { tags: Some(tv), ..f })
    } else if strkit::str_eq(key, "id") || strkit::str_eq(key, "pubkey")
        || strkit::str_eq(key, "content") || strkit::str_eq(key, "sig")
        || strkit::str_eq(key, "created_at") || strkit::str_eq(key, "kind") {
        None
    } else {
        Some(f)
    }
}

/// Parses one `"key": value` pair starting at `i`.
fn parse_obj_entry(f: Fields, s: &Vec<char>, i: usize) -> (r: Option<(Fields, usize)>)
    requires
        i <= s@.len(),
    ensures
        (match r {
            Some(p) => p.1 <= s@.len() && spec_obj_entry(spec_fields_view(f),
                s@.skip(i as int)) == Some((spec_fields_view(p.0), s@.skip(p.1 as int))),
            None => spec_obj_entry(spec_fields_view(f), s@.skip(i as int)).is_none(),
        }),
{
    let ghost fv = spec_fields_view(f);
    let (key, j1) = match parse_string(s, i) {
        Some(p) => p,
        None => {
            return None;
        },
    };
    let j2 = skip_ws(s, j1);
    proof {
        if j2 < s@.len() {
            assert(s@.skip(j2 as int)[0] == s@[j2 as int]);
        }
    }
    if j2 >= s.len() || s[j2] != ':' {
        return None;
    }
    proof {
        assert(s@.skip(j2 as int).drop_first() =~= s@.skip(j2 + 1));
    }
    let j3 = skip_ws(s, j2 + 1);
    proof {
        if j3 < s@.len() {
            assert(s@.skip(j3 as int)[0] == s@[j3 as int]);
        }
    }
    if j3 < s.len() && s[j3] == '"' {
        match parse_string(s, j3) {
            Some((t, j4)) => {
                match assign_str(f, key.as_str(), t) {
                    Some(f2) => Some((f2, j4)),
                    None => None,
                }
            },
            None => None,
        }
    } else if j3 < s.len() && s[j3] == '[' {
        match parse_tags(s, j3) {
            Some((tv, j4)) => {
                match assign_tags(f, key.as_str(), tv) {
                    Some(f2) => Some((f2, j4)),
                    None => None,
                }
            },
            None => None,
        }
    } else {
        match parse_number(s, j3) {
            Some((v, j4)) => {
                match assign_num(f, key.as_str(), v) {
                    Some(f2) => Some((f2, j4)),
                    None => None,
                }
            },
            None => None,
        }
    }
}

/// Parses the event object `{ ... }` starting at `i`.
fn parse_obj(s: &Vec<char>, i: usize) -> (r: Option<(Fields, usize)>)
    requires
        i <= s@.len(),
    ensures
        (match r {
            Some(p) => p.1 <= s@.len() && spec_parse_obj(s@.skip(i as int))
                == Some((spec_fields_view(p.0), s@.skip(p.1 as int))),
            None => spec_parse_obj(s@.skip(i as int)).is_none(),
        }),
{
    if i >= s.len() || s[i] != '{' {
        proof {
            if i < s@.len() {
                assert(s@.skip(i as int)[0] == s@[i as int]);
            }
        }
        return None;
    }
    proof {
        assert(s@.skip(i as int)[0] == '{');
        assert(s@.skip(i as int).drop_first() =~= s@.skip(i + 1));
    }
    let f0 = Fields {
        id: None,
        pubkey: None,
        created_at: None,
        kind: None,
        tags: None,
        content: None,
        sig: None,
    };
    let j = skip_ws(s, i + 1);
    proof {
        if j < s@.len() {
            assert(s@.skip(j as int)[0] == s@[j as int]);
        }
    }
    if j < s.len() && s[j] == '}' {
        proof {
            assert(s@.skip(j as int).drop_first() =~= s@.skip(j + 1));
        }
        return Some((f0, j + 1));
    }
    let (mut f, mut cur) = match parse_obj_entry(f0, s, j) {
        Some(p) => p,
        None => {
            return None;
        },
    };
    loop
        invariant
            cur <= s@.len(),
            spec_parse_obj(s@.skip(i as int)) == spec_obj_more(spec_fields_view(f),
                s@.skip(cur as int)),
        decreases s@.len() - cur,
    {
        let k = skip_ws(s, cur);
        proof {
            if k < s@.len() {
                assert(s@.skip(k as int)[0] == s@[k as int]);
            }
        }
        if k >= s.len() {
            return None;
        }
        if s[k] == '}' {
            proof {
                assert(s@.skip(k as int).drop_first() =~= s@.skip(k + 1));
            }
            return Some((f, k + 1));
        }
        if s[k] != ',' {
            return None;
        }
        proof {
            assert(s@.skip(k as int).drop_first() =~= s@.skip(k + 1));
        }
        let k2 = skip_ws(s, k + 1);
        match parse_obj_entry(f, s, k2) {
            Some((f2, k3)) => {
                proof {
                    lemma_ws_len(s@.skip(cur as int));
                    lemma_ws_len(s@.skip(k + 1));
                    lemma_obj_entry_shrinks(spec_fields_view(f2), s@.skip(k2 as int));
                }
                f = f2;
                cur = k3;
            },
            None => {
                return None;
            },
        }
    }
}


/// What a whole inbound frame denotes: the subscription id and the
/// seven event fields, or nothing for a frame that is not a complete
/// `["EVENT", <id>, {...}]` with every field present.
pub open spec fn spec_parse_frame(s: Seq<char>) -> Option<(Seq<char>, (Seq<char>, Seq<char>,
    u64, u64, Seq<Seq<Seq<char>>>, Seq<char>, Seq<char>))> {
    let s0 = spec_ws(s);
    if s0.len() > 0 && s0[0] == '[' {
        let s1 = spec_ws(s0.drop_first());
        match spec_parse_string(s1) {
            Some((mtype, r1)) => {
                if mtype == "EVENT"@ {
                    let r2 = spec_ws(r1);
                    if r2.len() > 0 && r2[0] == ',' {
                        let r3 = spec_ws(r2.drop_first());
                        match spec_parse_string(r3) {
                            Some((subid, r4)) => {
                                let r5 = spec_ws(r4);
                                if r5.len() > 0 && r5[0] == ',' {
                                    let r6 = spec_ws(r5.drop_first());
                                    match spec_parse_obj(r6) {
                                        Some((f, r7)) => {
                                            let r8 = spec_ws(r7);
                                            if r8.len() > 0 && r8[0] == ']'
                                                && spec_ws(r8.drop_first()).len() == 0
                                                && f.0.is_some() && f.1.is_some()
                                                && f.2.is_some() && f.3.is_some()
                                                && f.4.is_some() && f.5.is_some()
                                                && f.6.is_some() {
                                                Some((subid, (f.0.unwrap(), f.1.unwrap(),
                                                    f.2.unwrap(), f.3.unwrap(), f.4.unwrap(),
                                                    f.5.unwrap(), f.6.unwrap())))
                                            } else {
                                                None
                                            }
                                        },
                                        None => None,
                                    }
                                } else {
                                    None
                                }
                            },
                            None => None,
                        }
                    } else {
                        None
                    }
                } else {
                    None
                }
            },
            None => None,
        }
    } else {
        None
    }
}

/// The characters of a string as a vector.
fn str_to_chars(s: &str) -> (r: Vec<char>)
    ensures
        r@ == s@,
{
    let n = s.unicode_len();
    let mut r: Vec<char> = Vec::new();
    let mut i: usize = 0;
    while i < n
        invariant
            0 <= i <= n,
            n == s@.len(),
            r@ =~= s@.take(i as int),
        decreases n - i,
    {
        r.push(s.get_char(i));
        proof {
            assert(s@.take(i + 1) =~= s@.take(i as int).push(s@[i as int]));
        }
        i += 1;
    }
    proof {
        assert(s@.take(n as int) =~= s@);
    }
    r
}

/// Parses an inbound `["EVENT", <subscription id>, {...}]` frame into a
/// `Message`; an error exactly when the text is not such a frame with
/// every event field present. The caller drops the frame and goes on.
pub fn wire_parse(text: &str) -> (r: Result<crate::nostr::Message, String>)
    ensures
        (match spec_parse_frame(text@) {
            Some(m) => r.is_ok() && {
                let msg = r.unwrap();
                &&& msg.msg_type@ == "EVENT"@
                &&& msg.subscription_id@ == m.0
                &&& msg.content.id@ == m.1.0
                &&& msg.content.pubkey@ == m.1.1
                &&& msg.content.created_at == m.1.2
                &&& msg.content.kind == m.1.3
                &&& msg.content.tags.deep_view() == m.1.4
                &&& msg.content.content@ == m.1.5
                &&& msg.content.sig@ == m.1.6
            },
            None => r.is_err(),
        }),
{
    let s = str_to_chars(text);
    proof {
        assert(s@.skip(0) =~= s@);
    }
    let i0 = skip_ws(&s, 0);
    proof {
        if i0 < s@.len() {
            assert(s@.skip(i0 as int)[0] == s@[i0 as int]);
        }
    }
    if i0 >= s.len() || s[i0] != '[' {
        return Err("expected an array frame".to_owned());
    }
    proof {
        assert(s@.skip(i0 as int).drop_first() =~= s@.skip(i0 + 1));
    }
    let i1 = skip_ws(&s, i0 + 1);
    let (mtype, j1) = match parse_string(&s, i1) {
        Some(p) => p,
        None => {
            return Err("expected a message type".to_owned());
        },
    };
    if !strkit::str_eq(mtype.as_str(), "EVENT") {
        return Err("not an EVENT frame".to_owned());
    }
    let j2 = skip_ws(&s, j1);
    proof {
        if j2 < s@.len() {
            assert(s@.skip(j2 as int)[0] == s@[j2 as int]);
        }
    }
    if j2 >= s.len() || s[j2] != ',' {
        return Err("expected a comma".to_owned());
    }
    proof {
        assert(s@.skip(j2 as int).drop_first() =~= s@.skip(j2 + 1));
    }
    let j3 = skip_ws(&s, j2 + 1);
    let (subid, j4) = match parse_string(&s, j3) {
        Some(p) => p,
        None => {
            return Err("expected a subscription id".to_owned());
        },
    };
    let j5 = skip_ws(&s, j4);
    proof {
        if j5 < s@.len() {
            assert(s@.skip(j5 as int)[0] == s@[j5 as int]);
        }
    }
    if j5 >= s.len() || s[j5] != ',' {
        return Err("expected a comma".to_owned());
    }
    proof {
        assert(s@.skip(j5 as int).drop_first() =~= s@.skip(j5 + 1));
    }
    let j6 = skip_ws(&s, j5 + 1);
    let (fields, j7) = match parse_obj(&s, j6) {
        Some(p) => p,
        None => {
            return Err("expected an event object".to_owned());
        },
    };
    let j8 = skip_ws(&s, j7);
    proof {
        if j8 < s@.len() {
            assert(s@.skip(j8 as int)[0] == s@[j8 as int]);
        }
    }
    if j8 >= s.len() || s[j8] != ']' {
        return Err("expected the end of the frame".to_owned());
    }
    proof {
        assert(s@.skip(j8 as int).drop_first() =~= s@.skip(j8 + 1));
    }
    let j9 = skip_ws(&s, j8 + 1);
    if j9 != s.len() {
        return Err("trailing text after the frame".to_owned());
    }
    proof {
        assert(s@.skip(j9 as int).len() == 0);
    }
    match fields {
        Fields {
            id: Some(id),
            pubkey: Some(pubkey),
            created_at: Some(created_at),
            kind: Some(kind),
            tags: Some(tags),
            content: Some(content),
            sig: Some(sig),
        } => Ok(crate::nostr::Message {
            msg_type: mtype,
            subscription_id: subid,
            content: crate::nostr::Event {
                id,
                pubkey,
                created_at,
                kind,
                tags,
                content,
                sig,
            },
        }),
        _ => Err("an event field is missing".to_owned()),
    }
}


// ---------------------------------------------------------------------
// The escaping used on the way out and the decoding used on the way in
// agree: a string emitted between quotes parses back to itself.
// ---------------------------------------------------------------------

proof fn lemma_hex_val_of_digit(d: u8)
    requires
        d < 16,
    ensures
        spec_hex_val(crate::keys::spec_hex_digit(d)) == d,
{
}

/// Parsing the body of an emitted string literal recovers the original
/// characters exactly, whatever follows the closing quote: the wire
/// format's escaping and the parser's decoding never diverge.
pub proof fn lemma_unescape_escape(t: Seq<char>, tail: Seq<char>)
    ensures
        spec_str_body(crate::nostr::spec_escape(t) + seq!['"'] + tail) == Some((t, tail)),
    decreases t.len(),
{
    if t.len() == 0 {
        let s = crate::nostr::spec_escape(t) + seq!['"'] + tail;
        assert(s =~= seq!['"'] + tail);
        assert(s.drop_first() =~= tail);
    } else {
        lemma_unescape_escape(t.drop_first(), tail);
        let c = t[0];
        let s = crate::nostr::spec_escape(t) + seq!['"'] + tail;
        let s_rest = crate::nostr::spec_escape(t.drop_first()) + seq!['"'] + tail;
        assert(s =~= crate::nostr::spec_escape_char(c) + s_rest);
        assert(seq![c] + t.drop_first() =~= t);
        if c == '"' {
            assert(s[0] == '\\' && s[1] == '"');
            assert(spec_esc_char(s[1]) == Some(c));
            assert(s.skip(2) =~= s_rest);
        } else if c == '\\' {
            assert(s[0] == '\\' && s[1] == '\\');
            assert(spec_esc_char(s[1]) == Some(c));
            assert(s.skip(2) =~= s_rest);
        } else if c == '\n' {
            assert(s[0] == '\\' && s[1] == 'n');
            assert(spec_esc_char(s[1]) == Some(c));
            assert(s.skip(2) =~= s_rest);
        } else if c == '\r' {
            assert(s[0] == '\\' && s[1] == 'r');
            assert(spec_esc_char(s[1]) == Some(c));
            assert(s.skip(2) =~= s_rest);
        } else if c == '\t' {
            assert(s[0] == '\\' && s[1] == 't');
            assert(spec_esc_char(s[1]) == Some(c));
            assert(s.skip(2) =~= s_rest);
        } else if c as u32 == 8 {
            assert(s[0] == '\\' && s[1] == 'b');
            vstd::utf8::char_u32_cast(c, c as u32);
            vstd::utf8::char_u32_cast(8u8 as char, (8u8 as char) as u32);
            assert((8u8 as char) as u32 == 8);
            assert(spec_esc_char(s[1]) == Some(c));
            assert(s.skip(2) =~= s_rest);
        } else if c as u32 == 12 {
            assert(s[0] == '\\' && s[1] == 'f');
            vstd::utf8::char_u32_cast(c, c as u32);
            vstd::utf8::char_u32_cast(12u8 as char, (12u8 as char) as u32);
            assert((12u8 as char) as u32 == 12);
            assert(spec_esc_char(s[1]) == Some(c));
            assert(s.skip(2) =~= s_rest);
        } else if (c as u32) < 32 {
            assert(s[0] == '\\' && s[1] == 'u' && s[2] == '0' && s[3] == '0');
            assert(s[4] == crate::keys::spec_hex_digit((c as u32 / 16) as u8));
            assert(s[5] == crate::keys::spec_hex_digit((c as u32 % 16) as u8));
            assert(spec_esc_char('u').is_none());
            let h = s.subrange(2, 6);
            lemma_hex_val_of_digit((c as u32 / 16) as u8);
            lemma_hex_val_of_digit((c as u32 % 16) as u8);
            assert(spec_hex_val(h[0]) == 0 && spec_hex_val(h[1]) == 0);
            assert(spec_hex_val(h[2]) == c as u32 / 16);
            assert(spec_hex_val(h[3]) == c as u32 % 16);
            let v = spec_hex_val(h[0]) * 4096 + spec_hex_val(h[1]) * 256
                + spec_hex_val(h[2]) * 16 + spec_hex_val(h[3]);
            assert(v == c as u32);
            vstd::utf8::char_is_scalar(c);
            assert(vstd::utf8::is_scalar(v as u32));
            vstd::utf8::char_u32_cast(c, c as u32);
            assert(spec_u_escape(h) == Some(c));
            assert(s.skip(6) =~= s_rest);
        } else {
            assert(s[0] == c);
            assert(c != '"' && c != '\\' && (c as u32) >= 32);
            assert(s.drop_first() =~= s_rest);
        }
    }
}

/// An emitted JSON string literal parses back to the text it encodes.
pub proof fn lemma_parse_quoted(t: Seq<char>, tail: Seq<char>)
    ensures
        spec_parse_string(crate::nostr::spec_quoted(t) + tail) == Some((t, tail)),
{
    let s = crate::nostr::spec_quoted(t) + tail;
    assert(s[0] == '"');
    assert(s.drop_first() =~= crate::nostr::spec_escape(t) + seq!['"'] + tail);
    lemma_unescape_escape(t, tail);
}


// ---------------------------------------------------------------------
// Parsing what the formatter emitted
// ---------------------------------------------------------------------

proof fn lemma_ws_noop(s: Seq<char>)
    requires
        s.len() == 0 || !spec_is_ws(s[0]),
    ensures
        spec_ws(s) == s,
{
}

proof fn lemma_digits_of_prefix(d: Seq<char>, tail: Seq<char>)
    requires
        forall|i: int| 0 <= i < d.len() ==> strkit::spec_is_digit(#[trigger] d[i]),
        tail.len() == 0 || !strkit::spec_is_digit(tail[0]),
    ensures
        spec_digits(d + tail) == (d, tail),
    decreases d.len(),
{
    if d.len() == 0 {
        assert(d + tail =~= tail);
        if tail.len() > 0 {
            assert(spec_digits(tail) == (Seq::<char>::empty(), tail));
        }
        assert(spec_digits(d + tail).0 =~= d);
    } else {
        lemma_digits_of_prefix(d.drop_first(), tail);
        assert((d + tail)[0] == d[0]);
        assert((d + tail).drop_first() =~= d.drop_first() + tail);
        assert(seq![d[0]] + d.drop_first() =~= d);
    }
}

/// A rendered decimal number followed by a non-digit parses back to
/// its value.
proof fn lemma_parse_number_rendered(n: u64, tail: Seq<char>)
    requires
        tail.len() == 0 || !strkit::spec_is_digit(tail[0]),
    ensures
        spec_parse_number(strkit::spec_u64_dec(n as int) + tail) == Some((n, tail)),
{
    strkit::lemma_dec_roundtrip(n);
    let d = strkit::spec_u64_dec(n as int);
    assert(strkit::spec_all_digits(d));
    lemma_digits_of_prefix(d, tail);
}

proof fn lemma_escape_plain(s: Seq<char>)
    requires
        forall|i: int| 0 <= i < s.len()
            ==> (#[trigger] s[i]) != '"' && s[i] != '\\' && (s[i] as u32) >= 32,
    ensures
        crate::nostr::spec_escape(s) =~= s,
    decreases s.len(),
{
    if s.len() > 0 {
        assert(forall|i: int| 0 <= i < s.drop_first().len()
            ==> (#[trigger] s.drop_first()[i]) != '"' && s.drop_first()[i] != '\\'
                && (s.drop_first()[i] as u32) >= 32);
        lemma_escape_plain(s.drop_first());
        assert(crate::nostr::spec_escape_char(s[0]) =~= seq![s[0]]);
    }
}

proof fn lemma_tag_more_rendered(acc: Seq<Seq<char>>, rest: Seq<Seq<char>>, tail: Seq<char>)
    ensures
        spec_tag_more(acc, crate::nostr::spec_tag_rest(rest) + tail) == Some((acc + rest, tail)),
    decreases rest.len(),
{
    let s = crate::nostr::spec_tag_rest(rest) + tail;
    if rest.len() == 0 {
        assert(s =~= seq![']'] + tail);
        assert(s[0] == ']');
        lemma_ws_noop(s);
        assert(s.drop_first() =~= tail);
        assert(acc + rest =~= acc);
    } else {
        let r0 = rest[0];
        let inner = crate::nostr::spec_tag_rest(rest.drop_first()) + tail;
        assert(s =~= seq![','] + (crate::nostr::spec_quoted(r0) + inner));
        assert(s[0] == ',');
        lemma_ws_noop(s);
        assert(s.drop_first() =~= crate::nostr::spec_quoted(r0) + inner);
        assert((crate::nostr::spec_quoted(r0) + inner)[0] == '"');
        lemma_ws_noop(crate::nostr::spec_quoted(r0) + inner);
        lemma_parse_quoted(r0, inner);
        lemma_tag_more_rendered(acc.push(r0), rest.drop_first(), tail);
        assert(acc.push(r0) + rest.drop_first() =~= acc + rest);
    }
}

/// A rendered tag array parses back to its elements.
proof fn lemma_parse_tag_rendered(t: Seq<Seq<char>>, tail: Seq<char>)
    ensures
        spec_parse_tag(crate::nostr::spec_tag_json(t) + tail) == Some((t, tail)),
{
    let s = crate::nostr::spec_tag_json(t) + tail;
    if t.len() == 0 {
        assert(s =~= seq!['[', ']'] + tail);
        assert(s[0] == '[');
        assert(s.drop_first() =~= seq![']'] + tail);
        lemma_ws_noop(s.drop_first());
        assert(s.drop_first()[0] == ']');
        assert(s.drop_first().drop_first() =~= tail);
        assert(spec_parse_tag(s) == Some((Seq::<Seq<char>>::empty(), tail)));
        assert(Seq::<Seq<char>>::empty() =~= t);
    } else {
        let inner = crate::nostr::spec_tag_rest(t.drop_first()) + tail;
        assert(s[0] == '[');
        assert(s.drop_first() =~= crate::nostr::spec_quoted(t[0]) + inner);
        assert((crate::nostr::spec_quoted(t[0]) + inner)[0] == '"');
        lemma_ws_noop(crate::nostr::spec_quoted(t[0]) + inner);
        lemma_parse_quoted(t[0], inner);
        lemma_tag_more_rendered(seq![t[0]], t.drop_first(), tail);
        assert(seq![t[0]] + t.drop_first() =~= t);
    }
}

proof fn lemma_tags_more_rendered(
    acc: Seq<Seq<Seq<char>>>,
    rest: Seq<Seq<Seq<char>>>,
    tail: Seq<char>,
)
    ensures
        spec_tags_more(acc, crate::nostr::spec_tags_rest(rest) + tail)
            == Some((acc + rest, tail)),
    decreases rest.len(),
{
    let s = crate::nostr::spec_tags_rest(rest) + tail;
    if rest.len() == 0 {
        assert(s =~= seq![']'] + tail);
        assert(s[0] == ']');
        lemma_ws_noop(s);
        assert(s.drop_first() =~= tail);
        assert(acc + rest =~= acc);
    } else {
        let r0 = rest[0];
        let inner = crate::nostr::spec_tags_rest(rest.drop_first()) + tail;
        assert(s =~= seq![','] + (crate::nostr::spec_tag_json(r0) + inner));
        assert(s[0] == ',');
        lemma_ws_noop(s);
        assert(s.drop_first() =~= crate::nostr::spec_tag_json(r0) + inner);
        assert((crate::nostr::spec_tag_json(r0) + inner)[0] == '[');
        lemma_ws_noop(crate::nostr::spec_tag_json(r0) + inner);
        lemma_parse_tag_rendered(r0, inner);
        lemma_tags_more_rendered(acc.push(r0), rest.drop_first(), tail);
        assert(acc.push(r0) + rest.drop_first() =~= acc + rest);
    }
}

/// A rendered tag list parses back to its tags.
proof fn lemma_parse_tags_rendered(ts: Seq<Seq<Seq<char>>>, tail: Seq<char>)
    ensures
        spec_parse_tags(crate::nostr::spec_tags_json(ts) + tail) == Some((ts, tail)),
{
    let s = crate::nostr::spec_tags_json(ts) + tail;
    if ts.len() == 0 {
        assert(s =~= seq!['[', ']'] + tail);
        assert(s[0] == '[');
        assert(s.drop_first() =~= seq![']'] + tail);
        lemma_ws_noop(s.drop_first());
        assert(s.drop_first()[0] == ']');
        assert(s.drop_first().drop_first() =~= tail);
        assert(spec_parse_tags(s) == Some((Seq::<Seq<Seq<char>>>::empty(), tail)));
        assert(Seq::<Seq<Seq<char>>>::empty() =~= ts);
    } else {
        let inner = crate::nostr::spec_tags_rest(ts.drop_first()) + tail;
        assert(s[0] == '[');
        assert(s.drop_first() =~= crate::nostr::spec_tag_json(ts[0]) + inner);
        assert((crate::nostr::spec_tag_json(ts[0]) + inner)[0] == '[');
        lemma_ws_noop(crate::nostr::spec_tag_json(ts[0]) + inner);
        lemma_parse_tag_rendered(ts[0], inner);
        lemma_tags_more_rendered(seq![ts[0]], ts.drop_first(), tail);
        assert(seq![ts[0]] + ts.drop_first() =~= ts);
    }
}


/// A key's characters as they stand between quotes on the wire: no
/// quote, no backslash, no control character.
spec fn plain_chars(s: Seq<char>) -> bool {
    forall|i: int| 0 <= i < s.len()
        ==> (#[trigger] s[i]) != '"' && s[i] != '\\' && (s[i] as u32) >= 32
}

proof fn lemma_entry_str(
    f: (Option<Seq<char>>, Option<Seq<char>>, Option<u64>, Option<u64>,
        Option<Seq<Seq<Seq<char>>>>, Option<Seq<char>>, Option<Seq<char>>),
    key: Seq<char>,
    value: Seq<char>,
    tail: Seq<char>,
)
    requires
        plain_chars(key),
        spec_assign_str(f, key, value).is_some(),
    ensures
        spec_obj_entry(f, crate::nostr::spec_quoted(key) + seq![':']
            + crate::nostr::spec_quoted(value) + tail)
            == Some((spec_assign_str(f, key, value).unwrap(), tail)),
{
    let rst = seq![':'] + (crate::nostr::spec_quoted(value) + tail);
    let s = crate::nostr::spec_quoted(key) + seq![':'] + crate::nostr::spec_quoted(value) + tail;
    assert(s =~= crate::nostr::spec_quoted(key) + rst);
    lemma_parse_quoted(key, rst);
    lemma_ws_noop(rst);
    assert(rst[0] == ':');
    assert(rst.drop_first() =~= crate::nostr::spec_quoted(value) + tail);
    assert((crate::nostr::spec_quoted(value) + tail)[0] == '"');
    lemma_ws_noop(crate::nostr::spec_quoted(value) + tail);
    lemma_parse_quoted(value, tail);
}

proof fn lemma_entry_num(
    f: (Option<Seq<char>>, Option<Seq<char>>, Option<u64>, Option<u64>,
        Option<Seq<Seq<Seq<char>>>>, Option<Seq<char>>, Option<Seq<char>>),
    key: Seq<char>,
    n: u64,
    tail: Seq<char>,
)
    requires
        plain_chars(key),
        spec_assign_num(f, key, n).is_some(),
        tail.len() == 0 || !strkit::spec_is_digit(tail[0]),
    ensures
        spec_obj_entry(f, crate::nostr::spec_quoted(key) + seq![':']
            + strkit::spec_u64_dec(n as int) + tail)
            == Some((spec_assign_num(f, key, n).unwrap(), tail)),
{
    let num = strkit::spec_u64_dec(n as int);
    let rst = seq![':'] + (num + tail);
    let s = crate::nostr::spec_quoted(key) + seq![':'] + num + tail;
    assert(s =~= crate::nostr::spec_quoted(key) + rst);
    lemma_parse_quoted(key, rst);
    lemma_ws_noop(rst);
    assert(rst[0] == ':');
    assert(rst.drop_first() =~= num + tail);
    strkit::lemma_dec_roundtrip(n);
    assert(strkit::spec_all_digits(num));
    assert(strkit::spec_is_digit(num[0]));
    assert((num + tail)[0] == num[0]);
    assert(num[0] != '"' && num[0] != '[');
    lemma_ws_noop(num + tail);
    lemma_parse_number_rendered(n, tail);
}

proof fn lemma_entry_tags(
    f: (Option<Seq<char>>, Option<Seq<char>>, Option<u64>, Option<u64>,
        Option<Seq<Seq<Seq<char>>>>, Option<Seq<char>>, Option<Seq<char>>),
    key: Seq<char>,
    ts: Seq<Seq<Seq<char>>>,
    tail: Seq<char>,
)
    requires
        plain_chars(key),
        spec_assign_tags(f, key, ts).is_some(),
    ensures
        spec_obj_entry(f, crate::nostr::spec_quoted(key) + seq![':']
            + crate::nostr::spec_tags_json(ts) + tail)
            == Some((spec_assign_tags(f, key, ts).unwrap(), tail)),
{
    let body = crate::nostr::spec_tags_json(ts);
    let rst = seq![':'] + (body + tail);
    let s = crate::nostr::spec_quoted(key) + seq![':'] + body + tail;
    assert(s =~= crate::nostr::spec_quoted(key) + rst);
    lemma_parse_quoted(key, rst);
    lemma_ws_noop(rst);
    assert(rst[0] == ':');
    assert(rst.drop_first() =~= body + tail);
    assert(body[0] == '[');
    assert((body + tail)[0] == '[');
    lemma_ws_noop(body + tail);
    lemma_parse_tags_rendered(ts, tail);
}

proof fn lemma_more_str(
    f: (Option<Seq<char>>, Option<Seq<char>>, Option<u64>, Option<u64>,
        Option<Seq<Seq<Seq<char>>>>, Option<Seq<char>>, Option<Seq<char>>),
    key: Seq<char>,
    value: Seq<char>,
    rest: Seq<char>,
)
    requires
        plain_chars(key),
        spec_assign_str(f, key, value).is_some(),
    ensures
        spec_obj_more(f, seq![','] + (crate::nostr::spec_quoted(key) + seq![':']
            + crate::nostr::spec_quoted(value) + rest))
            == spec_obj_more(spec_assign_str(f, key, value).unwrap(), rest),
{
    let e = crate::nostr::spec_quoted(key) + seq![':'] + crate::nostr::spec_quoted(value)
        + rest;
    let s = seq![','] + e;
    assert(s[0] == ',');
    lemma_ws_noop(s);
    assert(s.drop_first() =~= e);
    assert(e[0] == '"');
    lemma_ws_noop(e);
    lemma_entry_str(f, key, value, rest);
}

proof fn lemma_more_num(
    f: (Option<Seq<char>>, Option<Seq<char>>, Option<u64>, Option<u64>,
        Option<Seq<Seq<Seq<char>>>>, Option<Seq<char>>, Option<Seq<char>>),
    key: Seq<char>,
    n: u64,
    rest: Seq<char>,
)
    requires
        plain_chars(key),
        spec_assign_num(f, key, n).is_some(),
        rest.len() == 0 || !strkit::spec_is_digit(rest[0]),
    ensures
        spec_obj_more(f, seq![','] + (crate::nostr::spec_quoted(key) + seq![':']
            + strkit::spec_u64_dec(n as int) + rest))
            == spec_obj_more(spec_assign_num(f, key, n).unwrap(), rest),
{
    let e = crate::nostr::spec_quoted(key) + seq![':'] + strkit::spec_u64_dec(n as int)
        + rest;
    let s = seq![','] + e;
    assert(s[0] == ',');
    lemma_ws_noop(s);
    assert(s.drop_first() =~= e);
    assert(e[0] == '"');
    lemma_ws_noop(e);
    lemma_entry_num(f, key, n, rest);
}

proof fn lemma_more_tags(
    f: (Option<Seq<char>>, Option<Seq<char>>, Option<u64>, Option<u64>,
        Option<Seq<Seq<Seq<char>>>>, Option<Seq<char>>, Option<Seq<char>>),
    key: Seq<char>,
    ts: Seq<Seq<Seq<char>>>,
    rest: Seq<char>,
)
    requires
        plain_chars(key),
        spec_assign_tags(f, key, ts).is_some(),
    ensures
        spec_obj_more(f, seq![','] + (crate::nostr::spec_quoted(key) + seq![':']
            + crate::nostr::spec_tags_json(ts) + rest))
            == spec_obj_more(spec_assign_tags(f, key, ts).unwrap(), rest),
{
    let e = crate::nostr::spec_quoted(key) + seq![':'] + crate::nostr::spec_tags_json(ts)
        + rest;
    let s = seq![','] + e;
    assert(s[0] == ',');
    lemma_ws_noop(s);
    assert(s.drop_first() =~= e);
    assert(e[0] == '"');
    lemma_ws_noop(e);
    lemma_entry_tags(f, key, ts, rest);
}

proof fn lemma_more_close(
    f: (Option<Seq<char>>, Option<Seq<char>>, Option<u64>, Option<u64>,
        Option<Seq<Seq<Seq<char>>>>, Option<Seq<char>>, Option<Seq<char>>),
    tail: Seq<char>,
)
    ensures
        spec_obj_more(f, seq!['}'] + tail) == Some((f, tail)),
{
    let s = seq!['}'] + tail;
    assert(s[0] == '}');
    lemma_ws_noop(s);
    assert(s.drop_first() =~= tail);
}

// The emitted object text, fragment by fragment, and the field record
// each prefix of it leaves behind.

spec fn key_id() -> Seq<char> { seq!['i', 'd'] }

spec fn key_pubkey() -> Seq<char> { seq!['p', 'u', 'b', 'k', 'e', 'y'] }

spec fn key_created_at() -> Seq<char> {
    seq!['c', 'r', 'e', 'a', 't', 'e', 'd', '_', 'a', 't']
}

spec fn key_kind() -> Seq<char> { seq!['k', 'i', 'n', 'd'] }

spec fn key_tags() -> Seq<char> { seq!['t', 'a', 'g', 's'] }

spec fn key_content() -> Seq<char> { seq!['c', 'o', 'n', 't', 'e', 'n', 't'] }

spec fn key_sig() -> Seq<char> { seq!['s', 'i', 'g'] }

spec fn obj_frag7(ev: crate::nostr::Event, tail: Seq<char>) -> Seq<char> {
    crate::nostr::spec_quoted(key_sig()) + seq![':'] + crate::nostr::spec_quoted(ev.sig@)
        + (seq!['}'] + tail)
}

spec fn obj_frag6(ev: crate::nostr::Event, tail: Seq<char>) -> Seq<char> {
    crate::nostr::spec_quoted(key_content()) + seq![':']
        + crate::nostr::spec_quoted(ev.content@) + (seq![','] + obj_frag7(ev, tail))
}

spec fn obj_frag5(ev: crate::nostr::Event, tail: Seq<char>) -> Seq<char> {
    crate::nostr::spec_quoted(key_tags()) + seq![':']
        + crate::nostr::spec_tags_json(ev.tags.deep_view()) + (seq![','] + obj_frag6(ev, tail))
}

spec fn obj_frag4(ev: crate::nostr::Event, tail: Seq<char>) -> Seq<char> {
    crate::nostr::spec_quoted(key_kind()) + seq![':'] + strkit::spec_u64_dec(ev.kind as int)
        + (seq![','] + obj_frag5(ev, tail))
}

spec fn obj_frag3(ev: crate::nostr::Event, tail: Seq<char>) -> Seq<char> {
    crate::nostr::spec_quoted(key_created_at()) + seq![':']
        + strkit::spec_u64_dec(ev.created_at as int) + (seq![','] + obj_frag4(ev, tail))
}

spec fn obj_frag2(ev: crate::nostr::Event, tail: Seq<char>) -> Seq<char> {
    crate::nostr::spec_quoted(key_pubkey()) + seq![':']
        + crate::nostr::spec_quoted(ev.pubkey@) + (seq![','] + obj_frag3(ev, tail))
}

spec fn obj_frag1(ev: crate::nostr::Event, tail: Seq<char>) -> Seq<char> {
    crate::nostr::spec_quoted(key_id()) + seq![':'] + crate::nostr::spec_quoted(ev.id@)
        + (seq![','] + obj_frag2(ev, tail))
}

spec fn fields0() -> (Option<Seq<char>>, Option<Seq<char>>, Option<u64>, Option<u64>,
    Option<Seq<Seq<Seq<char>>>>, Option<Seq<char>>, Option<Seq<char>>) {
    (None, None, None, None, None, None, None)
}

spec fn fields_of(ev: crate::nostr::Event) -> (Option<Seq<char>>, Option<Seq<char>>,
    Option<u64>, Option<u64>, Option<Seq<Seq<Seq<char>>>>, Option<Seq<char>>,
    Option<Seq<char>>) {
    (Some(ev.id@), Some(ev.pubkey@), Some(ev.created_at), Some(ev.kind),
        Some(ev.tags.deep_view()), Some(ev.content@), Some(ev.sig@))
}

proof fn lemma_keys_plain()
    ensures
        plain_chars(key_id()) && plain_chars(key_pubkey()) && plain_chars(key_created_at())
            && plain_chars(key_kind()) && plain_chars(key_tags())
            && plain_chars(key_content()) && plain_chars(key_sig()),
        "id"@ == key_id() && "pubkey"@ == key_pubkey() && "created_at"@ == key_created_at()
            && "kind"@ == key_kind() && "tags"@ == key_tags()
            && "content"@ == key_content() && "sig"@ == key_sig(),
{
    reveal_strlit("id");
    reveal_strlit("pubkey");
    reveal_strlit("created_at");
    reveal_strlit("kind");
    reveal_strlit("tags");
    reveal_strlit("content");
    reveal_strlit("sig");
    assert("id"@ =~= key_id());
    assert("pubkey"@ =~= key_pubkey());
    assert("created_at"@ =~= key_created_at());
    assert("kind"@ =~= key_kind());
    assert("tags"@ =~= key_tags());
    assert("content"@ =~= key_content());
    assert("sig"@ =~= key_sig());
}

/// The emitted object text regrouped into its parse-shaped fragments.
#[verifier::rlimit(100)]
#[verifier::spinoff_prover]
proof fn lemma_obj_regroup(ev: crate::nostr::Event, tail: Seq<char>)
    ensures
        crate::nostr::spec_event_obj(ev) + tail =~= seq!['{'] + obj_frag1(ev, tail),
{
    lemma_keys_plain();
    lemma_escape_plain(key_id());
    lemma_escape_plain(key_pubkey());
    lemma_escape_plain(key_created_at());
    lemma_escape_plain(key_kind());
    lemma_escape_plain(key_tags());
    lemma_escape_plain(key_content());
    lemma_escape_plain(key_sig());
    reveal_strlit("{\"id\":");
    reveal_strlit(",\"pubkey\":");
    reveal_strlit(",\"created_at\":");
    reveal_strlit(",\"kind\":");
    reveal_strlit(",\"tags\":");
    reveal_strlit(",\"content\":");
    reveal_strlit(",\"sig\":");
    reveal_strlit("}");
    assert("{\"id\":"@ =~= seq!['{'] + (crate::nostr::spec_quoted(key_id()) + seq![':']));
    assert(",\"pubkey\":"@ =~= seq![','] + (crate::nostr::spec_quoted(key_pubkey())
        + seq![':']));
    assert(",\"created_at\":"@ =~= seq![','] + (crate::nostr::spec_quoted(key_created_at())
        + seq![':']));
    assert(",\"kind\":"@ =~= seq![','] + (crate::nostr::spec_quoted(key_kind()) + seq![':']));
    assert(",\"tags\":"@ =~= seq![','] + (crate::nostr::spec_quoted(key_tags()) + seq![':']));
    assert(",\"content\":"@ =~= seq![','] + (crate::nostr::spec_quoted(key_content())
        + seq![':']));
    assert(",\"sig\":"@ =~= seq![','] + (crate::nostr::spec_quoted(key_sig()) + seq![':']));
    assert("}"@ =~= seq!['}']);
    assert(crate::nostr::spec_event_obj(ev) + tail =~= seq!['{'] + obj_frag1(ev, tail));
}

proof fn lemma_obj_step2(ev: crate::nostr::Event, tail: Seq<char>)
    ensures
        spec_obj_more((Some(ev.id@), None, None, None, None, None, None),
            seq![','] + obj_frag2(ev, tail))
            == spec_obj_more((Some(ev.id@), Some(ev.pubkey@), None, None, None, None, None),
            seq![','] + obj_frag3(ev, tail)),
{
    lemma_keys_plain();
    let f = (Some(ev.id@), Option::<Seq<char>>::None, Option::<u64>::None, Option::<u64>::None,
        Option::<Seq<Seq<Seq<char>>>>::None, Option::<Seq<char>>::None,
        Option::<Seq<char>>::None);
    assert(spec_assign_str(f, key_pubkey(), ev.pubkey@).is_some());
    lemma_more_str(f, key_pubkey(), ev.pubkey@, seq![','] + obj_frag3(ev, tail));
}

proof fn lemma_obj_step3(ev: crate::nostr::Event, tail: Seq<char>)
    ensures
        spec_obj_more((Some(ev.id@), Some(ev.pubkey@), None, None, None, None, None),
            seq![','] + obj_frag3(ev, tail))
            == spec_obj_more((Some(ev.id@), Some(ev.pubkey@), Some(ev.created_at), None, None,
            None, None), seq![','] + obj_frag4(ev, tail)),
{
    lemma_keys_plain();
    let f = (Some(ev.id@), Some(ev.pubkey@), Option::<u64>::None, Option::<u64>::None,
        Option::<Seq<Seq<Seq<char>>>>::None, Option::<Seq<char>>::None,
        Option::<Seq<char>>::None);
    assert(spec_assign_num(f, key_created_at(), ev.created_at).is_some());
    assert((seq![','] + obj_frag4(ev, tail))[0] == ',');
    lemma_more_num(f, key_created_at(), ev.created_at, seq![','] + obj_frag4(ev, tail));
}

proof fn lemma_obj_step4(ev: crate::nostr::Event, tail: Seq<char>)
    ensures
        spec_obj_more((Some(ev.id@), Some(ev.pubkey@), Some(ev.created_at), None, None, None,
            None), seq![','] + obj_frag4(ev, tail))
            == spec_obj_more((Some(ev.id@), Some(ev.pubkey@), Some(ev.created_at),
            Some(ev.kind), None, None, None), seq![','] + obj_frag5(ev, tail)),
{
    lemma_keys_plain();
    let f = (Some(ev.id@), Some(ev.pubkey@), Some(ev.created_at), Option::<u64>::None,
        Option::<Seq<Seq<Seq<char>>>>::None, Option::<Seq<char>>::None,
        Option::<Seq<char>>::None);
    assert(spec_assign_num(f, key_kind(), ev.kind).is_some());
    assert((seq![','] + obj_frag5(ev, tail))[0] == ',');
    lemma_more_num(f, key_kind(), ev.kind, seq![','] + obj_frag5(ev, tail));
}

proof fn lemma_obj_step5(ev: crate::nostr::Event, tail: Seq<char>)
    ensures
        spec_obj_more((Some(ev.id@), Some(ev.pubkey@), Some(ev.created_at), Some(ev.kind),
            None, None, None), seq![','] + obj_frag5(ev, tail))
            == spec_obj_more((Some(ev.id@), Some(ev.pubkey@), Some(ev.created_at),
            Some(ev.kind), Some(ev.tags.deep_view()), None, None),
            seq![','] + obj_frag6(ev, tail)),
{
    lemma_keys_plain();
    let f = (Some(ev.id@), Some(ev.pubkey@), Some(ev.created_at), Some(ev.kind),
        Option::<Seq<Seq<Seq<char>>>>::None, Option::<Seq<char>>::None,
        Option::<Seq<char>>::None);
    assert(spec_assign_tags(f, key_tags(), ev.tags.deep_view()).is_some());
    lemma_more_tags(f, key_tags(), ev.tags.deep_view(), seq![','] + obj_frag6(ev, tail));
}

proof fn lemma_obj_step6(ev: crate::nostr::Event, tail: Seq<char>)
    ensures
        spec_obj_more((Some(ev.id@), Some(ev.pubkey@), Some(ev.created_at), Some(ev.kind),
            Some(ev.tags.deep_view()), None, None), seq![','] + obj_frag6(ev, tail))
            == spec_obj_more((Some(ev.id@), Some(ev.pubkey@), Some(ev.created_at),
            Some(ev.kind), Some(ev.tags.deep_view()), Some(ev.content@), None),
            seq![','] + obj_frag7(ev, tail)),
{
    lemma_keys_plain();
    let f = (Some(ev.id@), Some(ev.pubkey@), Some(ev.created_at), Some(ev.kind),
        Some(ev.tags.deep_view()), Option::<Seq<char>>::None, Option::<Seq<char>>::None);
    assert(spec_assign_str(f, key_content(), ev.content@).is_some());
    lemma_more_str(f, key_content(), ev.content@, seq![','] + obj_frag7(ev, tail));
}

proof fn lemma_obj_step7(ev: crate::nostr::Event, tail: Seq<char>)
    ensures
        spec_obj_more((Some(ev.id@), Some(ev.pubkey@), Some(ev.created_at), Some(ev.kind),
            Some(ev.tags.deep_view()), Some(ev.content@), None),
            seq![','] + obj_frag7(ev, tail)) == Some((fields_of(ev), tail)),
{
    lemma_keys_plain();
    let f = (Some(ev.id@), Some(ev.pubkey@), Some(ev.created_at), Some(ev.kind),
        Some(ev.tags.deep_view()), Some(ev.content@), Option::<Seq<char>>::None);
    assert(spec_assign_str(f, key_sig(), ev.sig@).is_some());
    lemma_more_str(f, key_sig(), ev.sig@, seq!['}'] + tail);
    lemma_more_close(fields_of(ev), tail);
}

/// An emitted event object parses back to exactly the event's fields.
#[verifier::rlimit(100)]
#[verifier::spinoff_prover]
proof fn lemma_parse_obj_rendered(ev: crate::nostr::Event, tail: Seq<char>)
    ensures
        spec_parse_obj(crate::nostr::spec_event_obj(ev) + tail) == Some((fields_of(ev), tail)),
{
    lemma_keys_plain();
    lemma_obj_regroup(ev, tail);
    let s = crate::nostr::spec_event_obj(ev) + tail;
    assert(s[0] == '{');
    assert(s.drop_first() =~= obj_frag1(ev, tail));
    assert(obj_frag1(ev, tail)[0] == '"');
    lemma_ws_noop(obj_frag1(ev, tail));
    let f0 = fields0();
    assert(spec_assign_str(f0, key_id(), ev.id@).is_some());
    lemma_entry_str(f0, key_id(), ev.id@, seq![','] + obj_frag2(ev, tail));
    assert(spec_parse_obj(s) == spec_obj_more((Some(ev.id@), None, None, None, None, None,
        None), seq![','] + obj_frag2(ev, tail)));
    lemma_obj_step2(ev, tail);
    lemma_obj_step3(ev, tail);
    lemma_obj_step4(ev, tail);
    lemma_obj_step5(ev, tail);
    lemma_obj_step6(ev, tail);
    lemma_obj_step7(ev, tail);
}

/// An inbound frame as the formatter would emit it for a subscription.
pub open spec fn spec_inbound_frame(subid: Seq<char>, ev: crate::nostr::Event) -> Seq<char> {
    "[\"EVENT\","@ + crate::nostr::spec_quoted(subid) + ","@
        + crate::nostr::spec_event_obj(ev) + "]"@
}

/// The wire format and the wire parser agree: for every event and
/// every subscription id, the emitted frame parses back to exactly the
/// event's fields.
#[verifier::rlimit(100)]
#[verifier::spinoff_prover]
pub proof fn lemma_wire_round_trip(subid: Seq<char>, ev: crate::nostr::Event)
    ensures
        spec_parse_frame(spec_inbound_frame(subid, ev)) == Some((subid, (ev.id@, ev.pubkey@,
            ev.created_at, ev.kind, ev.tags.deep_view(), ev.content@, ev.sig@))),
{
    reveal_strlit("[\"EVENT\",");
    reveal_strlit(",");
    reveal_strlit("]");
    reveal_strlit("EVENT");
    reveal_strlit("{\"id\":");
    assert(crate::nostr::spec_event_obj(ev)[0] == '{');
    let k_event = seq!['E', 'V', 'E', 'N', 'T'];
    assert("EVENT"@ =~= k_event);
    lemma_escape_plain(k_event);

    let p_obj = crate::nostr::spec_event_obj(ev) + seq![']'];
    let p_sub = crate::nostr::spec_quoted(subid) + (seq![','] + p_obj);
    let p_type = crate::nostr::spec_quoted(k_event) + (seq![','] + p_sub);
    let s = spec_inbound_frame(subid, ev);
    assert(s =~= seq!['['] + p_type);

    assert(s[0] == '[');
    lemma_ws_noop(s);
    assert(s.drop_first() =~= p_type);
    assert(p_type[0] == '"');
    lemma_ws_noop(p_type);
    lemma_parse_quoted(k_event, seq![','] + p_sub);
    assert((seq![','] + p_sub)[0] == ',');
    lemma_ws_noop(seq![','] + p_sub);
    assert((seq![','] + p_sub).drop_first() =~= p_sub);
    assert(p_sub[0] == '"');
    lemma_ws_noop(p_sub);
    lemma_parse_quoted(subid, seq![','] + p_obj);
    assert((seq![','] + p_obj)[0] == ',');
    lemma_ws_noop(seq![','] + p_obj);
    assert((seq![','] + p_obj).drop_first() =~= p_obj);
    assert(p_obj[0] == '{');
    lemma_ws_noop(p_obj);
    lemma_parse_obj_rendered(ev, seq![']']);
    assert((seq![']'])[0] == ']');
    lemma_ws_noop(seq![']']);
    assert((seq![']']).drop_first() =~= Seq::<char>::empty());
    assert(spec_ws(Seq::<char>::empty()).len() == 0);
}

} // verus!
