//! Small verified string utilities: decimal formatting, prefix tests,
//! splitting on a separator character, lexicographic comparison and
//! username normalization.

use vstd::prelude::*;

verus! {

/// Relies on String::push: appends one character at the end.
#[verifier::external_body]
pub(crate) fn push_char(s: &mut String, c: char)
    ensures
        final(s)@ == old(s)@.push(c),
{
    s.push(c);
}

/// Decimal digit character for a value below 10.
pub open spec fn spec_dec_digit(d: int) -> char {
    if d == 0 { '0' }
    else if d == 1 { '1' }
    else if d == 2 { '2' }
    else if d == 3 { '3' }
    else if d == 4 { '4' }
    else if d == 5 { '5' }
    else if d == 6 { '6' }
    else if d == 7 { '7' }
    else if d == 8 { '8' }
    else { '9' }
}

fn dec_digit(d: u64) -> (r: char)
    requires
        d < 10,
    ensures
        r == spec_dec_digit(d as int),
{
    if d == 0 { '0' }
    else if d == 1 { '1' }
    else if d == 2 { '2' }
    else if d == 3 { '3' }
    else if d == 4 { '4' }
    else if d == 5 { '5' }
    else if d == 6 { '6' }
    else if d == 7 { '7' }
    else if d == 8 { '8' }
    else { '9' }
}

/// Decimal rendering of a non-negative integer, no leading zeros
/// (a single zero for 0).
pub open spec fn spec_u64_dec(n: int) -> Seq<char>
    decreases n,
{
    if n < 10 {
        seq![spec_dec_digit(n)]
    } else {
        spec_u64_dec(n / 10).push(spec_dec_digit(n % 10))
    }
}

/// Appends the decimal rendering of `n` to `s`.
pub fn push_u64_dec(s: &mut String, n: u64)
    ensures
        final(s)@ == old(s)@ + spec_u64_dec(n as int),
    decreases n,
{
    if n < 10 {
        push_char(s, dec_digit(n));
        assert(final(s)@ =~= old(s)@ + spec_u64_dec(n as int));
    } else {
        assert(n / 10 < n && n / 10 >= 1) by (nonlinear_arith)
            requires n >= 10;
        push_u64_dec(s, n / 10);
        push_char(s, dec_digit(n % 10));
        assert(final(s)@ =~= old(s)@ + spec_u64_dec(n as int));
    }
}

/// Decimal rendering as a fresh string.
pub fn u64_to_dec(n: u64) -> (r: String)
    ensures
        r@ == spec_u64_dec(n as int),
{
    let mut s = String::new();
    push_u64_dec(&mut s, n);
    assert(s@ =~= spec_u64_dec(n as int));
    s
}

/// Whether `prefix` starts `s`.
pub fn str_starts_with(s: &str, prefix: &str) -> (r: bool)
    ensures
        r == prefix@.is_prefix_of(s@),
{
    let n = prefix.unicode_len();
    let m = s.unicode_len();
    if n > m {
        return false;
    }
    let mut i: usize = 0;
    while i < n
        invariant
            0 <= i <= n,
            n == prefix@.len(),
            m == s@.len(),
            n <= m,
            forall|j: int| 0 <= j < i ==> s@[j] == prefix@[j],
        decreases n - i,
    {
        if s.get_char(i) != prefix.get_char(i) {
            return false;
        }
        i += 1;
    }
    assert(prefix@ =~= s@.subrange(0, n as int));
    true
}

/// Whether the two strings hold the same characters.
pub fn str_eq(a: &str, b: &str) -> (r: bool)
    ensures
        r == (a@ == b@),
{
    let na = a.unicode_len();
    let nb = b.unicode_len();
    if na != nb {
        return false;
    }
    let r = str_starts_with(a, b);
    proof {
        if b@.is_prefix_of(a@) {
            assert(a@.subrange(0, nb as int) =~= a@);
        }
    }
    r
}

/// Index of the first occurrence of `sep` in `s`; meaningful only when
/// `s` contains `sep`.
pub open spec fn spec_first_index(s: Seq<char>, sep: char) -> int
    decreases s.len(),
{
    if s.len() == 0 {
        0
    } else if s[0] == sep {
        0
    } else {
        1 + spec_first_index(s.drop_first(), sep)
    }
}

proof fn lemma_first_index_char(s: Seq<char>, sep: char, i: int)
    requires
        0 <= i < s.len(),
        s[i] == sep,
        forall|j: int| 0 <= j < i ==> s[j] != sep,
    ensures
        spec_first_index(s, sep) == i,
    decreases s.len(),
{
    if i > 0 {
        assert(forall|j: int| 0 <= j < i - 1 ==> s.drop_first()[j] != sep);
        lemma_first_index_char(s.drop_first(), sep, i - 1);
    }
}

/// The pieces of `s` between occurrences of `sep`; one piece, `s` itself,
/// when `sep` does not occur.
pub open spec fn spec_split(s: Seq<char>, sep: char) -> Seq<Seq<char>>
    decreases s.len(),
    via spec_split_decreases
{
    if s.contains(sep) {
        let i = spec_first_index(s, sep);
        seq![s.subrange(0, i)] + spec_split(s.subrange(i + 1, s.len() as int), sep)
    } else {
        seq![s]
    }
}

#[via_fn]
proof fn spec_split_decreases(s: Seq<char>, sep: char) {
    if s.contains(sep) {
        lemma_first_index_in_range(s, sep);
    }
}

proof fn lemma_first_index_in_range(s: Seq<char>, sep: char)
    requires
        s.contains(sep),
    ensures
        0 <= spec_first_index(s, sep) < s.len(),
        s[spec_first_index(s, sep)] == sep,
        forall|j: int| 0 <= j < spec_first_index(s, sep) ==> s[j] != sep,
    decreases s.len(),
{
    if s[0] != sep {
        assert(s.drop_first().contains(sep)) by {
            let k = choose|k: int| 0 <= k < s.len() && s[k] == sep;
            assert(s.drop_first()[k - 1] == sep);
        }
        lemma_first_index_in_range(s.drop_first(), sep);
        assert forall|j: int| 0 <= j < spec_first_index(s, sep) implies s[j] != sep by {
            if j > 0 {
                assert(s.drop_first()[j - 1] != sep);
            }
        }
    }
}

/// Splits `s` at every occurrence of `sep`.
pub fn split_char(s: &str, sep: char) -> (r: Vec<String>)
    ensures
        r.deep_view() == spec_split(s@, sep),
    decreases s@.len(),
{
    let n = s.unicode_len();
    let mut i: usize = 0;
    let mut found: bool = false;
    while i < n && !found
        invariant
            0 <= i <= n,
            n == s@.len(),
            found ==> i < n && s@[i as int] == sep,
            forall|j: int| 0 <= j < i ==> s@[j] != sep,
        decreases n - i + (if found { 0int } else { 1int }),
    {
        if s.get_char(i) == sep {
            found = true;
        } else {
            i += 1;
        }
    }
    if found {
        proof {
            lemma_first_index_char(s@, sep, i as int);
            assert(s@.contains(sep));
        }
        let head = s.substring_char(0, i);
        let tail = s.substring_char(i + 1, n);
        let mut r = split_char(tail, sep);
        r.insert(0, head.to_owned());
        proof {
            assert(r.deep_view() =~= spec_split(s@, sep));
        }
        r
    } else {
        proof {
            if s@.contains(sep) {
                let k = choose|k: int| 0 <= k < s@.len() && s@[k] == sep;
                assert(false);
            }
        }
        let mut r: Vec<String> = Vec::new();
        r.push(s.to_owned());
        proof {
            assert(r.deep_view() =~= spec_split(s@, sep));
        }
        r
    }
}

/// Strict lexicographic order on character sequences, by code point.
pub open spec fn spec_str_lt(a: Seq<char>, b: Seq<char>) -> bool
    decreases a.len(),
{
    if b.len() == 0 {
        false
    } else if a.len() == 0 {
        true
    } else if (a[0] as u32) < (b[0] as u32) {
        true
    } else if a[0] != b[0] {
        false
    } else {
        spec_str_lt(a.drop_first(), b.drop_first())
    }
}

/// One of `a < b`, `a == b`, `b < a` always holds.
pub proof fn lemma_str_lt_trichotomy(a: Seq<char>, b: Seq<char>)
    ensures
        spec_str_lt(a, b) || spec_str_lt(b, a) || a =~= b,
    decreases a.len(),
{
    if a.len() == 0 && b.len() == 0 {
        assert(a =~= b);
    } else if a.len() > 0 && b.len() > 0 && a[0] != b[0] {
        vstd::utf8::char_u32_cast(a[0], a[0] as u32);
        vstd::utf8::char_u32_cast(b[0], b[0] as u32);
        assert((a[0] as u32) != (b[0] as u32));
    } else if a.len() > 0 && b.len() > 0 && a[0] == b[0] {
        lemma_str_lt_trichotomy(a.drop_first(), b.drop_first());
        if a.drop_first() =~= b.drop_first() {
            assert forall|i: int| 0 <= i < a.len() implies a[i] == b[i] by {
                if i > 0 {
                    assert(a.drop_first()[i - 1] == b.drop_first()[i - 1]);
                }
            }
            assert(a =~= b);
        }
    }
}

/// Strict order is transitive.
pub proof fn lemma_str_lt_trans(a: Seq<char>, b: Seq<char>, c: Seq<char>)
    requires
        spec_str_lt(a, b),
        spec_str_lt(b, c),
    ensures
        spec_str_lt(a, c),
    decreases a.len(),
{
    if a.len() > 0 && b.len() > 0 && c.len() > 0 && a[0] == b[0] && b[0] == c[0] {
        lemma_str_lt_trans(a.drop_first(), b.drop_first(), c.drop_first());
    }
}

/// Strict order is irreflexive.
pub proof fn lemma_str_lt_irrefl(a: Seq<char>)
    ensures
        !spec_str_lt(a, a),
    decreases a.len(),
{
    if a.len() > 0 {
        lemma_str_lt_irrefl(a.drop_first());
    }
}

/// Whether `a` comes strictly before `b` in lexicographic order.
pub fn str_lt(a: &str, b: &str) -> (r: bool)
    ensures
        r == spec_str_lt(a@, b@),
{
    let na = a.unicode_len();
    let nb = b.unicode_len();
    let mut i: usize = 0;
    proof {
        assert(a@.skip(0) =~= a@);
        assert(b@.skip(0) =~= b@);
    }
    loop
        invariant
            0 <= i <= na,
            i <= nb,
            na == a@.len(),
            nb == b@.len(),
            forall|j: int| 0 <= j < i ==> a@[j] == b@[j],
            spec_str_lt(a@, b@) == spec_str_lt(a@.skip(i as int), b@.skip(i as int)),
        decreases na - i,
    {
        if i >= nb {
            proof {
                assert(b@.skip(i as int).len() == 0);
            }
            return false;
        }
        if i >= na {
            proof {
                assert(a@.skip(i as int).len() == 0);
                assert(b@.skip(i as int).len() > 0);
            }
            return true;
        }
        let ca = a.get_char(i);
        let cb = b.get_char(i);
        if (ca as u32) < (cb as u32) {
            proof {
                assert(a@.skip(i as int)[0] == ca && b@.skip(i as int)[0] == cb);
            }
            return true;
        }
        if ca != cb {
            proof {
                assert(a@.skip(i as int)[0] == ca && b@.skip(i as int)[0] == cb);
            }
            return false;
        }
        proof {
            assert(a@.skip(i as int).drop_first() =~= a@.skip(i + 1));
            assert(b@.skip(i as int).drop_first() =~= b@.skip(i + 1));
            assert(a@.skip(i as int)[0] == ca && b@.skip(i as int)[0] == cb);
        }
        i += 1;
    }
}

/// Whether `c` is a decimal digit.
pub open spec fn spec_is_digit(c: char) -> bool {
    '0' <= c && c <= '9'
}

/// The value of a decimal digit.
pub open spec fn spec_digit_val(c: char) -> int {
    c as u32 - '0' as u32
}

/// Whether `s` is one or more decimal digits.
pub open spec fn spec_all_digits(s: Seq<char>) -> bool {
    s.len() > 0 && forall|i: int| 0 <= i < s.len() ==> spec_is_digit(#[trigger] s[i])
}

/// The number the digit string denotes.
pub open spec fn spec_dec_val(s: Seq<char>) -> int
    decreases s.len(),
{
    if s.len() == 0 {
        0
    } else {
        spec_dec_val(s.drop_last()) * 10 + spec_digit_val(s.last())
    }
}

/// What parsing `s` as an unsigned 64-bit number yields: its value when
/// `s` is all digits and the value fits, `None` otherwise.
pub open spec fn spec_parse_u64(s: Seq<char>) -> Option<u64> {
    if spec_all_digits(s) && spec_dec_val(s) <= u64::MAX {
        Some(spec_dec_val(s) as u64)
    } else {
        None
    }
}

pub proof fn lemma_dec_val_nonneg(s: Seq<char>)
    requires
        forall|i: int| 0 <= i < s.len() ==> spec_is_digit(#[trigger] s[i]),
    ensures
        spec_dec_val(s) >= 0,
    decreases s.len(),
{
    if s.len() > 0 {
        lemma_dec_val_nonneg(s.drop_last());
        assert(spec_dec_val(s.drop_last()) * 10 >= 0) by (nonlinear_arith)
            requires spec_dec_val(s.drop_last()) >= 0;
    }
}

pub proof fn lemma_dec_val_prefix_le(s: Seq<char>, i: int)
    requires
        0 <= i <= s.len(),
        forall|j: int| 0 <= j < s.len() ==> spec_is_digit(#[trigger] s[j]),
    ensures
        spec_dec_val(s.take(i)) <= spec_dec_val(s),
    decreases s.len() - i,
{
    if i < s.len() {
        lemma_dec_val_prefix_le(s, i + 1);
        assert(s.take(i + 1).drop_last() =~= s.take(i));
        let v = spec_dec_val(s.take(i));
        lemma_dec_val_nonneg(s.take(i));
        assert(v * 10 + spec_digit_val(s.take(i + 1).last()) >= v) by (nonlinear_arith)
            requires v >= 0, spec_digit_val(s.take(i + 1).last()) >= 0;
    } else {
        assert(s.take(i) =~= s);
    }
}

/// Parses a decimal number; `None` on an empty string, a non-digit, or
/// a value above `u64::MAX`.
pub fn parse_u64(s: &str) -> (r: Option<u64>)
    ensures
        r == spec_parse_u64(s@),
{
    let n = s.unicode_len();
    if n == 0 {
        return None;
    }
    let mut val: u64 = 0;
    let mut i: usize = 0;
    proof {
        assert(s@.take(0).len() == 0);
    }
    while i < n
        invariant
            0 <= i <= n,
            n == s@.len(),
            n > 0,
            forall|j: int| 0 <= j < i ==> spec_is_digit(#[trigger] s@[j]),
            val as int == spec_dec_val(s@.take(i as int)),
        decreases n - i,
    {
        let c = s.get_char(i);
        if !('0' <= c && c <= '9') {
            proof {
                assert(!spec_all_digits(s@));
            }
            return None;
        }
        let d = (c as u32 - '0' as u32) as u64;
        if val > (u64::MAX - d) / 10 {
            proof {
                assert(s@.take(i + 1).drop_last() =~= s@.take(i as int));
                assert(s@.take(i + 1).last() == s@[i as int]);
                assert(val as int * 10 + d > u64::MAX) by (nonlinear_arith)
                    requires
                        val as int > (u64::MAX - d) as int / 10,
                        0 <= d <= 9,
                        val as int >= 0,
                ;
                assert(spec_dec_val(s@.take(i + 1)) > u64::MAX);
                if spec_all_digits(s@) {
                    lemma_dec_val_prefix_le(s@, i + 1);
                }
            }
            return None;
        }
        proof {
            assert(val as int * 10 + d <= u64::MAX) by (nonlinear_arith)
                requires
                    val as int <= (u64::MAX - d) as int / 10,
                    0 <= d <= 9,
                    val as int >= 0,
            ;
            assert(s@.take(i + 1).drop_last() =~= s@.take(i as int));
            assert(s@.take(i + 1).last() == s@[i as int]);
        }
        val = val * 10 + d;
        i += 1;
    }
    proof {
        assert(s@.take(n as int) =~= s@);
        assert(spec_all_digits(s@));
    }
    Some(val)
}

proof fn lemma_digit_val(d: int)
    requires
        0 <= d < 10,
    ensures
        spec_digit_val(spec_dec_digit(d)) == d,
        spec_is_digit(spec_dec_digit(d)),
{
}

proof fn lemma_u64_dec_value(n: int)
    requires
        n >= 0,
    ensures
        spec_u64_dec(n).len() >= 1,
        forall|i: int| 0 <= i < spec_u64_dec(n).len()
            ==> spec_is_digit(#[trigger] spec_u64_dec(n)[i]),
        spec_dec_val(spec_u64_dec(n)) == n,
    decreases n,
{
    if n < 10 {
        lemma_digit_val(n);
        assert(spec_u64_dec(n) =~= seq![spec_dec_digit(n)]);
        assert(spec_u64_dec(n).drop_last() =~= Seq::<char>::empty());
        assert(spec_dec_val(Seq::<char>::empty()) == 0);
        assert(spec_dec_val(spec_u64_dec(n))
            == spec_dec_val(spec_u64_dec(n).drop_last()) * 10
                + spec_digit_val(spec_u64_dec(n).last()));
    } else {
        lemma_u64_dec_value(n / 10);
        lemma_digit_val(n % 10);
        assert(spec_u64_dec(n).drop_last() =~= spec_u64_dec(n / 10));
        assert(spec_u64_dec(n).last() == spec_dec_digit(n % 10));
    }
}

/// Rendering a number and parsing the text back yields the number: the
/// decimal writer and the decimal reader agree.
pub proof fn lemma_dec_roundtrip(n: u64)
    ensures
        spec_parse_u64(spec_u64_dec(n as int)) == Some(n),
{
    lemma_u64_dec_value(n as int);
}

/// ASCII lowercase of one character; other characters unchanged.
pub open spec fn spec_lower_char(c: char) -> char {
    if 'A' <= c && c <= 'Z' {
        (((c as u32) + 32) as u8) as char
    } else {
        c
    }
}

/// The string lowercased, character by character.
pub open spec fn spec_lower(s: Seq<char>) -> Seq<char>
    decreases s.len(),
{
    if s.len() == 0 {
        Seq::<char>::empty()
    } else {
        seq![spec_lower_char(s[0])] + spec_lower(s.drop_first())
    }
}

/// Username normalization: leading `@` marks stripped, the rest in
/// ASCII lowercase.
pub open spec fn spec_normalize(s: Seq<char>) -> Seq<char>
    decreases s.len(),
{
    if s.len() > 0 && s[0] == '@' {
        spec_normalize(s.drop_first())
    } else {
        spec_lower(s)
    }
}

fn lower_char(c: char) -> (r: char)
    ensures
        r == spec_lower_char(c),
{
    if 'A' <= c && c <= 'Z' {
        (((c as u32) + 32) as u8) as char
    } else {
        c
    }
}

/// Strips leading `@` marks and lowercases a raw username argument.
pub fn normalize_username(s: &str) -> (r: String)
    ensures
        r@ == spec_normalize(s@),
{
    let n = s.unicode_len();
    let mut i: usize = 0;
    proof {
        assert(s@.skip(0) =~= s@);
    }
    while i < n && s.get_char(i) == '@'
        invariant
            0 <= i <= n,
            n == s@.len(),
            spec_normalize(s@.skip(i as int)) == spec_normalize(s@),
        decreases n - i,
    {
        proof {
            assert(s@.skip(i as int)[0] == s@[i as int]);
            assert(s@.skip(i as int).drop_first() =~= s@.skip(i + 1));
        }
        i += 1;
    }
    proof {
        if i < n {
            assert(s@.skip(i as int)[0] == s@[i as int]);
        }
        assert(spec_normalize(s@.skip(i as int)) == spec_lower(s@.skip(i as int)));
    }
    let mut r = String::new();
    let start = i;
    while i < n
        invariant
            start <= i <= n,
            n == s@.len(),
            spec_lower(s@.skip(start as int)) == spec_normalize(s@),
            r@ + spec_lower(s@.skip(i as int)) =~= spec_lower(s@.skip(start as int)),
        decreases n - i,
    {
        let c = s.get_char(i);
        proof {
            assert(s@.skip(i as int)[0] == c);
            assert(s@.skip(i as int).drop_first() =~= s@.skip(i + 1));
        }
        push_char(&mut r, lower_char(c));
        i += 1;
    }
    proof {
        assert(s@.skip(n as int).len() == 0);
        assert(r@ =~= spec_normalize(s@));
    }
    r
}

} // verus!
