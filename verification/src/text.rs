//! Character-level helpers on strings: ASCII case mapping, searching,
//! splitting, trimming, and the decimal and binary number forms used by
//! the assembler.
use vstd::prelude::*;

verus! {

// ---------------------------------------------------------------------
// Trusted wrappers around std
// ---------------------------------------------------------------------

/// Wraps `String::push`: the character is appended at the end of the string.
#[verifier::external_body]
pub(crate) fn push_char(s: &mut String, c: char)
    ensures
        final(s)@ == old(s)@.push(c),
{
    s.push(c);
}

/// What `char::is_numeric` answers for a character (Unicode general
/// categories Nd, Nl and No).
pub uninterp spec fn unicode_numeric(c: char) -> bool;

/// What `char::is_numeric` answers: for an ASCII character, whether it is a
/// digit `'0'..='9'`; beyond ASCII, as `unicode_numeric` names it.
pub open spec fn is_numeric_char(c: char) -> bool {
    if (c as u32) < 128 {
        '0' <= c && c <= '9'
    } else {
        unicode_numeric(c)
    }
}

/// Wraps `char::is_numeric`. The result is named by `unicode_numeric`; for an
/// ASCII character std answers `true` exactly for the digits `'0'..='9'`.
#[verifier::external_body]
pub(crate) fn char_is_numeric(c: char) -> (r: bool)
    ensures
        r == unicode_numeric(c),
        (c as u32) < 128 ==> (r <==> ('0' <= c && c <= '9')),
{
    c.is_numeric()
}

/// What `char::is_whitespace` answers for a character (the Unicode
/// `White_Space` property).
pub uninterp spec fn unicode_whitespace(c: char) -> bool;

/// What `char::is_whitespace` answers: for an ASCII character, whether it
/// is a space or one of `'\t'`, `'\n'`, `'\x0B'`, `'\x0C'`, `'\r'`; beyond
/// ASCII, as `unicode_whitespace` names it.
pub open spec fn is_whitespace_char(c: char) -> bool {
    if (c as u32) < 128 {
        c == ' ' || ('\t' <= c && c <= '\r')
    } else {
        unicode_whitespace(c)
    }
}

/// Wraps `char::is_whitespace`. The result is named by `unicode_whitespace`;
/// for an ASCII character std answers `true` exactly for space and for
/// `'\t'`, `'\n'`, `'\x0B'`, `'\x0C'`, `'\r'`.
#[verifier::external_body]
pub(crate) fn char_is_whitespace(c: char) -> (r: bool)
    ensures
        r == unicode_whitespace(c),
        (c as u32) < 128 ==> (r <==> (c == ' ' || ('\t' <= c && c <= '\r'))),
{
    c.is_whitespace()
}

/// `s` without its leading white space, as `str::trim_start` gives it.
pub open spec fn skip_leading_whitespace(s: Seq<char>) -> Seq<char>
    decreases s.len(),
{
    if s.len() > 0 && is_whitespace_char(s[0]) {
        skip_leading_whitespace(s.drop_first())
    } else {
        s
    }
}

/// The position of the first character of `s` that is not white space, or
/// the length of `s`.
pub fn leading_whitespace_len(s: &str) -> (r: usize)
    ensures
        r <= s@.len(),
        skip_leading_whitespace(s@) == s@.skip(r as int),
{
    let n = s.unicode_len();
    let mut i: usize = 0;
    assert(s@.skip(0) == s@);
    while i < n && char_is_whitespace(s.get_char(i))
        invariant
            n == s@.len(),
            i <= n,
            skip_leading_whitespace(s@) == skip_leading_whitespace(s@.skip(i as int)),
        decreases n - i,
    {
        assert(s@.skip(i as int).drop_first() == s@.skip(i + 1));
        i = i + 1;
    }
    assert(skip_leading_whitespace(s@) == s@.skip(i as int)) by {
        if i < n {
            assert(s@.skip(i as int)[0] == s@[i as int]);
        }
    }
    i
}

// ---------------------------------------------------------------------
// ASCII case
// ---------------------------------------------------------------------

/// `char::to_ascii_uppercase`: `'a'..='z'` become `'A'..='Z'`, every other
/// character is kept.
pub open spec fn upper_char(c: char) -> char {
    if 'a' <= c && c <= 'z' {
        ((c as u32) - 32) as char
    } else {
        c
    }
}

/// `str::to_ascii_uppercase`, character by character.
pub open spec fn ascii_upper(s: Seq<char>) -> Seq<char> {
    Seq::new(s.len(), |i: int| upper_char(s[i]))
}

pub fn char_to_ascii_upper(c: char) -> (r: char)
    ensures
        r == upper_char(c),
{
    if 'a' <= c && c <= 'z' {
        ((c as u8) - 32) as char
    } else {
        c
    }
}

/// The ASCII upper-case form of `s`; other characters are kept as they are.
pub fn to_ascii_upper(s: &str) -> (r: String)
    ensures
        r@ == ascii_upper(s@),
{
    let n = s.unicode_len();
    let mut out = String::new();
    let mut i: usize = 0;
    while i < n
        invariant
            n == s@.len(),
            i <= n,
            out@ == ascii_upper(s@).take(i as int),
        decreases n - i,
    {
        let c = s.get_char(i);
        push_char(&mut out, char_to_ascii_upper(c));
        assert(ascii_upper(s@).take(i + 1) == ascii_upper(s@).take(i as int).push(upper_char(c)));
        i = i + 1;
    }
    assert(ascii_upper(s@).take(n as int) == ascii_upper(s@));
    out
}

/// `s` with every `from` replaced by `to`.
pub open spec fn replace_char(s: Seq<char>, from: char, to: char) -> Seq<char> {
    Seq::new(s.len(), |i: int| if s[i] == from { to } else { s[i] })
}

/// `s` with every `from` replaced by `to`, as `str::replace` does for
/// one-character patterns.
pub fn replace_chars(s: &str, from: char, to: char) -> (r: String)
    ensures
        r@ == replace_char(s@, from, to),
{
    let n = s.unicode_len();
    let mut out = String::new();
    let mut i: usize = 0;
    while i < n
        invariant
            n == s@.len(),
            i <= n,
            out@ == replace_char(s@, from, to).take(i as int),
        decreases n - i,
    {
        let c = s.get_char(i);
        if c == from {
            push_char(&mut out, to);
        } else {
            push_char(&mut out, c);
        }
        assert(replace_char(s@, from, to).take(i + 1) == replace_char(s@, from, to).take(
            i as int,
        ).push(replace_char(s@, from, to)[i as int]));
        i = i + 1;
    }
    assert(replace_char(s@, from, to).take(n as int) == replace_char(s@, from, to));
    out
}

/// The views of a result that holds strings either way.
pub open spec fn result_view(r: Result<String, String>) -> Result<Seq<char>, Seq<char>> {
    match r {
        Ok(s) => Ok(s@),
        Err(e) => Err(e@),
    }
}

// ---------------------------------------------------------------------
// Searching and comparing
// ---------------------------------------------------------------------

/// Whether `c` occurs in `s`.
pub fn str_contains(s: &str, c: char) -> (r: bool)
    ensures
        r == s@.contains(c),
{
    let n = s.unicode_len();
    let mut i: usize = 0;
    while i < n
        invariant
            n == s@.len(),
            i <= n,
            forall|j: int| 0 <= j < i ==> s@[j] != c,
        decreases n - i,
    {
        if s.get_char(i) == c {
            assert(s@[i as int] == c);
            return true;
        }
        i = i + 1;
    }
    false
}

/// Whether two strings hold the same characters.
pub fn str_eq(a: &str, b: &str) -> (r: bool)
    ensures
        r == (a@ == b@),
{
    let n = a.unicode_len();
    if n != b.unicode_len() {
        return false;
    }
    let mut i: usize = 0;
    while i < n
        invariant
            n == a@.len(),
            n == b@.len(),
            i <= n,
            forall|j: int| 0 <= j < i ==> a@[j] == b@[j],
        decreases n - i,
    {
        if a.get_char(i) != b.get_char(i) {
            return false;
        }
        i = i + 1;
    }
    assert(a@ =~= b@);
    true
}

/// The position of the first `c` in `s`, or the length of `s` where there is none.
pub open spec fn find_first(s: Seq<char>, c: char) -> nat
    decreases s.len(),
{
    if s.len() == 0 {
        0
    } else if s[0] == c {
        0
    } else {
        1 + find_first(s.drop_first(), c)
    }
}

pub proof fn lemma_find_first(s: Seq<char>, c: char)
    ensures
        find_first(s, c) <= s.len(),
        find_first(s, c) < s.len() ==> s[find_first(s, c) as int] == c,
        forall|j: int| 0 <= j < find_first(s, c) ==> s[j] != c,
        (find_first(s, c) == s.len()) <==> !s.contains(c),
    decreases s.len(),
{
    if s.len() > 0 && s[0] != c {
        lemma_find_first(s.drop_first(), c);
        assert forall|j: int| 0 <= j < find_first(s, c) implies s[j] != c by {
            if j > 0 {
                assert(s[j] == s.drop_first()[j - 1]);
            }
        }
        if s.contains(c) {
            let k = choose|k: int| 0 <= k < s.len() && s[k] == c;
            assert(s.drop_first()[k - 1] == c);
        }
        if s.drop_first().contains(c) {
            let k = choose|k: int| 0 <= k < s.drop_first().len() && s.drop_first()[k] == c;
            assert(s[k + 1] == c);
        }
    } else if s.len() > 0 {
        assert(s.contains(c)) by {
            assert(s[0] == c);
        }
    }
}

/// The position of the first `c` in `s`, or the length of `s`.
pub fn find_char(s: &str, c: char) -> (r: usize)
    ensures
        r == find_first(s@, c),
{
    proof {
        lemma_find_first(s@, c);
    }
    let n = s.unicode_len();
    let mut i: usize = 0;
    while i < n
        invariant
            n == s@.len(),
            i <= n,
            forall|j: int| 0 <= j < i ==> s@[j] != c,
            find_first(s@, c) <= n,
            find_first(s@, c) < n ==> s@[find_first(s@, c) as int] == c,
            forall|j: int| 0 <= j < find_first(s@, c) ==> s@[j] != c,
        decreases n - i,
    {
        if s.get_char(i) == c {
            return i;
        }
        i = i + 1;
    }
    i
}

/// The position of the last `c` in `s`, where there is one.
pub open spec fn find_last(s: Seq<char>, c: char) -> Option<nat>
    decreases s.len(),
{
    if s.len() == 0 {
        None
    } else if s.last() == c {
        Some((s.len() - 1) as nat)
    } else {
        find_last(s.drop_last(), c)
    }
}

pub proof fn lemma_find_last(s: Seq<char>, c: char)
    ensures
        find_last(s, c) is Some <==> s.contains(c),
        find_last(s, c) matches Some(k) ==> k < s.len() && s[k as int] == c && forall|j: int|
            k < j < s.len() ==> s[j] != c,
    decreases s.len(),
{
    if s.len() > 0 && s.last() != c {
        lemma_find_last(s.drop_last(), c);
        if s.contains(c) {
            let k = choose|k: int| 0 <= k < s.len() && s[k] == c;
            assert(s.drop_last()[k] == c);
        }
        if s.drop_last().contains(c) {
            let k = choose|k: int| 0 <= k < s.drop_last().len() && s.drop_last()[k] == c;
            assert(s[k] == c);
        }
        if let Some(k) = find_last(s, c) {
            assert forall|j: int| k < j < s.len() implies s[j] != c by {
                if j < s.len() - 1 {
                    assert(s[j] == s.drop_last()[j]);
                }
            }
        }
    } else if s.len() > 0 {
        assert(s[s.len() - 1] == c);
    }
}

// ---------------------------------------------------------------------
// Splitting at a character, as `str::split(c).nth(..)` does
// ---------------------------------------------------------------------

/// The first piece of `s` split at `c`: everything before the first `c`.
pub open spec fn piece_before(s: Seq<char>, c: char) -> Seq<char> {
    s.take(find_first(s, c) as int)
}

/// Everything after the first `c` of `s`.
pub open spec fn rest_after(s: Seq<char>, c: char) -> Seq<char> {
    s.skip(find_first(s, c) + 1int)
}

/// The second piece of `s` split at `c`: what lies between the first and
/// the second `c` (or the end).
pub open spec fn second_piece(s: Seq<char>, c: char) -> Seq<char> {
    piece_before(rest_after(s, c), c)
}

/// The piece of `s` before the first `c`.
pub fn split_first_piece(s: &str, c: char) -> (r: &str)
    ensures
        r@ == piece_before(s@, c),
{
    proof {
        lemma_find_first(s@, c);
    }
    let k = find_char(s, c);
    s.substring_char(0, k)
}

/// The piece of `s` between its first and its second `c`; `s` holds a `c`.
pub fn split_second_piece(s: &str, c: char) -> (r: &str)
    requires
        s@.contains(c),
    ensures
        r@ == second_piece(s@, c),
{
    proof {
        lemma_find_first(s@, c);
    }
    let n = s.unicode_len();
    let k = find_char(s, c);
    let rest = s.substring_char(k + 1, n);
    assert(rest@ == rest_after(s@, c));
    split_first_piece(rest, c)
}

// ---------------------------------------------------------------------
// Trimming parentheses, as `str::trim_matches(&['(', ')'])` does
// ---------------------------------------------------------------------

pub open spec fn is_paren(c: char) -> bool {
    c == '(' || c == ')'
}

/// `s` without its leading parentheses.
pub open spec fn strip_front_parens(s: Seq<char>) -> Seq<char>
    decreases s.len(),
{
    if s.len() > 0 && is_paren(s[0]) {
        strip_front_parens(s.drop_first())
    } else {
        s
    }
}

/// `s` without its trailing parentheses.
pub open spec fn strip_back_parens(s: Seq<char>) -> Seq<char>
    decreases s.len(),
{
    if s.len() > 0 && is_paren(s.last()) {
        strip_back_parens(s.drop_last())
    } else {
        s
    }
}

/// `s` without its leading and trailing parentheses.
pub open spec fn trim_parens(s: Seq<char>) -> Seq<char> {
    strip_back_parens(strip_front_parens(s))
}

/// The text of `s` with every leading and trailing `(` and `)` removed.
pub fn trim_paren_chars(s: &str) -> (r: &str)
    ensures
        r@ == trim_parens(s@),
{
    let n = s.unicode_len();
    let mut i: usize = 0;
    assert(s@.skip(0) == s@);
    while i < n && (s.get_char(i) == '(' || s.get_char(i) == ')')
        invariant
            n == s@.len(),
            i <= n,
            strip_front_parens(s@) == strip_front_parens(s@.skip(i as int)),
        decreases n - i,
    {
        assert(s@.skip(i as int).drop_first() == s@.skip(i + 1));
        i = i + 1;
    }
    assert(strip_front_parens(s@) == s@.skip(i as int)) by {
        if i < n {
            assert(s@.skip(i as int)[0] == s@[i as int]);
        }
    }
    let mut j: usize = n;
    while j > i && (s.get_char(j - 1) == '(' || s.get_char(j - 1) == ')')
        invariant
            n == s@.len(),
            i <= j <= n,
            strip_front_parens(s@) == s@.skip(i as int),
            trim_parens(s@) == strip_back_parens(s@.subrange(i as int, j as int)),
        decreases j - i,
    {
        assert(s@.subrange(i as int, j as int).drop_last() == s@.subrange(i as int, j - 1));
        j = j - 1;
    }
    assert(trim_parens(s@) == s@.subrange(i as int, j as int)) by {
        if j > i {
            assert(s@.subrange(i as int, j as int).last() == s@[j - 1]);
        }
        assert(s@.skip(i as int).subrange(0, (n - i) as int) == s@.subrange(i as int, n as int));
        assert(s@.skip(i as int) == s@.subrange(i as int, n as int));
    }
    s.substring_char(i, j)
}

// ---------------------------------------------------------------------
// Decimal numbers
// ---------------------------------------------------------------------

pub open spec fn is_digit(c: char) -> bool {
    '0' <= c && c <= '9'
}

pub open spec fn all_digits(s: Seq<char>) -> bool {
    forall|i: int| 0 <= i < s.len() ==> is_digit(#[trigger] s[i])
}

pub open spec fn digit_value(c: char) -> nat {
    ((c as int) - ('0' as int)) as nat
}

/// The value of a string of decimal digits, most significant first.
pub open spec fn decimal_value(s: Seq<char>) -> nat
    decreases s.len(),
{
    if s.len() == 0 {
        0
    } else {
        decimal_value(s.drop_last()) * 10 + digit_value(s.last())
    }
}

/// The digits that `usize::from_str` reads: a leading `+` is skipped.
pub open spec fn unsigned_digits(s: Seq<char>) -> Seq<char> {
    if s.len() > 0 && s[0] == '+' {
        s.drop_first()
    } else {
        s
    }
}

/// What `s.parse::<usize>()` gives: an optional `+` followed by at least one
/// decimal digit and nothing else, whose value fits in a `usize`.
pub open spec fn parse_usize_spec(s: Seq<char>) -> Option<usize> {
    let d = unsigned_digits(s);
    if d.len() > 0 && all_digits(d) && decimal_value(d) <= usize::MAX {
        Some(decimal_value(d) as usize)
    } else {
        None
    }
}

proof fn lemma_decimal_prefix_le(d: Seq<char>, i: int, j: int)
    requires
        0 <= i <= j <= d.len(),
    ensures
        decimal_value(d.take(i)) <= decimal_value(d.take(j)),
    decreases j - i,
{
    if i < j {
        lemma_decimal_prefix_le(d, i, j - 1);
        assert(d.take(j).drop_last() == d.take(j - 1));
    }
}

/// Reads an unsigned decimal number as `str::parse::<usize>` does.
pub fn parse_usize(s: &str) -> (r: Option<usize>)
    ensures
        r == parse_usize_spec(s@),
{
    let n = s.unicode_len();
    let mut start: usize = 0;
    if n > 0 && s.get_char(0) == '+' {
        start = 1;
    }
    let ghost d = unsigned_digits(s@);
    assert(d == s@.skip(start as int));
    if start == n {
        assert(d.len() == 0);
        return None;
    }
    let mut i: usize = start;
    while i < n
        invariant
            n == s@.len(),
            start <= i <= n,
            d == s@.skip(start as int),
            d == unsigned_digits(s@),
            forall|k: int| 0 <= k < i - start ==> is_digit(#[trigger] d[k]),
        decreases n - i,
    {
        let c = s.get_char(i);
        if !('0' <= c && c <= '9') {
            assert(d[i - start] == c);
            assert(!is_digit(d[i - start]));
            return None;
        }
        i = i + 1;
    }
    assert(all_digits(d));
    let mut v: usize = 0;
    i = start;
    while i < n
        invariant
            n == s@.len(),
            start <= i <= n,
            d == s@.skip(start as int),
            d == unsigned_digits(s@),
            all_digits(d),
            v == decimal_value(d.take(i - start)),
        decreases n - i,
    {
        let c = s.get_char(i);
        assert(d[i - start] == c);
        assert(is_digit(d[i - start]));
        let dv: usize = ((c as u8) - 48u8) as usize;
        assert(dv == digit_value(c));
        assert(d.take(i - start + 1).drop_last() == d.take(i - start));
        assert(d.take(i - start + 1).last() == c);
        assert(decimal_value(d.take(i - start + 1)) == v * 10 + dv);
        match v.checked_mul(10) {
            None => {
                proof {
                    lemma_decimal_prefix_le(d, i - start + 1, d.len() as int);
                    assert(d.take(d.len() as int) == d);
                }
                return None;
            },
            Some(t) => match t.checked_add(dv) {
                None => {
                    proof {
                        lemma_decimal_prefix_le(d, i - start + 1, d.len() as int);
                        assert(d.take(d.len() as int) == d);
                    }
                    return None;
                },
                Some(w) => {
                    v = w;
                },
            },
        }
        i = i + 1;
    }
    assert(d.take(d.len() as int) == d);
    Some(v)
}

/// The character of a decimal digit.
pub open spec fn digit_char(d: nat) -> char {
    ((d as int) + 48) as char
}

/// The decimal form of `n`, without leading zeros (`"0"` for zero), as
/// `to_string` writes it.
pub open spec fn decimal_digits(n: nat) -> Seq<char>
    decreases n,
{
    if n < 10 {
        seq![digit_char(n)]
    } else {
        decimal_digits(n / 10).push(digit_char(n % 10))
    }
}

/// Appends the decimal form of `n` to `out`.
pub fn push_decimal(out: &mut String, n: usize)
    ensures
        final(out)@ == old(out)@ + decimal_digits(n as nat),
    decreases n,
{
    if n >= 10 {
        push_decimal(out, n / 10);
    }
    let d: u8 = (n % 10) as u8;
    push_char(out, (d + 48u8) as char);
    assert(old(out)@ + decimal_digits(n as nat) =~= if n >= 10 {
        (old(out)@ + decimal_digits((n / 10) as nat)).push(digit_char((n % 10) as nat))
    } else {
        old(out)@.push(digit_char(n as nat))
    });
}

/// The decimal form of `n` reads back as `n`; so different numbers have
/// different decimal forms.
pub proof fn lemma_decimal_digits(n: nat)
    ensures
        decimal_value(decimal_digits(n)) == n,
        decimal_digits(n).len() >= 1,
    decreases n,
{
    let s = decimal_digits(n);
    if n >= 10 {
        lemma_decimal_digits(n / 10);
        assert(s.drop_last() == decimal_digits(n / 10));
        assert(s.last() == digit_char(n % 10));
        assert(digit_value(digit_char(n % 10)) == n % 10);
        assert(n == (n / 10) * 10 + n % 10);
    } else {
        assert(s.drop_last() =~= Seq::<char>::empty());
        assert(decimal_value(s.drop_last()) == 0);
        assert(s.last() == digit_char(n));
        assert(digit_value(digit_char(n)) == n);
    }
}

// ---------------------------------------------------------------------
// Binary numbers
// ---------------------------------------------------------------------

pub open spec fn bit_char(b: nat) -> char {
    if b == 0 {
        '0'
    } else {
        '1'
    }
}

/// The binary form of `n`, without leading zeros (`"0"` for zero), as the
/// `{:b}` format writes it.
pub open spec fn binary_digits(n: nat) -> Seq<char>
    decreases n,
{
    if n < 2 {
        seq![bit_char(n)]
    } else {
        binary_digits(n / 2).push(bit_char(n % 2))
    }
}

/// `s` padded with `'0'` on the left up to `width` characters; longer
/// strings are kept as they are.
pub open spec fn zero_pad(s: Seq<char>, width: nat) -> Seq<char> {
    if s.len() >= width {
        s
    } else {
        Seq::new((width - s.len()) as nat, |i: int| '0') + s
    }
}

/// Appends the binary form of `n` to `out`.
pub fn push_binary(out: &mut String, n: usize)
    ensures
        final(out)@ == old(out)@ + binary_digits(n as nat),
    decreases n,
{
    if n >= 2 {
        push_binary(out, n / 2);
    }
    if n % 2 == 0 {
        push_char(out, '0');
    } else {
        push_char(out, '1');
    }
    assert(old(out)@ + binary_digits(n as nat) =~= if n >= 2 {
        (old(out)@ + binary_digits((n / 2) as nat)).push(bit_char((n % 2) as nat))
    } else {
        old(out)@.push(bit_char(n as nat))
    });
}

/// The value of a string of binary digits, most significant first.
pub open spec fn binary_value(s: Seq<char>) -> nat
    decreases s.len(),
{
    if s.len() == 0 {
        0
    } else {
        binary_value(s.drop_last()) * 2 + (if s.last() == '1' {
            1nat
        } else {
            0nat
        })
    }
}

pub open spec fn all_bits(s: Seq<char>) -> bool {
    forall|i: int| 0 <= i < s.len() ==> (#[trigger] s[i] == '0' || s[i] == '1')
}

pub open spec fn two_pow(k: nat) -> nat
    decreases k,
{
    if k == 0 {
        1
    } else {
        2 * two_pow((k - 1) as nat)
    }
}

/// The binary form of `n` reads back as `n`, holds only bits, and has at
/// most `k` digits when `n < 2^k`.
pub proof fn lemma_binary_digits(n: nat)
    ensures
        binary_value(binary_digits(n)) == n,
        all_bits(binary_digits(n)),
        binary_digits(n).len() >= 1,
        forall|k: nat| 1 <= k && n < #[trigger] two_pow(k) ==> binary_digits(n).len() <= k,
    decreases n,
{
    if n >= 2 {
        lemma_binary_digits(n / 2);
        let s = binary_digits(n);
        assert(s.drop_last() == binary_digits(n / 2));
        assert(s.last() == bit_char(n % 2));
        assert(n == (n / 2) * 2 + n % 2);
        assert(binary_value(s) == binary_value(s.drop_last()) * 2 + (if s.last() == '1' { 1nat } else { 0nat }));
        assert forall|k: nat| 1 <= k && n < #[trigger] two_pow(k) implies s.len() <= k by {
            if k == 1 {
                assert(two_pow(1) == 2 * two_pow(0));
            } else {
                assert(two_pow(k) == 2 * two_pow((k - 1) as nat));
                assert(n / 2 < two_pow((k - 1) as nat));
            }
        }
    } else {
        let s = binary_digits(n);
        assert(s.drop_last() =~= Seq::<char>::empty());
        assert(binary_value(s.drop_last()) == 0);
        assert(s.last() == bit_char(n));
        assert(binary_value(s) == binary_value(s.drop_last()) * 2 + (if s.last() == '1' { 1nat } else { 0nat }));
        assert forall|k: nat| 1 <= k && n < #[trigger] two_pow(k) implies binary_digits(n).len()
            <= k by {}
    }
}

/// Leading zeros do not change the value of a binary string.
pub proof fn lemma_binary_value_zeros(z: nat, s: Seq<char>)
    ensures
        binary_value(Seq::new(z, |i: int| '0') + s) == binary_value(s),
    decreases s.len() + z,
{
    let p = Seq::new(z, |i: int| '0') + s;
    if s.len() > 0 {
        assert(p.drop_last() == Seq::new(z, |i: int| '0') + s.drop_last());
        lemma_binary_value_zeros(z, s.drop_last());
    } else if z > 0 {
        assert(p.drop_last() == Seq::new((z - 1) as nat, |i: int| '0') + s);
        lemma_binary_value_zeros((z - 1) as nat, s);
    } else {
        assert(p == s);
    }
}

} // verus!
