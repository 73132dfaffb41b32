//! Character-level helpers of the configuration parser: whitespace, trimming,
//! splitting off the first word, and reading numbers as `str::parse` does.

use crate::seq_util::{first_where, lemma_first_where, lemma_first_where_at};
use vstd::prelude::*;

verus! {

/// Unicode `White_Space`, the set that `char::is_whitespace` tests.
pub open spec fn is_ws(c: char) -> bool {
    c == ' ' || c == '\t' || c == '\n' || c == '\x0B' || c == '\x0C' || c == '\r'
        || c == '\u{85}' || c == '\u{A0}' || c == '\u{1680}' || ('\u{2000}' <= c
        && c <= '\u{200A}') || c == '\u{2028}' || c == '\u{2029}' || c == '\u{202F}'
        || c == '\u{205F}' || c == '\u{3000}'
}

pub open spec fn ws_pred() -> spec_fn(char) -> bool {
    |c: char| is_ws(c)
}

pub open spec fn non_ws_pred() -> spec_fn(char) -> bool {
    |c: char| !is_ws(c)
}

pub open spec fn char_pred(x: char) -> spec_fn(char) -> bool {
    |c: char| c == x
}

/// Whether a character is whitespace, as `char::is_whitespace` decides.
pub fn is_whitespace(c: char) -> (b: bool)
    ensures
        b == is_ws(c),
{
    c == ' ' || c == '\t' || c == '\n' || c == '\x0B' || c == '\x0C' || c == '\r'
        || c == '\u{85}' || c == '\u{A0}' || c == '\u{1680}' || ('\u{2000}' <= c
        && c <= '\u{200A}') || c == '\u{2028}' || c == '\u{2029}' || c == '\u{202F}'
        || c == '\u{205F}' || c == '\u{3000}'
}

/// `s` without its leading whitespace.
pub open spec fn trim_start(s: Seq<char>) -> Seq<char> {
    s.skip(first_where(s, non_ws_pred()) as int)
}

/// Length of `s` once its trailing whitespace is removed.
pub open spec fn trimmed_end_len(s: Seq<char>) -> nat
    decreases s.len(),
{
    if s.len() == 0 {
        0
    } else if is_ws(s.last()) {
        trimmed_end_len(s.drop_last())
    } else {
        s.len()
    }
}

/// `s` without its trailing whitespace.
pub open spec fn trim_end(s: Seq<char>) -> Seq<char> {
    s.take(trimmed_end_len(s) as int)
}

/// `s` without leading and trailing whitespace (`str::trim`).
pub open spec fn trim(s: Seq<char>) -> Seq<char> {
    trim_end(trim_start(s))
}

/// The first word of `s` and the rest after the whitespace that follows it,
/// both taken from `trim(s)`.
pub open spec fn split_first_spec(s: Seq<char>) -> (Seq<char>, Seq<char>) {
    let t = trim(s);
    let p = first_where(t, ws_pred());
    if p < t.len() {
        (t.take(p as int), trim_start(t.skip(p as int)))
    } else {
        (t, Seq::empty())
    }
}

pub proof fn lemma_trimmed_end_len(s: Seq<char>)
    ensures
        trimmed_end_len(s) <= s.len(),
        trimmed_end_len(s) > 0 ==> !is_ws(s[trimmed_end_len(s) - 1]),
        forall|j: int| trimmed_end_len(s) <= j < s.len() ==> is_ws(#[trigger] s[j]),
    decreases s.len(),
{
    if s.len() > 0 && is_ws(s.last()) {
        lemma_trimmed_end_len(s.drop_last());
        assert forall|j: int| trimmed_end_len(s) <= j < s.len() implies is_ws(#[trigger] s[j]) by {
            if j < s.len() - 1 {
                assert(s[j] == s.drop_last()[j]);
            }
        }
        if trimmed_end_len(s) > 0 {
            assert(s[trimmed_end_len(s) - 1] == s.drop_last()[trimmed_end_len(s) - 1]);
        }
    }
}

pub proof fn lemma_trimmed_end_len_at(s: Seq<char>, k: int)
    requires
        0 <= k <= s.len(),
        k > 0 ==> !is_ws(s[k - 1]),
        forall|j: int| k <= j < s.len() ==> is_ws(#[trigger] s[j]),
    ensures
        trimmed_end_len(s) == k,
    decreases s.len(),
{
    if s.len() > k {
        assert(is_ws(s[s.len() - 1]));
        assert forall|j: int| k <= j < s.len() - 1 implies is_ws(#[trigger] s.drop_last()[j]) by {
            assert(s.drop_last()[j] == s[j]);
        }
        if k > 0 {
            assert(s.drop_last()[k - 1] == s[k - 1]);
        }
        lemma_trimmed_end_len_at(s.drop_last(), k);
    }
}

/// Index of the first character of `s` satisfying the whitespace test `want_ws`
/// (or its negation), or the length.
fn scan_ws(s: &str, want_ws: bool) -> (i: usize)
    ensures
        want_ws ==> i == first_where(s@, ws_pred()),
        !want_ws ==> i == first_where(s@, non_ws_pred()),
{
    let n = s.unicode_len();
    let mut i: usize = 0;
    while i < n && is_whitespace(s.get_char(i)) != want_ws
        invariant
            n == s@.len(),
            0 <= i <= n,
            forall|j: int| 0 <= j < i ==> is_ws(#[trigger] s@[j]) != want_ws,
        decreases n - i,
    {
        i = i + 1;
    }
    proof {
        if want_ws {
            lemma_first_where_at(s@, ws_pred(), i as int);
        } else {
            lemma_first_where_at(s@, non_ws_pred(), i as int);
        }
    }
    i
}

/// Index of the first occurrence of `c` in `s`, if any.
pub fn find_char(s: &str, c: char) -> (r: Option<usize>)
    ensures
        match r {
            Some(i) => i == first_where(s@, char_pred(c)) && i < s@.len(),
            None => first_where(s@, char_pred(c)) == s@.len(),
        },
{
    let n = s.unicode_len();
    let mut i: usize = 0;
    while i < n
        invariant
            n == s@.len(),
            0 <= i <= n,
            forall|j: int| 0 <= j < i ==> #[trigger] s@[j] != c,
        decreases n - i,
    {
        if s.get_char(i) == c {
            proof {
                lemma_first_where_at(s@, char_pred(c), i as int);
            }
            return Some(i);
        }
        i = i + 1;
    }
    proof {
        lemma_first_where_at(s@, char_pred(c), i as int);
    }
    None
}

/// `str::trim_start`.
pub fn trim_start_str(s: &str) -> (r: &str)
    ensures
        r@ == trim_start(s@),
{
    let k = scan_ws(s, false);
    proof {
        lemma_first_where(s@, non_ws_pred());
    }
    s.substring_char(k, s.unicode_len())
}

/// `str::trim_end`.
pub fn trim_end_str(s: &str) -> (r: &str)
    ensures
        r@ == trim_end(s@),
{
    let n = s.unicode_len();
    let mut k: usize = n;
    while k > 0 && is_whitespace(s.get_char(k - 1))
        invariant
            n == s@.len(),
            0 <= k <= n,
            forall|j: int| k <= j < n ==> is_ws(#[trigger] s@[j]),
        decreases k,
    {
        k = k - 1;
    }
    proof {
        lemma_trimmed_end_len_at(s@, k as int);
    }
    s.substring_char(0, k)
}

/// `str::trim`.
pub fn trim_str(s: &str) -> (r: &str)
    ensures
        r@ == trim(s@),
{
    trim_end_str(trim_start_str(s))
}

/// Splits off the first whitespace-delimited word of `s` (after trimming);
/// the second part is what follows, without its leading whitespace.
pub fn split_first(s: &str) -> (r: (&str, &str))
    ensures
        (r.0@, r.1@) == split_first_spec(s@),
{
    let t = trim_str(s);
    let p = scan_ws(t, true);
    let n = t.unicode_len();
    proof {
        lemma_first_where(t@, ws_pred());
    }
    if p < n {
        let word = t.substring_char(0, p);
        let rest = trim_start_str(t.substring_char(p, n));
        (word, rest)
    } else {
        (t, t.substring_char(n, n))
    }
}


/// An ASCII decimal digit.
pub open spec fn is_digit(c: char) -> bool {
    '0' <= c && c <= '9'
}

pub open spec fn digit_value(c: char) -> nat {
    (c as nat - '0' as nat) as nat
}

pub open spec fn all_digits(s: Seq<char>) -> bool {
    forall|i: int| 0 <= i < s.len() ==> is_digit(#[trigger] s[i])
}

/// The number that a string of decimal digits denotes.
pub open spec fn digits_value(s: Seq<char>) -> nat
    decreases s.len(),
{
    if s.len() == 0 {
        0
    } else {
        digits_value(s.drop_last()) * 10 + digit_value(s.last())
    }
}

/// The digits after an optional leading sign (`+` always, `-` when `signed`).
pub open spec fn unsigned_part(s: Seq<char>, signed: bool) -> Seq<char> {
    if s.len() > 0 && (s[0] == '+' || (signed && s[0] == '-')) {
        s.drop_first()
    } else {
        s
    }
}

/// `str::parse::<u32>`: an optional `+`, then one or more decimal digits whose
/// value fits in a `u32`.
pub open spec fn spec_parse_u32(s: Seq<char>) -> Option<u32> {
    let d = unsigned_part(s, false);
    if d.len() > 0 && all_digits(d) && digits_value(d) <= u32::MAX {
        Some(digits_value(d) as u32)
    } else {
        None
    }
}

/// `str::parse::<i32>`: an optional sign, then one or more decimal digits whose
/// signed value fits in an `i32`.
pub open spec fn spec_parse_i32(s: Seq<char>) -> Option<i32> {
    let d = unsigned_part(s, true);
    let neg = s.len() > 0 && s[0] == '-';
    let v: int = if neg {
        -(digits_value(d) as int)
    } else {
        digits_value(d) as int
    };
    if d.len() > 0 && all_digits(d) && i32::MIN <= v && v <= i32::MAX {
        Some(v as i32)
    } else {
        None
    }
}

pub proof fn lemma_digits_prefix(d: Seq<char>, k: int)
    requires
        all_digits(d),
        0 <= k <= d.len(),
    ensures
        digits_value(d.take(k)) <= digits_value(d),
    decreases d.len(),
{
    if k < d.len() {
        assert(d.drop_last().take(k) =~= d.take(k));
        lemma_digits_prefix(d.drop_last(), k);
    } else {
        assert(d.take(k) =~= d);
    }
}

/// Reads the value of the digits of `d` (after `start`), stopping with `None`
/// on a non-digit or when the value passes `limit`.
fn read_digits(s: &str, start: usize, limit: u64) -> (r: Option<u64>)
    requires
        start <= s@.len(),
        9 <= limit <= u32::MAX + 1,
    ensures
        match r {
            Some(v) => all_digits(s@.skip(start as int)) && v == digits_value(s@.skip(start as int))
                && v <= limit,
            None => !all_digits(s@.skip(start as int)) || digits_value(s@.skip(start as int))
                > limit,
        },
{
    let n = s.unicode_len();
    let ghost d = s@.skip(start as int);
    let mut v: u64 = 0;
    let mut i: usize = start;
    while i < n
        invariant
            n == s@.len(),
            start <= i <= n,
            d == s@.skip(start as int),
            9 <= limit <= u32::MAX + 1,
            all_digits(d.take(i - start)),
            v == digits_value(d.take(i - start)),
            v <= limit,
        decreases n - i,
    {
        let c = s.get_char(i);
        assert(d.take(i - start + 1).drop_last() =~= d.take(i - start));
        assert(d[i - start] == c);
        if !('0' <= c && c <= '9') {
            assert(!is_digit(d[i - start]));
            return None;
        }
        let dv: u64 = (c as u64) - ('0' as u64);
        if v > (limit - dv) / 10 {
            proof {
                assert(digits_value(d.take(i - start + 1)) > limit) by (nonlinear_arith)
                    requires
                        digits_value(d.take(i - start + 1)) == v * 10 + dv,
                        v > (limit - dv) / 10,
                        dv <= limit,
                ;
                if all_digits(d) {
                    lemma_digits_prefix(d, i - start + 1);
                }
            }
            return None;
        }
        proof {
            assert(v * 10 + dv <= limit) by (nonlinear_arith)
                requires
                    v <= (limit - dv) / 10,
                    dv <= limit,
            ;
        }
        v = v * 10 + dv;
        i = i + 1;
    }
    assert(d.take(i - start) =~= d);
    Some(v)
}

/// `str::parse::<u32>`, without the error's detail.
pub fn parse_u32(s: &str) -> (r: Option<u32>)
    ensures
        r == spec_parse_u32(s@),
{
    let n = s.unicode_len();
    let start: usize = if n > 0 && s.get_char(0) == '+' { 1 } else { 0 };
    assert(s@.skip(start as int) =~= unsigned_part(s@, false));
    if start >= n {
        return None;
    }
    match read_digits(s, start, 0xffff_ffff) {
        Some(v) => Some(v as u32),
        None => None,
    }
}

/// `str::parse::<usize>`: an optional `+`, then one or more decimal digits
/// whose value fits in a `usize`.
pub open spec fn spec_parse_usize(s: Seq<char>) -> Option<usize> {
    let d = unsigned_part(s, false);
    if d.len() > 0 && all_digits(d) && digits_value(d) <= usize::MAX {
        Some(digits_value(d) as usize)
    } else {
        None
    }
}

/// `str::parse::<usize>`, without the error's detail.
pub fn parse_usize(s: &str) -> (r: Option<usize>)
    ensures
        r == spec_parse_usize(s@),
{
    let n = s.unicode_len();
    let start: usize = if n > 0 && s.get_char(0) == '+' { 1 } else { 0 };
    let ghost d = s@.skip(start as int);
    assert(d =~= unsigned_part(s@, false));
    if start >= n {
        return None;
    }
    let mut v: usize = 0;
    let mut i: usize = start;
    while i < n
        invariant
            n == s@.len(),
            start <= i <= n,
            d == s@.skip(start as int),
            d == unsigned_part(s@, false),
            d.len() > 0,
            forall|j: int| 0 <= j < i - start ==> is_digit(#[trigger] d[j]),
            v == digits_value(d.take(i - start)),
        decreases n - i,
    {
        let c = s.get_char(i);
        assert(d[i - start] == c);
        if !('0' <= c && c <= '9') {
            assert(!is_digit(d[i - start]));
            return None;
        }
        let dv = (c as u32 - '0' as u32) as usize;
        assert(d.take(i - start + 1).drop_last() =~= d.take(i - start));
        assert(digits_value(d.take(i - start + 1)) == digits_value(d.take(i - start)) * 10 + dv);
        match v.checked_mul(10) {
            Some(m) => match m.checked_add(dv) {
                Some(a) => {
                    v = a;
                },
                None => {
                    proof {
                        if all_digits(d) {
                            lemma_digits_prefix(d, i - start + 1);
                        }
                    }
                    return None;
                },
            },
            None => {
                proof {
                    if all_digits(d) {
                        lemma_digits_prefix(d, i - start + 1);
                    }
                }
                return None;
            },
        }
        i = i + 1;
    }
    assert(d.take(i - start) =~= d);
    Some(v)
}

/// `str::parse::<i32>`, without the error's detail.
pub fn parse_i32(s: &str) -> (r: Option<i32>)
    ensures
        r == spec_parse_i32(s@),
{
    let n = s.unicode_len();
    let neg = n > 0 && s.get_char(0) == '-';
    let start: usize = if n > 0 && (s.get_char(0) == '+' || s.get_char(0) == '-') { 1 } else { 0 };
    assert(s@.skip(start as int) =~= unsigned_part(s@, true));
    if start >= n {
        return None;
    }
    match read_digits(s, start, 0x8000_0000) {
        Some(v) => {
            if neg {
                Some((0 - (v as i64)) as i32)
            } else if v <= 0x7fff_ffff {
                Some(v as i32)
            } else {
                None
            }
        },
        None => None,
    }
}

/// ASCII lower case of a character; other characters unchanged.
pub open spec fn lower(c: char) -> char {
    if 'A' <= c && c <= 'Z' {
        ((c as u32) + 32) as char
    } else {
        c
    }
}

/// Whether `s` spells `word` (given in lower case), ignoring ASCII case.
pub open spec fn eq_ignore_case(s: Seq<char>, word: Seq<char>) -> bool {
    s.len() == word.len() && forall|i: int| 0 <= i < s.len() ==> lower(#[trigger] s[i]) == word[i]
}

/// Number of leading decimal digits of `s`.
pub open spec fn digit_run(s: Seq<char>) -> nat {
    first_where(s, |c: char| !is_digit(c))
}

/// An exponent part: empty, or `e`/`E`, an optional sign and one or more digits.
pub open spec fn is_exponent(e: Seq<char>) -> bool {
    e.len() == 0 || ((e[0] == 'e' || e[0] == 'E') && {
        let t = unsigned_part(e.drop_first(), true);
        t.len() > 0 && all_digits(t)
    })
}

/// A decimal number: digits with an optional fraction (at least one digit in
/// all), then an optional exponent.
pub open spec fn is_decimal(b: Seq<char>) -> bool {
    let ip = digit_run(b);
    let rest = b.skip(ip as int);
    if rest.len() > 0 && rest[0] == '.' {
        let frac = rest.drop_first();
        let fp = digit_run(frac);
        ip + fp > 0 && is_exponent(frac.skip(fp as int))
    } else {
        ip > 0 && is_exponent(rest)
    }
}

/// The texts that `str::parse::<f64>` accepts: an optional sign, then `inf`,
/// `infinity`, `nan` (any ASCII case) or a decimal number.
pub open spec fn is_float_text(s: Seq<char>) -> bool {
    let b = unsigned_part(s, true);
    eq_ignore_case(b, "inf"@) || eq_ignore_case(b, "infinity"@) || eq_ignore_case(b, "nan"@)
        || is_decimal(b)
}

fn ascii_lower(c: char) -> (r: char)
    ensures
        r == lower(c),
{
    if 'A' <= c && c <= 'Z' {
        ((c as u8) + 32) as char
    } else {
        c
    }
}

fn matches_ignore_case(s: &str, word: &str) -> (b: bool)
    ensures
        b == eq_ignore_case(s@, word@),
{
    let n = s.unicode_len();
    if n != word.unicode_len() {
        return false;
    }
    let mut i: usize = 0;
    while i < n
        invariant
            n == s@.len(),
            n == word@.len(),
            0 <= i <= n,
            forall|j: int| 0 <= j < i ==> lower(#[trigger] s@[j]) == word@[j],
        decreases n - i,
    {
        if ascii_lower(s.get_char(i)) != word.get_char(i) {
            return false;
        }
        i = i + 1;
    }
    true
}

fn count_digits(s: &str) -> (k: usize)
    ensures
        k == digit_run(s@),
        k <= s@.len(),
{
    let n = s.unicode_len();
    let mut i: usize = 0;
    while i < n && is_ascii_digit(s.get_char(i))
        invariant
            n == s@.len(),
            0 <= i <= n,
            forall|j: int| 0 <= j < i ==> is_digit(#[trigger] s@[j]),
        decreases n - i,
    {
        i = i + 1;
    }
    proof {
        lemma_first_where_at(s@, |c: char| !is_digit(c), i as int);
    }
    i
}

fn is_ascii_digit(c: char) -> (b: bool)
    ensures
        b == is_digit(c),
{
    '0' <= c && c <= '9'
}

fn all_ascii_digits(s: &str) -> (b: bool)
    ensures
        b == all_digits(s@),
{
    let k = count_digits(s);
    proof {
        lemma_first_where(s@, |c: char| !is_digit(c));
    }
    k == s.unicode_len()
}

fn exponent_ok(e: &str) -> (b: bool)
    ensures
        b == is_exponent(e@),
{
    let n = e.unicode_len();
    if n == 0 {
        return true;
    }
    let c = e.get_char(0);
    if c != 'e' && c != 'E' {
        return false;
    }
    let t = e.substring_char(1, n);
    assert(t@ =~= e@.drop_first());
    let m = t.unicode_len();
    let start: usize = if m > 0 && (t.get_char(0) == '+' || t.get_char(0) == '-') { 1 } else { 0 };
    let digits = t.substring_char(start, m);
    assert(digits@ =~= unsigned_part(t@, true));
    digits.unicode_len() > 0 && all_ascii_digits(digits)
}

/// Whether `str::parse::<f64>` accepts `s`.
pub fn is_float_literal(s: &str) -> (b: bool)
    ensures
        b == is_float_text(s@),
{
    let n = s.unicode_len();
    let start: usize = if n > 0 && (s.get_char(0) == '+' || s.get_char(0) == '-') { 1 } else { 0 };
    let b = s.substring_char(start, n);
    assert(b@ =~= unsigned_part(s@, true));
    if matches_ignore_case(b, "inf") || matches_ignore_case(b, "infinity") || matches_ignore_case(
        b,
        "nan",
    ) {
        return true;
    }
    let m = b.unicode_len();
    let ip = count_digits(b);
    let rest = b.substring_char(ip, m);
    assert(rest@ =~= b@.skip(ip as int));
    let r = rest.unicode_len();
    if r > 0 && rest.get_char(0) == '.' {
        let frac = rest.substring_char(1, r);
        assert(frac@ =~= rest@.drop_first());
        let fp = count_digits(frac);
        let tail = frac.substring_char(fp, frac.unicode_len());
        assert(tail@ =~= frac@.skip(fp as int));
        ip + fp > 0 && exponent_ok(tail)
    } else {
        ip > 0 && exponent_ok(rest)
    }
}

} // verus!
