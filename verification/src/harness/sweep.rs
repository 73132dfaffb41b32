//! The sweep between the feature table of the compatibility document and the
//! results of the checks: reading the status rows of the table, matching each
//! row against the checks by name, and reading the lines of tool output that
//! the sweep collects (grep and clippy).

use super::suite::{DetailModel, StatusModel, TestDetail, TestStatus};
use crate::config::lex::{
    char_pred, is_ws, lemma_trimmed_end_len, trim, trim_start, trim_str, trim_start_str,
};
use crate::seq_util::{first_where, lemma_first_where, lemma_first_where_at};
use crate::text::{
    chars_of, contains_seq, contains_str, occurs_at, occurs_at_exec, pieces, push_char, str_eq,
    string_of, strings_view, text_lines, split_lines, next_sep, to_string, first_occ, has_prefix,
    find_str, starts_with_str,
};
use crate::config::lex::{is_digit, parse_usize, spec_parse_usize};
use vstd::prelude::*;

verus! {

/// The status marker of a row of the feature table.
#[derive(Debug, Clone, Copy, PartialEq, Eq, Structural)]
pub enum SpecStatus {
    Implemented,
    Partial,
    Missing,
}

/// The name shown for a status.
pub open spec fn status_name(s: SpecStatus) -> Seq<char> {
    match s {
        SpecStatus::Implemented => "IMPLEMENTED"@,
        SpecStatus::Partial => "PARTIAL"@,
        SpecStatus::Missing => "MISSING"@,
    }
}

impl SpecStatus {
    /// The name shown for the status (`IMPLEMENTED`, `PARTIAL`, `MISSING`).
    pub fn name(&self) -> (s: String)
        ensures
            s@ == status_name(*self),
    {
        match self {
            SpecStatus::Implemented => to_string("IMPLEMENTED"),
            SpecStatus::Partial => to_string("PARTIAL"),
            SpecStatus::Missing => to_string("MISSING"),
        }
    }
}

/// A status row of the feature table.
#[derive(Debug, Clone)]
pub struct SpecEntry {
    pub line_number: usize,
    pub feature_name: String,
    pub normalized_key: String,
    pub status: SpecStatus,
}

/// View of a [`SpecEntry`].
pub struct EntryModel {
    pub line_number: usize,
    pub feature_name: Seq<char>,
    pub normalized_key: Seq<char>,
    pub status: SpecStatus,
}

impl View for SpecEntry {
    type V = EntryModel;

    open spec fn view(&self) -> EntryModel {
        EntryModel {
            line_number: self.line_number,
            feature_name: self.feature_name@,
            normalized_key: self.normalized_key@,
            status: self.status,
        }
    }
}

/// A row whose status should become `IMPLEMENTED`, with the passing checks
/// that say so.
#[derive(Debug)]
pub struct NeedsUpdateItem {
    pub spec_feature: String,
    pub spec_line: usize,
    pub old_status: SpecStatus,
    pub matching_tests: Vec<String>,
}

/// View of a [`NeedsUpdateItem`].
pub struct UpdateModel {
    pub spec_feature: Seq<char>,
    pub spec_line: usize,
    pub old_status: SpecStatus,
    pub matching_tests: Seq<Seq<char>>,
}

impl View for NeedsUpdateItem {
    type V = UpdateModel;

    open spec fn view(&self) -> UpdateModel {
        UpdateModel {
            spec_feature: self.spec_feature@,
            spec_line: self.spec_line,
            old_status: self.old_status,
            matching_tests: strings_view(self.matching_tests@),
        }
    }
}

/// A row marked implemented whose checks are all not implemented.
#[derive(Debug)]
pub struct DisagreesItem {
    pub spec_feature: String,
    pub spec_line: usize,
    pub not_impl_tests: Vec<String>,
}

/// View of a [`DisagreesItem`].
pub struct DisagreeModel {
    pub spec_feature: Seq<char>,
    pub spec_line: usize,
    pub not_impl_tests: Seq<Seq<char>>,
}

impl View for DisagreesItem {
    type V = DisagreeModel;

    open spec fn view(&self) -> DisagreeModel {
        DisagreeModel {
            spec_feature: self.spec_feature@,
            spec_line: self.spec_line,
            not_impl_tests: strings_view(self.not_impl_tests@),
        }
    }
}

/// A TODO-like marker found in the sources.
#[derive(Debug)]
pub struct TodoEntry {
    pub file: String,
    pub line: usize,
    pub kind: String,
    pub content: String,
}

/// Clippy warnings counted by crate, and the kinds of warning seen.
#[derive(Debug, Default)]
pub struct ClippySummary {
    pub by_crate: Vec<(String, usize)>,
    pub warning_types: Vec<String>,
    pub total: usize,
}

// ── Lower case ──────────────────────────────────────────────────

/// What `str::to_lowercase` gives for a text (Unicode lower case).
pub uninterp spec fn lowercase(s: Seq<char>) -> Seq<char>;

/// Calls `str::to_lowercase`. Claimed: the result is named `lowercase` of
/// the argument.
#[verifier::external_body]
fn to_lowercase(s: &str) -> (r: String)
    ensures
        r@ == lowercase(s@),
{
    s.to_lowercase()
}

// ── Keys ────────────────────────────────────────────────────────

pub open spec fn ascii_alpha(c: char) -> bool {
    ('a' <= c && c <= 'z') || ('A' <= c && c <= 'Z')
}

pub open spec fn ascii_digit(c: char) -> bool {
    '0' <= c && c <= '9'
}

pub open spec fn ascii_alnum(c: char) -> bool {
    ascii_alpha(c) || ascii_digit(c)
}

fn ascii_alnum_exec(c: char) -> (b: bool)
    ensures
        b == ascii_alnum(c),
{
    ('a' <= c && c <= 'z') || ('A' <= c && c <= 'Z') || ('0' <= c && c <= '9')
}

/// A space, `-` or `/` becomes `_`.
pub open spec fn underscored(c: char) -> char {
    if c == ' ' || c == '-' || c == '/' {
        '_'
    } else {
        c
    }
}

/// A character that a key keeps: an ASCII letter or digit, or `_`.
pub open spec fn is_key_char(c: char) -> bool {
    ascii_alnum(c) || c == '_'
}

/// The key characters of `s`, with spaces, `-` and `/` turned into `_`.
pub open spec fn key_chars(s: Seq<char>) -> Seq<char>
    decreases s.len(),
{
    if s.len() == 0 {
        Seq::empty()
    } else {
        let c = underscored(s.last());
        if is_key_char(c) {
            key_chars(s.drop_last()).push(c)
        } else {
            key_chars(s.drop_last())
        }
    }
}

pub open spec fn not_char(x: char) -> spec_fn(char) -> bool {
    |c: char| c != x
}

/// Number of trailing `x` of `s`.
pub open spec fn end_run(s: Seq<char>, x: char) -> nat
    decreases s.len(),
{
    if s.len() > 0 && s.last() == x {
        1 + end_run(s.drop_last(), x)
    } else {
        0
    }
}

/// `s` without its leading and trailing `x` (`str::trim_matches`).
pub open spec fn trim_char(s: Seq<char>, x: char) -> Seq<char> {
    let a = first_where(s, not_char(x));
    if a >= s.len() {
        Seq::empty()
    } else {
        s.subrange(a as int, s.len() - end_run(s, x))
    }
}

proof fn lemma_end_run_at(s: Seq<char>, x: char, e: int)
    requires
        0 <= e <= s.len(),
        e == 0 || s[e - 1] != x,
        forall|j: int| e <= j < s.len() ==> s[j] == x,
    ensures
        end_run(s, x) == s.len() - e,
    decreases s.len(),
{
    if s.len() > e {
        assert forall|j: int| e <= j < s.len() - 1 implies s.drop_last()[j] == x by {
            assert(s.drop_last()[j] == s[j]);
        }
        if e > 0 {
            assert(s.drop_last()[e - 1] == s[e - 1]);
        }
        lemma_end_run_at(s.drop_last(), x, e);
    }
}

/// `chars[from..]` without its leading and trailing `x`.
fn trim_char_vec(chars: &Vec<char>, x: char) -> (r: String)
    ensures
        r@ == trim_char(chars@, x),
{
    let n = chars.len();
    let mut a: usize = 0;
    while a < n && chars[a] == x
        invariant
            n == chars@.len(),
            a <= n,
            forall|j: int| 0 <= j < a ==> chars@[j] == x,
        decreases n - a,
    {
        a = a + 1;
    }
    proof {
        lemma_first_where_at(chars@, not_char(x), a as int);
    }
    if a == n {
        return String::new();
    }
    let mut e: usize = n;
    while e > a && chars[e - 1] == x
        invariant
            n == chars@.len(),
            a < n,
            chars@[a as int] != x,
            a < e <= n,
            forall|j: int| e <= j < n ==> chars@[j] == x,
        decreases e,
    {
        e = e - 1;
    }
    proof {
        lemma_end_run_at(chars@, x, e as int);
    }
    string_of(chars, a, e)
}

/// The key of a feature name: lower case, spaces, `-` and `/` turned into
/// `_`, only ASCII letters, digits and `_` kept, no `_` at either end.
pub open spec fn key_of(name: Seq<char>) -> Seq<char> {
    trim_char(key_chars(lowercase(name)), '_')
}

/// The key of a feature name (see [`key_of`]).
pub fn normalize_key(feature_name: &str) -> (r: String)
    ensures
        r@ == key_of(feature_name@),
{
    let low = to_lowercase(feature_name);
    let lc = chars_of(low.as_str());
    let mut kept: Vec<char> = Vec::new();
    let mut i: usize = 0;
    while i < lc.len()
        invariant
            i <= lc@.len(),
            kept@ == key_chars(lc@.take(i as int)),
        decreases lc@.len() - i,
    {
        let c = lc[i];
        let u = if c == ' ' || c == '-' || c == '/' {
            '_'
        } else {
            c
        };
        if ascii_alnum_exec(u) || u == '_' {
            kept.push(u);
        }
        assert(lc@.take(i + 1).drop_last() =~= lc@.take(i as int));
        i = i + 1;
    }
    assert(lc@.take(i as int) =~= lc@);
    trim_char_vec(&kept, '_')
}

// ── Words ───────────────────────────────────────────────────────

/// `n` occurs in `h` at `i` as a word: the characters around it are `_` or
/// the ends of `h`.
pub open spec fn word_at(h: Seq<char>, n: Seq<char>, i: int) -> bool {
    &&& occurs_at(h, n, i)
    &&& (i == 0 || h[i - 1] == '_')
    &&& (i + n.len() == h.len() || h[i + n.len()] == '_')
}

/// `n` occurs in `h` as a word.
pub open spec fn has_word(h: Seq<char>, n: Seq<char>) -> bool {
    exists|i: int| word_at(h, n, i)
}

/// Whether the search for `n` as a word of `h` would cut a character: the
/// search steps one byte past each occurrence that is not a word, which
/// lands inside a character when the occurrence starts with one of more than
/// one byte, and past the end of `h` after an empty occurrence at the end.
pub open spec fn word_search_cuts(h: Seq<char>, n: Seq<char>) -> bool {
    exists|i: int|
        #![trigger occurs_at(h, n, i)]
        0 <= i <= h.len() && occurs_at(h, n, i) && !word_at(h, n, i) && (forall|j: int|
            0 <= j < i ==> !word_at(h, n, j)) && (i == h.len() || (h[i] as u32) >= 128)
}

/// A needle that starts with an ASCII character never cuts one.
pub proof fn lemma_ascii_needle_no_cut(h: Seq<char>, n: Seq<char>)
    requires
        n.len() > 0,
        (n[0] as u32) < 128,
    ensures
        !word_search_cuts(h, n),
{
    assert forall|i: int| occurs_at(h, n, i) implies i < h.len() && h[i] == n[0] by {
        assert(h.subrange(i, i + n.len())[0] == h[i]);
    }
}

/// Whether `needle` occurs in `haystack` delimited by `_` or the ends.
pub fn contains_word(haystack: &str, needle: &str) -> (b: bool)
    requires
        !word_search_cuts(haystack@, needle@),
    ensures
        b == has_word(haystack@, needle@),
{
    let h = chars_of(haystack);
    let n = chars_of(needle);
    if n.len() > h.len() {
        return false;
    }
    let hl = h.len();
    let last = hl - n.len();
    let mut i: usize = 0;
    loop
        invariant
            hl == h@.len(),
            h@ == haystack@,
            n@ == needle@,
            i <= last,
            last + n@.len() == h@.len(),
            forall|j: int| 0 <= j < i ==> !word_at(h@, n@, j),
        decreases last - i,
    {
        if occurs_at_exec(&h, &n, i) {
            let before_ok = i == 0 || h[i - 1] == '_';
            let end = i + n.len();
            let after_ok = end >= hl || h[end] == '_';
            if before_ok && after_ok {
                assert(word_at(h@, n@, i as int));
                return true;
            }
        }
        if i == last {
            return false;
        }
        i = i + 1;
    }
}

// ── Feature names ───────────────────────────────────────────────

/// `s` without any `c` (`str::replace` of the character by nothing).
pub open spec fn drop_char(s: Seq<char>, c: char) -> Seq<char>
    decreases s.len(),
{
    if s.len() == 0 {
        Seq::empty()
    } else if s.last() == c {
        drop_char(s.drop_last(), c)
    } else {
        drop_char(s.drop_last(), c).push(s.last())
    }
}

fn drop_char_str(s: &str, c: char) -> (r: String)
    ensures
        r@ == drop_char(s@, c),
{
    let n = s.unicode_len();
    let mut r = String::new();
    let mut i: usize = 0;
    while i < n
        invariant
            n == s@.len(),
            i <= n,
            r@ == drop_char(s@.take(i as int), c),
        decreases n - i,
    {
        let ch = s.get_char(i);
        if ch != c {
            push_char(&mut r, ch);
        }
        assert(s@.take(i + 1).drop_last() =~= s@.take(i as int));
        i = i + 1;
    }
    assert(s@.take(i as int) =~= s@);
    r
}

/// The second and third pieces of `s` cut at backticks, when it has at
/// least three.
pub open spec fn tick_parts(s: Seq<char>) -> Option<(Seq<char>, Seq<char>)> {
    let k1 = first_where(s, char_pred('`'));
    if k1 >= s.len() {
        None
    } else {
        let r1 = s.skip(k1 + 1int);
        let k2 = first_where(r1, char_pred('`'));
        if k2 >= r1.len() {
            None
        } else {
            let r2 = r1.skip(k2 + 1int);
            Some((r1.take(k2 as int), r2.take(first_where(r2, char_pred('`')) as int)))
        }
    }
}

fn tick_parts_exec(s: &str) -> (r: Option<(&str, &str)>)
    ensures
        match r {
            Some((a, b)) => tick_parts(s@) == Some((a@, b@)),
            None => tick_parts(s@) is None,
        },
{
    let n = s.unicode_len();
    let k1 = match crate::config::lex::find_char(s, '`') {
        Some(k) => k,
        None => return None,
    };
    let r1 = s.substring_char(k1 + 1, n);
    assert(r1@ =~= s@.skip(k1 + 1int));
    let m = r1.unicode_len();
    let k2 = match crate::config::lex::find_char(r1, '`') {
        Some(k) => k,
        None => return None,
    };
    let p1 = r1.substring_char(0, k2);
    let r2 = r1.substring_char(k2 + 1, m);
    assert(r2@ =~= r1@.skip(k2 + 1int));
    let k3 = match crate::config::lex::find_char(r2, '`') {
        Some(k) => k,
        None => r2.unicode_len(),
    };
    let p2 = r2.substring_char(0, k3);
    assert(p1@ =~= r1@.take(k2 as int));
    assert(p2@ =~= r2@.take(first_where(r2@, char_pred('`')) as int));
    Some((p1, p2))
}

/// A character that is not a letter, whitespace or `_` (ends a qualifier).
pub open spec fn not_qualifier() -> spec_fn(char) -> bool {
    |c: char| !(ascii_alpha(c) || is_ws(c) || c == '_')
}

/// A character that is not a letter, digit, `_` or space (ends a word).
pub open spec fn not_word() -> spec_fn(char) -> bool {
    |c: char| !(ascii_alnum(c) || c == '_' || c == ' ')
}

fn run_char(c: char, word: bool) -> (b: bool)
    ensures
        word ==> b == !not_word()(c),
        !word ==> b == !not_qualifier()(c),
{
    if word {
        ascii_alnum_exec(c) || c == '_' || c == ' '
    } else {
        ('a' <= c && c <= 'z') || ('A' <= c && c <= 'Z') || crate::config::lex::is_whitespace(c)
            || c == '_'
    }
}

/// Length of the leading run of `s` before the first character satisfying
/// `not_qualifier` (`word == false`) or `not_word` (`word == true`).
fn run_len(s: &str, word: bool) -> (k: usize)
    ensures
        k <= s@.len(),
        word ==> k == first_where(s@, not_word()),
        !word ==> k == first_where(s@, not_qualifier()),
{
    let n = s.unicode_len();
    let mut i: usize = 0;
    while i < n && run_char(s.get_char(i), word)
        invariant
            n == s@.len(),
            i <= n,
            word ==> forall|j: int| 0 <= j < i ==> !not_word()(#[trigger] s@[j]),
            !word ==> forall|j: int| 0 <= j < i ==> !not_qualifier()(#[trigger] s@[j]),
        decreases n - i,
    {
        i = i + 1;
    }
    proof {
        if word {
            lemma_first_where_at(s@, not_word(), i as int);
        } else {
            lemma_first_where_at(s@, not_qualifier(), i as int);
        }
    }
    i
}

/// The name in backticks of a cell, with the words that follow the closing
/// backtick (`` `focus` direction `` gives `focus direction`).
pub open spec fn backtick_name(cell: Seq<char>) -> Option<Seq<char>> {
    match tick_parts(cell) {
        Some((p1, p2)) => {
            let bt = trim(p1);
            if bt.len() > 0 && bt[0] != '[' {
                let after = trim(p2);
                let q = trim(after.take(first_where(after, not_qualifier()) as int));
                Some(
                    if q.len() == 0 {
                        bt
                    } else {
                        bt + " "@ + q
                    },
                )
            } else {
                None
            }
        },
        None => None,
    }
}

/// The first words of the text in backticks of a cell.
pub open spec fn backtick_word(cell: Seq<char>) -> Option<Seq<char>> {
    match tick_parts(cell) {
        Some((p1, _)) => {
            let bt = trim(p1);
            if bt.len() > 0 && bt[0] != '[' {
                let w = trim(bt.take(first_where(bt, not_word()) as int));
                if w.len() > 0 {
                    Some(w)
                } else {
                    None
                }
            } else {
                None
            }
        },
        None => None,
    }
}

/// Digits, `x` and `a` to `f`: a type code rather than a name.
pub open spec fn hexish(c: char) -> bool {
    ascii_digit(c) || c == 'x' || ('a' <= c && c <= 'f')
}

pub open spec fn cells_view(cells: Seq<&str>) -> Seq<Seq<char>> {
    cells.map_values(|c: &str| c@)
}

/// The feature named by the cells of a table row: the first cell without
/// backticks when it holds a letter, unless a cell holds a name in
/// backticks. A first cell that is a type code defers to the second.
pub open spec fn feature_of(cells: Seq<Seq<char>>) -> Option<Seq<char>> {
    let first = trim(drop_char(cells[0], '`'));
    let use_second = forall|i: int| 0 <= i < first.len() ==> hexish(#[trigger] first[i]);
    let cell = if use_second && cells.len() > 1 {
        cells[1]
    } else {
        cells[0]
    };
    match backtick_name(cell) {
        Some(n) => Some(n),
        None => {
            let has_ascii = exists|i: int| 0 <= i < first.len() && ascii_alpha(#[trigger] first[i]);
            let second = if !has_ascii && cells.len() > 1 {
                backtick_word(cells[1])
            } else {
                None
            };
            match second {
                Some(w) => Some(w),
                None => if has_ascii {
                    Some(first)
                } else {
                    None
                },
            }
        },
    }
}

fn backtick_name_exec(cell: &str) -> (r: Option<String>)
    ensures
        match r {
            Some(s) => backtick_name(cell@) == Some(s@),
            None => backtick_name(cell@) is None,
        },
{
    let (p1, p2) = match tick_parts_exec(cell) {
        Some(p) => p,
        None => return None,
    };
    let bt = trim_str(p1);
    if bt.unicode_len() == 0 || bt.get_char(0) == '[' {
        return None;
    }
    let after = trim_str(p2);
    let k = run_len(after, false);
    let head = after.substring_char(0, k);
    assert(head@ =~= after@.take(k as int));
    let q = trim_str(head);
    if q.unicode_len() == 0 {
        Some(to_string(bt))
    } else {
        let mut s = to_string(bt);
        push_char(&mut s, ' ');
        proof {
            reveal_strlit(" ");
            assert(s@ =~= bt@ + " "@ + q@.take(0));
        }
        let qn = q.unicode_len();
        let mut i: usize = 0;
        while i < qn
            invariant
                qn == q@.len(),
                i <= qn,
                s@ == bt@ + " "@ + q@.take(i as int),
            decreases qn - i,
        {
            push_char(&mut s, q.get_char(i));
            assert(q@.take(i + 1) =~= q@.take(i as int).push(q@[i as int]));
            i = i + 1;
        }
        assert(q@.take(i as int) =~= q@);
        Some(s)
    }
}

fn backtick_word_exec(cell: &str) -> (r: Option<String>)
    ensures
        match r {
            Some(s) => backtick_word(cell@) == Some(s@),
            None => backtick_word(cell@) is None,
        },
{
    let (p1, _) = match tick_parts_exec(cell) {
        Some(p) => p,
        None => return None,
    };
    let bt = trim_str(p1);
    if bt.unicode_len() == 0 || bt.get_char(0) == '[' {
        return None;
    }
    let k = run_len(bt, true);
    let head = bt.substring_char(0, k);
    assert(head@ =~= bt@.take(k as int));
    let w = trim_str(head);
    if w.unicode_len() == 0 {
        None
    } else {
        Some(to_string(w))
    }
}

/// The feature named by the cells of a table row (see [`feature_of`]).
pub fn extract_feature_name(cells: &[&str]) -> (r: Option<String>)
    requires
        cells@.len() >= 1,
    ensures
        match r {
            Some(s) => feature_of(cells_view(cells@)) == Some(s@),
            None => feature_of(cells_view(cells@)) is None,
        },
{
    let ghost cv = cells_view(cells@);
    let first_raw = drop_char_str(cells[0], '`');
    let first = trim_str(first_raw.as_str());
    let n = first.unicode_len();
    let mut i: usize = 0;
    let mut use_second = true;
    while i < n
        invariant
            n == first@.len(),
            i <= n,
            use_second == forall|j: int| 0 <= j < i ==> hexish(#[trigger] first@[j]),
        decreases n - i,
    {
        let c = first.get_char(i);
        if !(('0' <= c && c <= '9') || c == 'x' || ('a' <= c && c <= 'f')) {
            use_second = false;
        }
        i = i + 1;
    }
    let cell = if use_second && cells.len() > 1 {
        cells[1]
    } else {
        cells[0]
    };
    assert(cv[0] == cells@[0]@);
    if cells.len() > 1 {
        assert(cv[1] == cells@[1]@);
    }
    match backtick_name_exec(cell) {
        Some(name) => return Some(name),
        None => {},
    }
    let mut j: usize = 0;
    let mut has_ascii = false;
    while j < n
        invariant
            n == first@.len(),
            j <= n,
            has_ascii == exists|k: int| 0 <= k < j && ascii_alpha(#[trigger] first@[k]),
        decreases n - j,
    {
        let c = first.get_char(j);
        if ('a' <= c && c <= 'z') || ('A' <= c && c <= 'Z') {
            has_ascii = true;
        }
        j = j + 1;
    }
    if !has_ascii && cells.len() > 1 {
        match backtick_word_exec(cells[1]) {
            Some(w) => return Some(w),
            None => {},
        }
    }
    if has_ascii {
        Some(to_string(first))
    } else {
        None
    }
}

/// The words of the first column that mark a header row.
pub open spec fn header_words() -> Seq<Seq<char>> {
    seq![
        "指令"@,
        "命令"@,
        "类型码"@,
        "条件属性"@,
        "标志"@,
        "事件码"@,
        "修饰键"@,
        "名称"@,
        "行为"@,
        "类型"@,
        "---"@,
        "描述"@,
    ]
}

/// A feature name that is a header: its lower case holds a header word.
pub open spec fn is_header(name: Seq<char>) -> bool {
    exists|i: int| 0 <= i < header_words().len() && contains_seq(lowercase(name), #[trigger] header_words()[i])
}

/// Whether a feature name is the header of a table (see [`is_header`]).
pub fn is_table_header(name: &str) -> (b: bool)
    ensures
        b == is_header(name@),
{
    let lower = to_lowercase(name);
    let l = lower.as_str();
    let ghost hs = header_words();
    let found = contains_str(l, "指令") || contains_str(l, "命令") || contains_str(l, "类型码")
        || contains_str(l, "条件属性") || contains_str(l, "标志") || contains_str(l, "事件码")
        || contains_str(l, "修饰键") || contains_str(l, "名称") || contains_str(l, "行为")
        || contains_str(l, "类型") || contains_str(l, "---") || contains_str(l, "描述");
    proof {
        if found {
            if contains_seq(l@, "指令"@) { assert(hs[0] == "指令"@); }
            if contains_seq(l@, "命令"@) { assert(hs[1] == "命令"@); }
            if contains_seq(l@, "类型码"@) { assert(hs[2] == "类型码"@); }
            if contains_seq(l@, "条件属性"@) { assert(hs[3] == "条件属性"@); }
            if contains_seq(l@, "标志"@) { assert(hs[4] == "标志"@); }
            if contains_seq(l@, "事件码"@) { assert(hs[5] == "事件码"@); }
            if contains_seq(l@, "修饰键"@) { assert(hs[6] == "修饰键"@); }
            if contains_seq(l@, "名称"@) { assert(hs[7] == "名称"@); }
            if contains_seq(l@, "行为"@) { assert(hs[8] == "行为"@); }
            if contains_seq(l@, "类型"@) { assert(hs[9] == "类型"@); }
            if contains_seq(l@, "---"@) { assert(hs[10] == "---"@); }
            if contains_seq(l@, "描述"@) { assert(hs[11] == "描述"@); }
        } else {
            assert forall|i: int| 0 <= i < hs.len() implies !contains_seq(l@, #[trigger] hs[i]) by {
                if i == 0 { assert(hs[0] == "指令"@); }
                if i == 1 { assert(hs[1] == "命令"@); }
                if i == 2 { assert(hs[2] == "类型码"@); }
                if i == 3 { assert(hs[3] == "条件属性"@); }
                if i == 4 { assert(hs[4] == "标志"@); }
                if i == 5 { assert(hs[5] == "事件码"@); }
                if i == 6 { assert(hs[6] == "修饰键"@); }
                if i == 7 { assert(hs[7] == "名称"@); }
                if i == 8 { assert(hs[8] == "行为"@); }
                if i == 9 { assert(hs[9] == "类型"@); }
                if i == 10 { assert(hs[10] == "---"@); }
                if i == 11 { assert(hs[11] == "描述"@); }
            }
        }
    }
    found
}

// ── Matching checks to rows ─────────────────────────────────────

/// A key: not empty, made of ASCII letters, digits and `_`.
pub open spec fn is_key(k: Seq<char>) -> bool {
    k.len() > 0 && forall|i: int| 0 <= i < k.len() ==> is_key_char(#[trigger] k[i])
}

pub open spec fn all_key_chars(w: Seq<char>) -> bool {
    forall|i: int| 0 <= i < w.len() ==> is_key_char(#[trigger] w[i])
}

/// The words of `ws` with at least three characters, in order.
pub open spec fn long_words(ws: Seq<Seq<char>>) -> Seq<Seq<char>>
    decreases ws.len(),
{
    if ws.len() == 0 {
        Seq::empty()
    } else if ws[0].len() >= 3 {
        seq![ws[0]] + long_words(ws.drop_first())
    } else {
        long_words(ws.drop_first())
    }
}

/// The significant words of a key: its `_`-separated parts of three or more
/// characters.
pub open spec fn key_words(key: Seq<char>) -> Seq<Seq<char>> {
    long_words(pieces(key, '_'))
}

proof fn lemma_pieces_key(s: Seq<char>, c: char)
    requires
        all_key_chars(s),
    ensures
        forall|k: int| 0 <= k < pieces(s, c).len() ==> all_key_chars(#[trigger] pieces(s, c)[k]),
    decreases s.len(),
{
    let k = first_where(s, char_pred(c));
    if k < s.len() {
        let rest = s.skip(k + 1int);
        assert forall|i: int| 0 <= i < rest.len() implies is_key_char(#[trigger] rest[i]) by {
            assert(rest[i] == s[i + k + 1]);
        }
        lemma_pieces_key(rest, c);
        let ps = pieces(s, c);
        assert forall|j: int| 0 <= j < ps.len() implies all_key_chars(#[trigger] ps[j]) by {
            if j == 0 {
                assert(ps[0] == s.take(k as int));
            } else {
                assert(ps[j] == pieces(rest, c)[j - 1]);
            }
        }
    }
}

proof fn lemma_long_words_key(ws: Seq<Seq<char>>)
    requires
        forall|k: int| 0 <= k < ws.len() ==> all_key_chars(#[trigger] ws[k]),
    ensures
        forall|k: int|
            0 <= k < long_words(ws).len() ==> all_key_chars(#[trigger] long_words(ws)[k])
                && long_words(ws)[k].len() >= 3,
    decreases ws.len(),
{
    if ws.len() > 0 {
        let r = ws.drop_first();
        assert forall|k: int| 0 <= k < r.len() implies all_key_chars(#[trigger] r[k]) by {
            assert(r[k] == ws[k + 1]);
        }
        lemma_long_words_key(r);
        if ws[0].len() >= 3 {
            let l = long_words(ws);
            assert forall|k: int| 0 <= k < l.len() implies all_key_chars(#[trigger] l[k]) && l[k].len() >= 3 by {
                if k > 0 {
                    assert(l[k] == long_words(r)[k - 1]);
                }
            }
        }
    }
}

/// The significant words of a key (see [`key_words`]).
fn key_words_exec(key: &str) -> (r: Vec<String>)
    ensures
        strings_view(r@) == key_words(key@),
{
    let chars = chars_of(key);
    let n = chars.len();
    let mut out: Vec<String> = Vec::new();
    let mut pos: usize = 0;
    assert(chars@.skip(0) =~= chars@);
    loop
        invariant
            n == chars@.len(),
            chars@ == key@,
            pos <= n,
            key_words(key@) == strings_view(out@) + long_words(pieces(chars@.skip(pos as int), '_')),
        decreases n - pos,
    {
        let ghost rem = chars@.skip(pos as int);
        let ghost before = out@;
        let e = next_sep(&chars, pos, '_');
        let piece = string_of(&chars, pos, e);
        assert(piece@ =~= rem.take((e - pos) as int));
        let keep = e - pos >= 3;
        if keep {
            out.push(piece);
        }
        proof {
            assert(strings_view(out@) =~= if keep {
                strings_view(before).push(piece@)
            } else {
                strings_view(before)
            });
        }
        if e == n {
            proof {
                assert(rem.take((e - pos) as int) =~= rem);
                assert(pieces(rem, '_') =~= seq![rem]);
                assert(seq![rem].drop_first() =~= Seq::<Seq<char>>::empty());
                assert(piece@ == rem);
                assert(rem.len() == e - pos);
                assert(long_words(Seq::<Seq<char>>::empty()) == Seq::<Seq<char>>::empty());
                assert(seq![rem] + Seq::<Seq<char>>::empty() =~= seq![rem]);
                assert(long_words(seq![rem]) =~= if keep { seq![rem] } else { Seq::empty() });
                assert(strings_view(out@) =~= strings_view(before) + long_words(pieces(rem, '_')));
            }
            return out;
        }
        proof {
            let t = rem.skip((e - pos) + 1int);
            assert(chars@.skip(e + 1) =~= t);
            let ps = pieces(rem, '_');
            assert(ps == seq![piece@] + pieces(t, '_'));
            assert(ps.drop_first() =~= pieces(t, '_'));
            assert(ps[0] == piece@);
            assert(strings_view(before) + long_words(ps) =~= strings_view(out@) + long_words(
                pieces(t, '_'),
            ));
        }
        pos = e + 1;
    }
}

/// `s` with spaces and `-` turned into `_`.
pub open spec fn spaced(s: Seq<char>) -> Seq<char> {
    s.map_values(|c: char| if c == ' ' || c == '-' { '_' } else { c })
}

fn spaced_str(s: &str) -> (r: String)
    ensures
        r@ == spaced(s@),
{
    let n = s.unicode_len();
    let mut r = String::new();
    let mut i: usize = 0;
    while i < n
        invariant
            n == s@.len(),
            i <= n,
            r@ == spaced(s@.take(i as int)),
        decreases n - i,
    {
        let c = s.get_char(i);
        push_char(&mut r, if c == ' ' || c == '-' { '_' } else { c });
        assert(spaced(s@.take(i + 1)) =~= spaced(s@.take(i as int)).push(
            if c == ' ' || c == '-' { '_' } else { c },
        ));
        i = i + 1;
    }
    assert(s@.take(i as int) =~= s@);
    r
}

/// Whether a check (by its name and feature) matches a row key: the key is a
/// word of the lower-case name or of the lower-case feature (spaces and `-`
/// as `_`), or the key has two or more significant words and each is a word
/// of the name.
pub open spec fn matches_key(name: Seq<char>, feature: Seq<char>, key: Seq<char>) -> bool {
    let n = lowercase(name);
    let f = spaced(lowercase(feature));
    let ws = key_words(key);
    has_word(n, key) || has_word(f, key) || (ws.len() > 1 && forall|i: int|
        0 <= i < ws.len() ==> has_word(n, #[trigger] ws[i]))
}

/// Whether check `test` matches the row key `spec_key` (see [`matches_key`]).
pub fn test_matches_spec(test: &TestDetail, spec_key: &str) -> (b: bool)
    requires
        is_key(spec_key@),
    ensures
        b == matches_key(test.name@, test.sway_feature@, spec_key@),
{
    let name = to_lowercase(test.name.as_str());
    let feat = to_lowercase(test.sway_feature.as_str());
    let feature = spaced_str(feat.as_str());
    assert(spec_key@[0] == spec_key@[0]);
    assert(is_key_char(spec_key@[0]));
    if contains_word(name.as_str(), spec_key) || contains_word(feature.as_str(), spec_key) {
        return true;
    }
    let words = key_words_exec(spec_key);
    let ghost ws = key_words(spec_key@);
    proof {
        lemma_pieces_key(spec_key@, '_');
        lemma_long_words_key(pieces(spec_key@, '_'));
    }
    assert(ws.len() == words@.len());
    if words.len() <= 1 {
        return false;
    }
    let mut i: usize = 0;
    while i < words.len()
        invariant
            strings_view(words@) == ws,
            ws == key_words(spec_key@),
            forall|k: int| 0 <= k < ws.len() ==> all_key_chars(#[trigger] ws[k]) && ws[k].len() >= 3,
            i <= words@.len(),
            words@.len() > 1,
            name@ == lowercase(test.name@),
            feature@ == spaced(lowercase(test.sway_feature@)),
            !has_word(name@, spec_key@),
            !has_word(feature@, spec_key@),
            forall|k: int| 0 <= k < i ==> has_word(name@, #[trigger] ws[k]),
        decreases words@.len() - i,
    {
        assert(words@[i as int]@ == ws[i as int]);
        assert(all_key_chars(ws[i as int]));
        assert(is_key_char(ws[i as int][0]));
        if !contains_word(name.as_str(), words[i].as_str()) {
            return false;
        }
        i = i + 1;
    }
    true
}

// ── Table rows ──────────────────────────────────────────────────

/// The non-empty trimmed cells among `ps`.
pub open spec fn trimmed_cells(ps: Seq<Seq<char>>) -> Seq<Seq<char>>
    decreases ps.len(),
{
    if ps.len() == 0 {
        Seq::empty()
    } else if trim(ps[0]).len() > 0 {
        seq![trim(ps[0])] + trimmed_cells(ps.drop_first())
    } else {
        trimmed_cells(ps.drop_first())
    }
}

/// The cells of a table row: its parts between `|`, trimmed, empty ones left
/// out.
pub open spec fn row_cells(line: Seq<char>) -> Seq<Seq<char>> {
    trimmed_cells(pieces(line, '|'))
}

fn row_cells_exec(line: &str) -> (r: Vec<&str>)
    ensures
        cells_view(r@) == row_cells(line@),
{
    let n = line.unicode_len();
    let mut out: Vec<&str> = Vec::new();
    let mut pos: usize = 0;
    assert(line@.skip(0) =~= line@);
    loop
        invariant
            n == line@.len(),
            pos <= n,
            row_cells(line@) == cells_view(out@) + trimmed_cells(pieces(line@.skip(pos as int), '|')),
        decreases n - pos,
    {
        let ghost rem = line@.skip(pos as int);
        let ghost before = out@;
        let tail = line.substring_char(pos, n);
        assert(tail@ =~= rem);
        let k = match crate::config::lex::find_char(tail, '|') {
            Some(k) => k,
            None => tail.unicode_len(),
        };
        let e = pos + k;
        let piece = line.substring_char(pos, e);
        assert(piece@ =~= rem.take(k as int));
        let cell = trim_str(piece);
        let keep = cell.unicode_len() > 0;
        if keep {
            out.push(cell);
        }
        proof {
            assert(cells_view(out@) =~= if keep {
                cells_view(before).push(cell@)
            } else {
                cells_view(before)
            });
        }
        if e == n {
            proof {
                assert(rem.take(k as int) =~= rem);
                assert(pieces(rem, '|') =~= seq![rem]);
                assert(seq![rem].drop_first() =~= Seq::<Seq<char>>::empty());
                assert(piece@ == rem);
                assert(trimmed_cells(Seq::<Seq<char>>::empty()) == Seq::<Seq<char>>::empty());
                assert(seq![cell@] + Seq::<Seq<char>>::empty() =~= seq![cell@]);
                assert(trimmed_cells(seq![rem]) =~= if keep { seq![cell@] } else { Seq::empty() });
                assert(cells_view(out@) =~= cells_view(before) + trimmed_cells(pieces(rem, '|')));
            }
            return out;
        }
        proof {
            let t = rem.skip(k + 1int);
            assert(line@.skip(e + 1) =~= t);
            let ps = pieces(rem, '|');
            assert(ps == seq![piece@] + pieces(t, '|'));
            assert(ps.drop_first() =~= pieces(t, '|'));
            assert(cells_view(before) + trimmed_cells(ps) =~= cells_view(out@) + trimmed_cells(
                pieces(t, '|'),
            ));
        }
        pos = e + 1;
    }
}

/// The status marker that a row holds, the first of `[IMPLEMENTED]`,
/// `[PARTIAL]`, `[MISSING]` found.
pub open spec fn status_in(line: Seq<char>) -> Option<SpecStatus> {
    if contains_seq(line, "[IMPLEMENTED]"@) {
        Some(SpecStatus::Implemented)
    } else if contains_seq(line, "[PARTIAL]"@) {
        Some(SpecStatus::Partial)
    } else if contains_seq(line, "[MISSING]"@) {
        Some(SpecStatus::Missing)
    } else {
        None
    }
}

/// The entry that line `number` of the feature table gives: a row (first
/// non-blank character `|`) with a status marker and two or more cells,
/// whose feature name is not empty, not a header, and has a non-empty key.
pub open spec fn entry_of(line: Seq<char>, number: usize) -> Option<EntryModel> {
    let t = trim_start(line);
    if !(t.len() > 0 && t[0] == '|') {
        None
    } else {
        match status_in(line) {
            None => None,
            Some(status) => {
                let cells = row_cells(line);
                if cells.len() < 2 {
                    None
                } else {
                    match feature_of(cells) {
                        Some(f) => if f.len() == 0 || is_header(f) || key_of(f).len() == 0 {
                            None
                        } else {
                            Some(
                                EntryModel {
                                    line_number: number,
                                    feature_name: f,
                                    normalized_key: key_of(f),
                                    status,
                                },
                            )
                        },
                        None => None,
                    }
                }
            },
        }
    }
}

/// The entries of lines `k..` of the table, line numbers counted from 1.
pub open spec fn entries_from(lines: Seq<Seq<char>>, k: int) -> Seq<EntryModel>
    decreases lines.len() - k,
{
    if k < 0 || k >= lines.len() {
        Seq::empty()
    } else {
        match entry_of(lines[k], (k + 1) as usize) {
            Some(e) => seq![e] + entries_from(lines, k + 1),
            None => entries_from(lines, k + 1),
        }
    }
}

pub open spec fn entries_view(v: Seq<SpecEntry>) -> Seq<EntryModel> {
    v.map_values(|e: SpecEntry| e@)
}

/// The entry of one line of the table (see [`entry_of`]).
fn spec_entry(line: &str, number: usize) -> (r: Option<SpecEntry>)
    ensures
        match r {
            Some(e) => entry_of(line@, number) == Some(e@),
            None => entry_of(line@, number) is None,
        },
{
    let t = trim_start_str(line);
    if t.unicode_len() == 0 || t.get_char(0) != '|' {
        return None;
    }
    let status = if contains_str(line, "[IMPLEMENTED]") {
        SpecStatus::Implemented
    } else if contains_str(line, "[PARTIAL]") {
        SpecStatus::Partial
    } else if contains_str(line, "[MISSING]") {
        SpecStatus::Missing
    } else {
        return None;
    };
    let cells = row_cells_exec(line);
    if cells.len() < 2 {
        return None;
    }
    let feature_name = match extract_feature_name(cells.as_slice()) {
        Some(f) => f,
        None => return None,
    };
    if feature_name.as_str().unicode_len() == 0 {
        return None;
    }
    if is_table_header(feature_name.as_str()) {
        return None;
    }
    let normalized_key = normalize_key(feature_name.as_str());
    if normalized_key.as_str().unicode_len() == 0 {
        return None;
    }
    Some(SpecEntry { line_number: number, feature_name, normalized_key, status })
}

/// The entries of the feature table in `content`, in line order.
pub fn parse_spec(content: &str) -> (r: Vec<SpecEntry>)
    ensures
        entries_view(r@) == entries_from(text_lines(content@), 0),
{
    let lines = split_lines(content);
    let ghost ls = text_lines(content@);
    let mut out: Vec<SpecEntry> = Vec::new();
    let mut k: usize = 0;
    while k < lines.len()
        invariant
            strings_view(lines@) == ls,
            k <= lines@.len(),
            entries_from(ls, 0) == entries_view(out@) + entries_from(ls, k as int),
        decreases lines@.len() - k,
    {
        let ghost before = out@;
        assert(lines@[k as int]@ == ls[k as int]);
        match spec_entry(lines[k].as_str(), k + 1) {
            Some(e) => {
                out.push(e);
                assert(entries_view(out@) =~= entries_view(before).push(e@));
                assert(entries_view(before) + entries_from(ls, k as int) =~= entries_view(out@)
                    + entries_from(ls, k + 1));
            },
            None => {},
        }
        k = k + 1;
    }
    assert(entries_view(out@) + entries_from(ls, k as int) =~= entries_view(out@));
    out
}

// ── Cross-reference ─────────────────────────────────────────────

pub open spec fn details_view(ts: Seq<&TestDetail>) -> Seq<DetailModel> {
    ts.map_values(|t: &TestDetail| t@)
}

pub open spec fn slice_entries(es: Seq<SpecEntry>) -> Seq<EntryModel> {
    es.map_values(|e: SpecEntry| e@)
}

/// The checks that match a row key, in order.
pub open spec fn matching_of(ts: Seq<DetailModel>, key: Seq<char>) -> Seq<DetailModel>
    decreases ts.len(),
{
    if ts.len() == 0 {
        Seq::empty()
    } else if matches_key(ts.last().name, ts.last().sway_feature, key) {
        matching_of(ts.drop_last(), key).push(ts.last())
    } else {
        matching_of(ts.drop_last(), key)
    }
}

/// The names of the checks, in order.
pub open spec fn names_of(ts: Seq<DetailModel>) -> Seq<Seq<char>> {
    ts.map_values(|t: DetailModel| t.name)
}

/// The names of the passing checks, in order.
pub open spec fn passing_names(ts: Seq<DetailModel>) -> Seq<Seq<char>>
    decreases ts.len(),
{
    if ts.len() == 0 {
        Seq::empty()
    } else if ts.last().status is Pass {
        passing_names(ts.drop_last()).push(ts.last().name)
    } else {
        passing_names(ts.drop_last())
    }
}

/// What a row and its matching checks say: nothing to report, a status to
/// update, or a disagreement.
pub enum Verdict {
    Consistent,
    Update(UpdateModel),
    Disagree(DisagreeModel),
}

/// The verdict on one row. Without matching checks a row is consistent. A
/// row marked implemented disagrees when all its checks are not implemented;
/// a missing one needs an update when one passes (listing the passing
/// ones); a partial one when all pass or are skipped (listing all).
pub open spec fn verdict(e: EntryModel, ts: Seq<DetailModel>) -> Verdict {
    let m = matching_of(ts, e.normalized_key);
    if m.len() == 0 {
        Verdict::Consistent
    } else {
        match e.status {
            SpecStatus::Implemented => if forall|i: int| 0 <= i < m.len() ==> #[trigger] m[i].status is NotImplemented {
                Verdict::Disagree(
                    DisagreeModel {
                        spec_feature: e.feature_name,
                        spec_line: e.line_number,
                        not_impl_tests: names_of(m),
                    },
                )
            } else {
                Verdict::Consistent
            },
            SpecStatus::Missing => if exists|i: int| 0 <= i < m.len() && #[trigger] m[i].status is Pass {
                Verdict::Update(
                    UpdateModel {
                        spec_feature: e.feature_name,
                        spec_line: e.line_number,
                        old_status: SpecStatus::Missing,
                        matching_tests: passing_names(m),
                    },
                )
            } else {
                Verdict::Consistent
            },
            SpecStatus::Partial => if forall|i: int|
                0 <= i < m.len() ==> (#[trigger] m[i].status is Pass || m[i].status is Skip) {
                Verdict::Update(
                    UpdateModel {
                        spec_feature: e.feature_name,
                        spec_line: e.line_number,
                        old_status: SpecStatus::Partial,
                        matching_tests: names_of(m),
                    },
                )
            } else {
                Verdict::Consistent
            },
        }
    }
}

/// The number of consistent rows, the updates and the disagreements, in row
/// order.
pub open spec fn xref(es: Seq<EntryModel>, ts: Seq<DetailModel>) -> (nat, Seq<UpdateModel>, Seq<DisagreeModel>)
    decreases es.len(),
{
    if es.len() == 0 {
        (0, Seq::empty(), Seq::empty())
    } else {
        let (c, u, d) = xref(es.drop_last(), ts);
        match verdict(es.last(), ts) {
            Verdict::Consistent => (c + 1, u, d),
            Verdict::Update(x) => (c, u.push(x), d),
            Verdict::Disagree(x) => (c, u, d.push(x)),
        }
    }
}

/// Check `t` matches some row.
pub open spec fn test_hit(es: Seq<EntryModel>, t: DetailModel) -> bool {
    exists|k: int| 0 <= k < es.len() && matches_key(t.name, t.sway_feature, #[trigger] es[k].normalized_key)
}

/// Some check called `n` matches some row.
pub open spec fn name_hit(es: Seq<EntryModel>, all: Seq<DetailModel>, n: Seq<char>) -> bool {
    exists|j: int| 0 <= j < all.len() && (#[trigger] all[j]).name == n && test_hit(es, all[j])
}

/// The names of the passing checks among `ts` whose name no matching check
/// has, in order.
pub open spec fn unmatched_of(es: Seq<EntryModel>, all: Seq<DetailModel>, ts: Seq<DetailModel>) -> Seq<Seq<char>>
    decreases ts.len(),
{
    if ts.len() == 0 {
        Seq::empty()
    } else if ts.last().status is Pass && !name_hit(es, all, ts.last().name) {
        unmatched_of(es, all, ts.drop_last()).push(ts.last().name)
    } else {
        unmatched_of(es, all, ts.drop_last())
    }
}

pub open spec fn updates_view(v: Seq<NeedsUpdateItem>) -> Seq<UpdateModel> {
    v.map_values(|x: NeedsUpdateItem| x@)
}

pub open spec fn disagrees_view(v: Seq<DisagreesItem>) -> Seq<DisagreeModel> {
    v.map_values(|x: DisagreesItem| x@)
}

fn matching_tests<'a>(tests: &[&'a TestDetail], key: &str) -> (r: Vec<&'a TestDetail>)
    requires
        is_key(key@),
    ensures
        details_view(r@) == matching_of(details_view(tests@), key@),
{
    let ghost ts = details_view(tests@);
    let mut out: Vec<&'a TestDetail> = Vec::new();
    let mut j: usize = 0;
    while j < tests.len()
        invariant
            ts == details_view(tests@),
            is_key(key@),
            j <= tests@.len(),
            details_view(out@) == matching_of(ts.take(j as int), key@),
        decreases tests@.len() - j,
    {
        let t = tests[j];
        let ghost before = out@;
        assert(ts.take(j + 1).drop_last() =~= ts.take(j as int));
        assert(ts.take(j + 1).last() == t@);
        if test_matches_spec(t, key) {
            out.push(t);
            assert(details_view(out@) =~= details_view(before).push(t@));
        }
        j = j + 1;
    }
    assert(ts.take(j as int) =~= ts);
    out
}

/// The names of `m` (only the passing ones when `only_pass`).
fn names(m: &Vec<&TestDetail>, only_pass: bool) -> (r: Vec<String>)
    ensures
        strings_view(r@) == if only_pass {
            passing_names(details_view(m@))
        } else {
            names_of(details_view(m@))
        },
{
    let ghost ms = details_view(m@);
    let mut out: Vec<String> = Vec::new();
    let mut j: usize = 0;
    while j < m.len()
        invariant
            ms == details_view(m@),
            j <= m@.len(),
            strings_view(out@) == if only_pass {
                passing_names(ms.take(j as int))
            } else {
                names_of(ms.take(j as int))
            },
        decreases m@.len() - j,
    {
        let t = m[j];
        let ghost before = out@;
        assert(ms.take(j + 1).drop_last() =~= ms.take(j as int));
        assert(ms.take(j + 1).last() == t@);
        assert(names_of(ms.take(j + 1)) =~= names_of(ms.take(j as int)).push(t@.name));
        if !only_pass || t.status.is_pass() {
            out.push(t.name.clone());
            assert(strings_view(out@) =~= strings_view(before).push(t@.name));
        }
        j = j + 1;
    }
    assert(ms.take(j as int) =~= ms);
    out
}

fn flags_of(st: &TestStatus) -> (r: (bool, bool, bool))
    ensures
        r.0 == (st@ is Pass),
        r.1 == (st@ is Pass || st@ is Skip),
        r.2 == (st@ is NotImplemented),
{
    match st {
        TestStatus::Pass => (true, true, false),
        TestStatus::Skip(_) => (false, true, false),
        TestStatus::NotImplemented => (false, false, true),
        TestStatus::Fail(_) => (false, false, false),
    }
}

/// Whether some check of `m` passes, whether all pass or are skipped, and
/// whether all are not implemented.
fn status_flags(m: &Vec<&TestDetail>) -> (r: (bool, bool, bool))
    ensures
        r.0 == exists|i: int| 0 <= i < m@.len() && #[trigger] m@[i]@.status is Pass,
        r.1 == forall|i: int| 0 <= i < m@.len() ==> (#[trigger] m@[i]@.status is Pass || m@[i]@.status is Skip),
        r.2 == forall|i: int| 0 <= i < m@.len() ==> #[trigger] m@[i]@.status is NotImplemented,
{
    let mut any_pass = false;
    let mut all_ok = true;
    let mut all_ni = true;
    let mut j: usize = 0;
    while j < m.len()
        invariant
            j <= m@.len(),
            any_pass == exists|i: int| 0 <= i < j && #[trigger] m@[i]@.status is Pass,
            all_ok == forall|i: int| 0 <= i < j ==> (#[trigger] m@[i]@.status is Pass || m@[i]@.status is Skip),
            all_ni == forall|i: int| 0 <= i < j ==> #[trigger] m@[i]@.status is NotImplemented,
        decreases m@.len() - j,
    {
        let (p, k, n) = flags_of(&m[j].status);
        assert(m@[j as int]@.status == m@[j as int].status@);
        proof {
            if p {
                assert(m@[j as int]@.status is Pass);
            }
            if !any_pass && !p {
                assert forall|i: int| 0 <= i < j + 1 implies !(#[trigger] m@[i]@.status is Pass) by {}
            }
            if all_ni && n {
                assert forall|i: int| 0 <= i < j + 1 implies #[trigger] m@[i]@.status is NotImplemented by {}
            }
            if !n {
                assert(!(m@[j as int]@.status is NotImplemented));
            }
        }
        any_pass = any_pass || p;
        all_ok = all_ok && k;
        all_ni = all_ni && n;
        j = j + 1;
    }
    (any_pass, all_ok, all_ni)
}

/// Which checks match some row.
fn hits(spec: &[SpecEntry], tests: &[&TestDetail]) -> (r: Vec<bool>)
    requires
        forall|k: int| 0 <= k < spec@.len() ==> is_key(#[trigger] spec@[k].normalized_key@),
    ensures
        r@.len() == tests@.len(),
        forall|j: int| 0 <= j < tests@.len() ==> #[trigger] r@[j] == test_hit(slice_entries(spec@), tests@[j]@),
{
    let ghost es = slice_entries(spec@);
    let mut out: Vec<bool> = Vec::new();
    let mut j: usize = 0;
    while j < tests.len()
        invariant
            es == slice_entries(spec@),
            forall|k: int| 0 <= k < spec@.len() ==> is_key(#[trigger] spec@[k].normalized_key@),
            j <= tests@.len(),
            out@.len() == j,
            forall|i: int| 0 <= i < j ==> #[trigger] out@[i] == test_hit(es, tests@[i]@),
        decreases tests@.len() - j,
    {
        let t = tests[j];
        let mut hit = false;
        let mut k: usize = 0;
        while k < spec.len()
            invariant
                es == slice_entries(spec@),
                forall|kk: int| 0 <= kk < spec@.len() ==> is_key(#[trigger] spec@[kk].normalized_key@),
                k <= spec@.len(),
                hit == exists|kk: int| 0 <= kk < k && matches_key(t@.name, t@.sway_feature, #[trigger] es[kk].normalized_key),
            decreases spec@.len() - k,
        {
            assert(es[k as int] == spec@[k as int]@);
            let b = test_matches_spec(t, spec[k].normalized_key.as_str());
            assert(b == matches_key(t@.name, t@.sway_feature, es[k as int].normalized_key));
            if b {
                hit = true;
            }
            proof {
                if !hit {
                    assert forall|kk: int| 0 <= kk < k + 1 implies !matches_key(t@.name, t@.sway_feature, #[trigger] es[kk].normalized_key) by {}
                }
            }
            k = k + 1;
        }
        out.push(hit);
        j = j + 1;
    }
    out
}

/// Matches the rows of the feature table against the check results: the
/// number of consistent rows, the rows to update, the rows that disagree,
/// and the passing checks that match no row (see [`xref`], [`unmatched_of`]).
pub fn cross_reference(spec: &[SpecEntry], tests: &[&TestDetail]) -> (r: (
    usize,
    Vec<NeedsUpdateItem>,
    Vec<DisagreesItem>,
    Vec<String>,
))
    requires
        forall|k: int| 0 <= k < spec@.len() ==> is_key(#[trigger] spec@[k].normalized_key@),
    ensures
        ({
            let (c, u, d) = xref(slice_entries(spec@), details_view(tests@));
            &&& r.0 == c
            &&& updates_view(r.1@) == u
            &&& disagrees_view(r.2@) == d
            &&& strings_view(r.3@) == unmatched_of(
                slice_entries(spec@),
                details_view(tests@),
                details_view(tests@),
            )
        }),
{
    let ghost es = slice_entries(spec@);
    let ghost ts = details_view(tests@);
    let mut consistent: usize = 0;
    let mut needs: Vec<NeedsUpdateItem> = Vec::new();
    let mut dis: Vec<DisagreesItem> = Vec::new();
    let mut k: usize = 0;
    while k < spec.len()
        invariant
            es == slice_entries(spec@),
            ts == details_view(tests@),
            forall|kk: int| 0 <= kk < spec@.len() ==> is_key(#[trigger] spec@[kk].normalized_key@),
            k <= spec@.len(),
            consistent <= k,
            xref(es.take(k as int), ts) == (consistent as nat, updates_view(needs@), disagrees_view(dis@)),
        decreases spec@.len() - k,
    {
        let e = &spec[k];
        let ghost before_u = needs@;
        let ghost before_d = dis@;
        assert(es.take(k + 1).drop_last() =~= es.take(k as int));
        assert(es.take(k + 1).last() == e@);
        assert(is_key(e.normalized_key@));
        let m = matching_tests(tests, e.normalized_key.as_str());
        let ghost mm = matching_of(ts, e@.normalized_key);
        assert(details_view(m@) == mm);
        assert(mm.len() == m@.len());
        if m.len() == 0 {
            consistent = consistent + 1;
        } else {
            let (any_pass, all_ok, all_ni) = status_flags(&m);
            proof {
                assert forall|i: int| 0 <= i < m@.len() implies #[trigger] mm[i] == m@[i]@ by {}
                if any_pass {
                    let w = choose|i: int| 0 <= i < m@.len() && #[trigger] m@[i]@.status is Pass;
                    assert(mm[w].status is Pass);
                } else {
                    assert forall|i: int| 0 <= i < mm.len() implies !(#[trigger] mm[i].status is Pass) by {
                        assert(mm[i] == m@[i]@);
                    }
                }
                if all_ok {
                    assert forall|i: int| 0 <= i < mm.len() implies (#[trigger] mm[i].status is Pass || mm[i].status is Skip) by {
                        assert(mm[i] == m@[i]@);
                    }
                } else {
                    let w = choose|i: int| 0 <= i < m@.len() && !(#[trigger] m@[i]@.status is Pass || m@[i]@.status is Skip);
                    assert(mm[w] == m@[w]@);
                }
                if all_ni {
                    assert forall|i: int| 0 <= i < mm.len() implies #[trigger] mm[i].status is NotImplemented by {
                        assert(mm[i] == m@[i]@);
                    }
                } else {
                    let w = choose|i: int| 0 <= i < m@.len() && !(#[trigger] m@[i]@.status is NotImplemented);
                    assert(mm[w] == m@[w]@);
                }
            }
            match e.status {
                SpecStatus::Implemented => {
                    if all_ni {
                        let item = DisagreesItem {
                            spec_feature: e.feature_name.clone(),
                            spec_line: e.line_number,
                            not_impl_tests: names(&m, false),
                        };
                        dis.push(item);
                        assert(disagrees_view(dis@) =~= disagrees_view(before_d).push(item@));
                    } else {
                        consistent = consistent + 1;
                    }
                },
                SpecStatus::Missing => {
                    if any_pass {
                        let item = NeedsUpdateItem {
                            spec_feature: e.feature_name.clone(),
                            spec_line: e.line_number,
                            old_status: SpecStatus::Missing,
                            matching_tests: names(&m, true),
                        };
                        needs.push(item);
                        assert(updates_view(needs@) =~= updates_view(before_u).push(item@));
                    } else {
                        consistent = consistent + 1;
                    }
                },
                SpecStatus::Partial => {
                    if all_ok {
                        let item = NeedsUpdateItem {
                            spec_feature: e.feature_name.clone(),
                            spec_line: e.line_number,
                            old_status: SpecStatus::Partial,
                            matching_tests: names(&m, false),
                        };
                        needs.push(item);
                        assert(updates_view(needs@) =~= updates_view(before_u).push(item@));
                    } else {
                        consistent = consistent + 1;
                    }
                },
            }
        }
        k = k + 1;
    }
    assert(es.take(k as int) =~= es);
    let hit = hits(spec, tests);
    let mut unmatched: Vec<String> = Vec::new();
    let mut i: usize = 0;
    while i < tests.len()
        invariant
            es == slice_entries(spec@),
            ts == details_view(tests@),
            hit@.len() == tests@.len(),
            forall|j: int| 0 <= j < tests@.len() ==> #[trigger] hit@[j] == test_hit(es, tests@[j]@),
            i <= tests@.len(),
            strings_view(unmatched@) == unmatched_of(es, ts, ts.take(i as int)),
        decreases tests@.len() - i,
    {
        let t = tests[i];
        let ghost before = unmatched@;
        assert(ts.take(i + 1).drop_last() =~= ts.take(i as int));
        assert(ts.take(i + 1).last() == t@);
        if t.status.is_pass() {
            let mut found = false;
            let mut j: usize = 0;
            while j < tests.len()
                invariant
                    es == slice_entries(spec@),
                    ts == details_view(tests@),
                    hit@.len() == tests@.len(),
                    forall|jj: int| 0 <= jj < tests@.len() ==> #[trigger] hit@[jj] == test_hit(es, tests@[jj]@),
                    j <= tests@.len(),
                    found == exists|jj: int| 0 <= jj < j && (#[trigger] ts[jj]).name == t@.name && test_hit(es, ts[jj]),
                decreases tests@.len() - j,
            {
                assert(ts[j as int] == tests@[j as int]@);
                if hit[j] && str_eq(tests[j].name.as_str(), t.name.as_str()) {
                    found = true;
                }
                j = j + 1;
            }
            if !found {
                unmatched.push(t.name.clone());
                assert(strings_view(unmatched@) =~= strings_view(before).push(t@.name));
            }
        }
        i = i + 1;
    }
    assert(ts.take(i as int) =~= ts);
    (consistent, needs, dis, unmatched)
}

// ── Lines of tool output ────────────────────────────────────────

pub open spec fn not_digit() -> spec_fn(char) -> bool {
    |c: char| !is_digit(c)
}

pub open spec fn not_ident() -> spec_fn(char) -> bool {
    |c: char| !(ascii_alnum(c) || c == '_')
}

fn digit_run_len(s: &str) -> (k: usize)
    ensures
        k == first_where(s@, not_digit()),
        k <= s@.len(),
{
    let n = s.unicode_len();
    let mut i: usize = 0;
    while i < n && '0' <= s.get_char(i) && s.get_char(i) <= '9'
        invariant
            n == s@.len(),
            i <= n,
            forall|j: int| 0 <= j < i ==> !not_digit()(#[trigger] s@[j]),
        decreases n - i,
    {
        i = i + 1;
    }
    proof {
        lemma_first_where_at(s@, not_digit(), i as int);
    }
    i
}

fn ident_run_len(s: &str) -> (k: usize)
    ensures
        k == first_where(s@, not_ident()),
        k <= s@.len(),
{
    let n = s.unicode_len();
    let mut i: usize = 0;
    while i < n && (ascii_alnum_exec(s.get_char(i)) || s.get_char(i) == '_')
        invariant
            n == s@.len(),
            i <= n,
            forall|j: int| 0 <= j < i ==> !not_ident()(#[trigger] s@[j]),
        decreases n - i,
    {
        i = i + 1;
    }
    proof {
        lemma_first_where_at(s@, not_ident(), i as int);
    }
    i
}

/// The crate and count of a clippy summary line
/// (``warning: `name` (lib) generated N warnings``): the name between the
/// backticks after the prefix, and the digits after the first `generated `.
pub open spec fn clippy_count(line: Seq<char>) -> Option<(Seq<char>, usize)> {
    let p = "warning: `"@;
    if !has_prefix(line, p) {
        None
    } else {
        let rest = line.skip(p.len() as int);
        let end = first_where(rest, char_pred('`'));
        if end >= rest.len() {
            None
        } else {
            match first_occ(line, "generated "@, 0) {
                None => None,
                Some(g) => {
                    let after = line.skip(g + "generated "@.len());
                    let digits = after.take(first_where(after, not_digit()) as int);
                    match spec_parse_usize(digits) {
                        Some(c) => Some((rest.take(end as int), c)),
                        None => None,
                    }
                },
            }
        }
    }
}

/// The crate and warning count of a clippy summary line (see [`clippy_count`]).
pub fn parse_clippy_summary_line(line: &str) -> (r: Option<(String, usize)>)
    ensures
        match r {
            Some((name, count)) => clippy_count(line@) == Some((name@, count)),
            None => clippy_count(line@) is None,
        },
{
    let n = line.unicode_len();
    let prefix = "warning: `";
    if !starts_with_str(line, prefix) {
        return None;
    }
    let plen = prefix.unicode_len();
    let rest = line.substring_char(plen, n);
    assert(rest@ =~= line@.skip(prefix@.len() as int));
    let end = match crate::config::lex::find_char(rest, '`') {
        Some(e) => e,
        None => return None,
    };
    let name = to_string(rest.substring_char(0, end));
    let gen = "generated ";
    let g = match find_str(line, gen) {
        Some(g) => g,
        None => return None,
    };
    let after = line.substring_char(g + gen.unicode_len(), n);
    let k = digit_run_len(after);
    let digits = after.substring_char(0, k);
    assert(digits@ =~= after@.take(k as int));
    let count = match parse_usize(digits) {
        Some(c) => c,
        None => return None,
    };
    assert(name@ =~= rest@.take(end as int));
    Some((name, count))
}

/// The warning kind of a line holding `#[warn(kind)]`.
pub open spec fn warn_kind(line: Seq<char>) -> Option<Seq<char>> {
    match first_occ(line, "#[warn("@, 0) {
        None => None,
        Some(st) => {
            let rest = line.skip(st + "#[warn("@.len());
            match first_occ(rest, ")]"@, 0) {
                None => None,
                Some(e) => Some(rest.take(e)),
            }
        },
    }
}

/// The warning kind of a clippy note line (see [`warn_kind`]).
pub fn extract_warn_type(line: &str) -> (r: Option<String>)
    ensures
        match r {
            Some(k) => warn_kind(line@) == Some(k@),
            None => warn_kind(line@) is None,
        },
{
    let open = "#[warn(";
    let n = line.unicode_len();
    let ol = open.unicode_len();
    let st = match find_str(line, open) {
        Some(i) => i,
        None => return None,
    };
    let rest = line.substring_char(st + ol, n);
    let e = match find_str(rest, ")]") {
        Some(e) => e,
        None => return None,
    };
    let kind = rest.substring_char(0, e);
    assert(kind@ =~= rest@.take(e as int));
    Some(to_string(kind))
}

/// The item keywords that a public item line starts with.
pub open spec fn pub_keywords() -> Seq<Seq<char>> {
    seq!["pub fn "@, "pub struct "@, "pub enum "@, "pub trait "@, "pub type "@]
}

/// The identifier after the first `kw` of `line`, when there is one.
pub open spec fn name_after(line: Seq<char>, kw: Seq<char>) -> Option<Seq<char>> {
    match first_occ(line, kw, 0) {
        None => None,
        Some(pos) => {
            let rest = line.skip(pos + kw.len());
            let name = rest.take(first_where(rest, not_ident()) as int);
            if name.len() > 0 {
                Some(name)
            } else {
                None
            }
        },
    }
}

/// The name of a public item declared on `line`: that after the first
/// keyword (in the order of [`pub_keywords`]) followed by an identifier.
pub open spec fn pub_name_from(line: Seq<char>, k: int) -> Option<Seq<char>>
    decreases 5 - k,
{
    if k < 0 || k >= 5 {
        None
    } else {
        match name_after(line, pub_keywords()[k]) {
            Some(n) => Some(n),
            None => pub_name_from(line, k + 1),
        }
    }
}

fn name_after_exec(line: &str, kw: &str) -> (r: Option<String>)
    ensures
        match r {
            Some(n) => name_after(line@, kw@) == Some(n@),
            None => name_after(line@, kw@) is None,
        },
{
    let n = line.unicode_len();
    let kl = kw.unicode_len();
    let pos = match find_str(line, kw) {
        Some(p) => p,
        None => return None,
    };
    let rest = line.substring_char(pos + kl, n);
    let k = ident_run_len(rest);
    if k == 0 {
        return None;
    }
    let name = rest.substring_char(0, k);
    assert(name@ =~= rest@.take(k as int));
    Some(to_string(name))
}

/// The name of the public item declared on a line (see [`pub_name_from`]).
pub fn extract_pub_name(line: &str) -> (r: Option<String>)
    ensures
        match r {
            Some(n) => pub_name_from(line@, 0) == Some(n@),
            None => pub_name_from(line@, 0) is None,
        },
{
    let ghost kws = pub_keywords();
    assert(kws[0] == "pub fn "@ && kws[1] == "pub struct "@ && kws[2] == "pub enum "@ && kws[3]
        == "pub trait "@ && kws[4] == "pub type "@);
    assert(pub_name_from(line@, 5) is None);
    proof {
        reveal_with_fuel(pub_name_from, 6);
    }
    match name_after_exec(line, "pub fn ") {
        Some(n) => return Some(n),
        None => {},
    }
    match name_after_exec(line, "pub struct ") {
        Some(n) => return Some(n),
        None => {},
    }
    match name_after_exec(line, "pub enum ") {
        Some(n) => return Some(n),
        None => {},
    }
    match name_after_exec(line, "pub trait ") {
        Some(n) => return Some(n),
        None => {},
    }
    name_after_exec(line, "pub type ")
}

/// The first three parts of a grep line `file:line:content`, cut at the
/// first two `:` (`splitn(3, ':')`).
pub open spec fn grep_parts(line: Seq<char>) -> Option<(Seq<char>, Seq<char>, Seq<char>)> {
    let c1 = first_where(line, char_pred(':'));
    if c1 >= line.len() {
        None
    } else {
        let r1 = line.skip(c1 + 1int);
        let c2 = first_where(r1, char_pred(':'));
        if c2 >= r1.len() {
            None
        } else {
            Some((line.take(c1 as int), r1.take(c2 as int), r1.skip(c2 + 1int)))
        }
    }
}

fn grep_parts_exec(line: &str) -> (r: Option<(&str, &str, &str)>)
    ensures
        match r {
            Some((a, b, c)) => grep_parts(line@) == Some((a@, b@, c@)),
            None => grep_parts(line@) is None,
        },
{
    let n = line.unicode_len();
    let c1 = match crate::config::lex::find_char(line, ':') {
        Some(c) => c,
        None => return None,
    };
    let r1 = line.substring_char(c1 + 1, n);
    assert(r1@ =~= line@.skip(c1 + 1int));
    let c2 = match crate::config::lex::find_char(r1, ':') {
        Some(c) => c,
        None => return None,
    };
    let a = line.substring_char(0, c1);
    let b = r1.substring_char(0, c2);
    let c = r1.substring_char(c2 + 1, r1.unicode_len());
    assert(a@ =~= line@.take(c1 as int));
    assert(b@ =~= r1@.take(c2 as int));
    assert(c@ =~= r1@.skip(c2 + 1int));
    Some((a, b, c))
}

/// A path without a leading `./`.
pub open spec fn relative(p: Seq<char>) -> Seq<char> {
    if has_prefix(p, "./"@) {
        p.skip(2)
    } else {
        p
    }
}

fn relative_exec(p: &str) -> (r: &str)
    ensures
        r@ == relative(p@),
{
    if starts_with_str(p, "./") {
        proof {
            reveal_strlit("./");
        }
        p.substring_char(2, p.unicode_len())
    } else {
        p
    }
}

/// View of a [`TodoEntry`].
pub struct TodoModel {
    pub file: Seq<char>,
    pub line: usize,
    pub kind: Seq<char>,
    pub content: Seq<char>,
}

impl View for TodoEntry {
    type V = TodoModel;

    open spec fn view(&self) -> TodoModel {
        TodoModel { file: self.file@, line: self.line, kind: self.kind@, content: self.content@ }
    }
}

/// The kind of a marked line: `FIXME`, `HACK` or `XXX` when its content holds
/// that word (in this order of preference), else `TODO`.
pub open spec fn todo_kind(content: Seq<char>) -> Seq<char> {
    if contains_seq(content, "FIXME"@) {
        "FIXME"@
    } else if contains_seq(content, "HACK"@) {
        "HACK"@
    } else if contains_seq(content, "XXX"@) {
        "XXX"@
    } else {
        "TODO"@
    }
}

/// The marker that a grep line `file:line:content` reports: none for a path
/// under `/target/` or a line without two `:`; a line number that does not
/// read as one counts as 0.
pub open spec fn todo_of(line: Seq<char>) -> Option<TodoModel> {
    if contains_seq(line, "/target/"@) {
        None
    } else {
        match grep_parts(line) {
            None => None,
            Some((f, l, c)) => {
                let content = trim(c);
                Some(
                    TodoModel {
                        file: relative(f),
                        line: match spec_parse_usize(l) {
                            Some(v) => v,
                            None => 0,
                        },
                        kind: todo_kind(content),
                        content,
                    },
                )
            },
        }
    }
}

/// The marker that one grep line reports (see [`todo_of`]).
pub fn parse_todo_line(line: &str) -> (r: Option<TodoEntry>)
    ensures
        match r {
            Some(e) => todo_of(line@) == Some(e@),
            None => todo_of(line@) is None,
        },
{
    if contains_str(line, "/target/") {
        return None;
    }
    let (f, l, c) = match grep_parts_exec(line) {
        Some(p) => p,
        None => return None,
    };
    let file = relative_exec(f);
    let line_num = match parse_usize(l) {
        Some(v) => v,
        None => 0,
    };
    let content = trim_str(c);
    let kind = if contains_str(content, "FIXME") {
        to_string("FIXME")
    } else if contains_str(content, "HACK") {
        to_string("HACK")
    } else if contains_str(content, "XXX") {
        to_string("XXX")
    } else {
        to_string("TODO")
    };
    Some(TodoEntry { file: to_string(file), line: line_num, kind, content: to_string(content) })
}

/// The public item that a grep line `file:line:content` reports: its name
/// and file (without `./`).
pub open spec fn pub_item_of(line: Seq<char>) -> Option<(Seq<char>, Seq<char>)> {
    match grep_parts(line) {
        None => None,
        Some((f, _, c)) => match pub_name_from(trim(c), 0) {
            Some(n) => Some((n, relative(f))),
            None => None,
        },
    }
}

/// The public item that one grep line reports (see [`pub_item_of`]).
pub fn parse_pub_item_line(line: &str) -> (r: Option<(String, String)>)
    ensures
        match r {
            Some((n, f)) => pub_item_of(line@) == Some((n@, f@)),
            None => pub_item_of(line@) is None,
        },
{
    let (f, _, c) = match grep_parts_exec(line) {
        Some(p) => p,
        None => return None,
    };
    let file = relative_exec(f);
    match extract_pub_name(trim_str(c)) {
        Some(n) => Some((n, to_string(file))),
        None => None,
    }
}

/// Whether a public name is too common to look for (shorter than four
/// characters, or `new`, `default`, `from`, `into`).
pub open spec fn too_common(name: Seq<char>) -> bool {
    name.len() < 4 || name == "new"@ || name == "default"@ || name == "from"@ || name == "into"@
}

/// Whether the unused-item scan skips a name (see [`too_common`]).
pub fn skip_common_name(name: &str) -> (b: bool)
    ensures
        b == too_common(name@),
{
    name.unicode_len() < 4 || str_eq(name, "new") || str_eq(name, "default") || str_eq(name, "from")
        || str_eq(name, "into")
}

// ── Fixing the table ────────────────────────────────────────────

/// `s` with every occurrence of `pat` (left to right, not overlapping)
/// replaced by `rep` (`str::replace`).
pub open spec fn replace_all(s: Seq<char>, pat: Seq<char>, rep: Seq<char>) -> Seq<char>
    decreases s.len(),
{
    if pat.len() == 0 {
        s
    } else {
        match first_occ(s, pat, 0) {
            None => s,
            Some(i) => if 0 <= i && i + pat.len() <= s.len() {
                s.take(i) + rep + replace_all(s.skip(i + pat.len()), pat, rep)
            } else {
                s
            },
        }
    }
}

fn push_str(s: &mut String, t: &str)
    ensures
        final(s)@ == old(s)@ + t@,
{
    let n = t.unicode_len();
    let mut i: usize = 0;
    while i < n
        invariant
            n == t@.len(),
            i <= n,
            s@ == old(s)@ + t@.take(i as int),
        decreases n - i,
    {
        push_char(s, t.get_char(i));
        assert(t@.take(i + 1) =~= t@.take(i as int).push(t@[i as int]));
        i = i + 1;
    }
    assert(t@.take(i as int) =~= t@);
}

fn replace_str(s: &str, pat: &str, rep: &str) -> (r: String)
    requires
        pat@.len() > 0,
    ensures
        r@ == replace_all(s@, pat@, rep@),
{
    let mut out = String::new();
    let mut rest: &str = s;
    let pl = pat.unicode_len();
    loop
        invariant
            pl == pat@.len(),
            pl > 0,
            out@ + replace_all(rest@, pat@, rep@) == replace_all(s@, pat@, rep@),
        decreases rest@.len(),
    {
        let n = rest.unicode_len();
        match find_str(rest, pat) {
            None => {
                push_str(&mut out, rest);
                return out;
            },
            Some(i) => {
                let ghost before = out@;
                let ghost r0 = rest@;
                let head = rest.substring_char(0, i);
                push_str(&mut out, head);
                push_str(&mut out, rep);
                let tail = rest.substring_char(i + pl, n);
                proof {
                    assert(head@ =~= r0.take(i as int));
                    assert(tail@ =~= r0.skip(i + pl));
                    assert(replace_all(r0, pat@, rep@) == r0.take(i as int) + rep@ + replace_all(tail@, pat@, rep@));
                    assert(out@ + replace_all(tail@, pat@, rep@) =~= before + replace_all(r0, pat@, rep@));
                }
                rest = tail;
            },
        }
    }
}

/// Lines joined with `\n`.
pub open spec fn join_lines(ls: Seq<Seq<char>>) -> Seq<char>
    decreases ls.len(),
{
    if ls.len() == 0 {
        Seq::empty()
    } else if ls.len() == 1 {
        ls[0]
    } else {
        join_lines(ls.drop_last()) + seq!['\n'] + ls.last()
    }
}

/// The marker that an update replaces: `` `[MISSING]` `` or `` `[PARTIAL]` ``.
pub open spec fn old_marker(s: SpecStatus) -> Option<Seq<char>> {
    match s {
        SpecStatus::Missing => Some("`[MISSING]`"@),
        SpecStatus::Partial => Some("`[PARTIAL]`"@),
        SpecStatus::Implemented => None,
    }
}

/// The lines after the updates `us[..k]`, and the indices of the updates
/// that changed a line. An update applies to line `spec_line` (counted from
/// 1) when it exists and holds the old marker: each occurrence becomes
/// `` `[IMPLEMENTED]` ``.
pub open spec fn fixed_lines(ls: Seq<Seq<char>>, us: Seq<UpdateModel>, k: int) -> (Seq<Seq<char>>, Seq<usize>)
    decreases k,
{
    if k <= 0 {
        (ls, Seq::empty())
    } else {
        let (cur, done) = fixed_lines(ls, us, k - 1);
        let u = us[k - 1];
        let idx = u.spec_line as int - 1;
        if 0 <= idx < cur.len() {
            match old_marker(u.old_status) {
                Some(m) => if contains_seq(cur[idx], m) {
                    (cur.update(idx, replace_all(cur[idx], m, "`[IMPLEMENTED]`"@)), done.push((k - 1) as usize))
                } else {
                    (cur, done)
                },
                None => (cur, done),
            }
        } else {
            (cur, done)
        }
    }
}

/// The text of the table after the updates: the fixed lines joined with
/// `\n`, with a final `\n` when the text had one.
pub open spec fn fixed_text(content: Seq<char>, us: Seq<UpdateModel>) -> Seq<char> {
    let j = join_lines(fixed_lines(text_lines(content), us, us.len() as int).0);
    if content.len() > 0 && content.last() == '\n' {
        j + seq!['\n']
    } else {
        j
    }
}

/// The table text with the updates applied, and the indices of the updates
/// that changed a line (see [`fixed_lines`], [`fixed_text`]).
pub fn fix_spec_text(content: &str, updates: &[NeedsUpdateItem]) -> (r: (String, Vec<usize>))
    ensures
        r.0@ == fixed_text(content@, updates@.map_values(|u: NeedsUpdateItem| u@)),
        r.1@ == fixed_lines(
            text_lines(content@),
            updates@.map_values(|u: NeedsUpdateItem| u@),
            updates@.len() as int,
        ).1,
{
    let ghost us = updates@.map_values(|u: NeedsUpdateItem| u@);
    let ghost ls = text_lines(content@);
    let mut lines = split_lines(content);
    let mut done: Vec<usize> = Vec::new();
    let mut k: usize = 0;
    while k < updates.len()
        invariant
            us == updates@.map_values(|u: NeedsUpdateItem| u@),
            ls == text_lines(content@),
            k <= updates@.len(),
            (strings_view(lines@), done@) == fixed_lines(ls, us, k as int),
        decreases updates@.len() - k,
    {
        let u = &updates[k];
        assert(us[k as int] == u@);
        let ghost cur = strings_view(lines@);
        if u.spec_line >= 1 && u.spec_line - 1 < lines.len() {
            let idx = u.spec_line - 1;
            let marker: Option<&str> = match u.old_status {
                SpecStatus::Missing => Some("`[MISSING]`"),
                SpecStatus::Partial => Some("`[PARTIAL]`"),
                SpecStatus::Implemented => None,
            };
            match marker {
                Some(m) => {
                    if contains_str(lines[idx].as_str(), m) {
                        proof {
                            reveal_strlit("`[MISSING]`");
                            reveal_strlit("`[PARTIAL]`");
                        }
                        let fixed = replace_str(lines[idx].as_str(), m, "`[IMPLEMENTED]`");
                        lines.set(idx, fixed);
                        done.push(k);
                        assert(strings_view(lines@) =~= cur.update(idx as int, fixed@));
                    }
                },
                None => {},
            }
        }
        k = k + 1;
    }
    let ghost fl = strings_view(lines@);
    let mut out = String::new();
    let mut j: usize = 0;
    while j < lines.len()
        invariant
            fl == strings_view(lines@),
            j <= lines@.len(),
            out@ == join_lines(fl.take(j as int)),
        decreases lines@.len() - j,
    {
        let ghost before = out@;
        if j > 0 {
            push_char(&mut out, '\n');
        }
        push_str(&mut out, lines[j].as_str());
        proof {
            let t = fl.take(j + 1);
            assert(t.drop_last() =~= fl.take(j as int));
            assert(t.last() == lines@[j as int]@);
            if j == 0 {
                assert(out@ =~= t[0]);
            } else {
                assert(out@ =~= join_lines(t.drop_last()) + seq!['\n'] + t.last());
            }
        }
        j = j + 1;
    }
    assert(fl.take(j as int) =~= fl);
    let cn = content.unicode_len();
    if cn > 0 && content.get_char(cn - 1) == '\n' {
        push_char(&mut out, '\n');
    }
    (out, done)
}

// ── Laws ────────────────────────────────────────────────────────

/// Every row of the table is counted exactly once by the cross-reference:
/// as consistent, as needing an update, or as disagreeing.
pub proof fn lemma_xref_partition(es: Seq<EntryModel>, ts: Seq<DetailModel>)
    ensures
        ({
            let (c, u, d) = xref(es, ts);
            c + u.len() + d.len() == es.len()
        }),
    decreases es.len(),
{
    if es.len() > 0 {
        lemma_xref_partition(es.drop_last(), ts);
    }
}

proof fn lemma_key_chars_key(s: Seq<char>)
    ensures
        all_key_chars(key_chars(s)),
    decreases s.len(),
{
    if s.len() > 0 {
        lemma_key_chars_key(s.drop_last());
    }
}

proof fn lemma_end_run_bound(s: Seq<char>, x: char, a: int)
    requires
        0 <= a < s.len(),
        s[a] != x,
    ensures
        end_run(s, x) <= s.len() - 1 - a,
    decreases s.len(),
{
    if s.last() == x {
        assert(s.drop_last()[a] == s[a]);
        lemma_end_run_bound(s.drop_last(), x, a);
    }
}

/// The key of any feature name is made of key characters only.
pub proof fn lemma_key_of_chars(name: Seq<char>)
    ensures
        all_key_chars(key_of(name)),
{
    let k = key_chars(lowercase(name));
    lemma_key_chars_key(lowercase(name));
    let a = first_where(k, not_char('_'));
    lemma_first_where(k, not_char('_'));
    if a < k.len() {
        lemma_end_run_bound(k, '_', a as int);
        let t = key_of(name);
        assert forall|i: int| 0 <= i < t.len() implies is_key_char(#[trigger] t[i]) by {
            assert(t[i] == k[i + a]);
        }
    }
}

proof fn lemma_entries_keys(lines: Seq<Seq<char>>, k: int)
    ensures
        forall|j: int|
            0 <= j < entries_from(lines, k).len() ==> is_key(#[trigger] entries_from(lines, k)[j].normalized_key),
    decreases lines.len() - k,
{
    if 0 <= k < lines.len() {
        lemma_entries_keys(lines, k + 1);
        let es = entries_from(lines, k);
        match entry_of(lines[k], (k + 1) as usize) {
            Some(e) => {
                lemma_key_of_chars(e.feature_name);
                assert forall|j: int| 0 <= j < es.len() implies is_key(#[trigger] es[j].normalized_key) by {
                    if j > 0 {
                        assert(es[j] == entries_from(lines, k + 1)[j - 1]);
                    }
                }
            },
            None => {},
        }
    }
}

/// Every entry read from a table has a key: not empty, of ASCII letters,
/// digits and `_` (what the cross-reference asks of its rows).
pub proof fn lemma_parsed_keys(content: Seq<char>)
    ensures
        forall|j: int|
            0 <= j < entries_from(text_lines(content), 0).len() ==> is_key(
                #[trigger] entries_from(text_lines(content), 0)[j].normalized_key,
            ),
{
    lemma_entries_keys(text_lines(content), 0);
}

// ── Clippy output ───────────────────────────────────────────────

/// `a` comes before `b` in the lexicographic order of their characters (the
/// order in which `String`s compare).
pub open spec fn seq_lt(a: Seq<char>, b: Seq<char>) -> bool
    decreases a.len(),
{
    if a.len() == 0 {
        b.len() > 0
    } else if b.len() == 0 {
        false
    } else if a[0] != b[0] {
        a[0] < b[0]
    } else {
        seq_lt(a.drop_first(), b.drop_first())
    }
}

proof fn lemma_seq_lt_total(a: Seq<char>, b: Seq<char>)
    ensures
        a != b ==> seq_lt(a, b) || seq_lt(b, a),
        !(seq_lt(a, b) && seq_lt(b, a)),
    decreases a.len(),
{
    if a.len() > 0 && b.len() > 0 {
        lemma_seq_lt_total(a.drop_first(), b.drop_first());
        if a[0] == b[0] && a != b {
            assert(a =~= seq![a[0]] + a.drop_first());
            assert(b =~= seq![b[0]] + b.drop_first());
        }
    } else if a.len() == 0 && b.len() == 0 {
        assert(a =~= b);
    }
}

proof fn lemma_seq_lt_trans(a: Seq<char>, b: Seq<char>, c: Seq<char>)
    requires
        seq_lt(a, b),
        seq_lt(b, c),
    ensures
        seq_lt(a, c),
    decreases a.len(),
{
    if a.len() > 0 && b.len() > 0 && c.len() > 0 && a[0] == b[0] && b[0] == c[0] {
        lemma_seq_lt_trans(a.drop_first(), b.drop_first(), c.drop_first());
    }
}

/// Whether `a` comes before `b` (see [`seq_lt`]).
fn str_lt(a: &str, b: &str) -> (r: bool)
    ensures
        r == seq_lt(a@, b@),
{
    let n = a.unicode_len();
    let m = b.unicode_len();
    let mut i: usize = 0;
    assert(a@.skip(0) =~= a@ && b@.skip(0) =~= b@);
    while i < n && i < m && a.get_char(i) == b.get_char(i)
        invariant
            n == a@.len(),
            m == b@.len(),
            i <= n,
            i <= m,
            seq_lt(a@, b@) == seq_lt(a@.skip(i as int), b@.skip(i as int)),
        decreases n - i,
    {
        assert(a@.skip(i as int).drop_first() =~= a@.skip(i + 1));
        assert(b@.skip(i as int).drop_first() =~= b@.skip(i + 1));
        i = i + 1;
    }
    if i < n && i < m {
        assert(a@.skip(i as int)[0] == a@[i as int]);
        assert(b@.skip(i as int)[0] == b@[i as int]);
        a.get_char(i) < b.get_char(i)
    } else {
        i == n && i < m
    }
}

/// View of a [`ClippySummary`].
pub struct ClippyModel {
    pub by_crate: Seq<(Seq<char>, nat)>,
    pub warning_types: Seq<Seq<char>>,
    pub total: nat,
}

pub open spec fn counts_view(v: Seq<(String, usize)>) -> Seq<(Seq<char>, nat)> {
    v.map_values(|e: (String, usize)| (e.0@, e.1 as nat))
}

impl View for ClippySummary {
    type V = ClippyModel;

    open spec fn view(&self) -> ClippyModel {
        ClippyModel {
            by_crate: counts_view(self.by_crate@),
            warning_types: strings_view(self.warning_types@),
            total: self.total as nat,
        }
    }
}

pub open spec fn same_crate(n: Seq<char>) -> spec_fn((Seq<char>, nat)) -> bool {
    |e: (Seq<char>, nat)| e.0 == n
}

/// The crate counts with `c` more warnings of crate `n` (a new crate goes
/// last).
pub open spec fn add_count(s: Seq<(Seq<char>, nat)>, n: Seq<char>, c: nat) -> Seq<(Seq<char>, nat)> {
    let k = first_where(s, same_crate(n));
    if k < s.len() {
        s.update(k as int, (n, s[k as int].1 + c))
    } else {
        s.push((n, c))
    }
}

/// What the clippy output lines say: each crate's warning count (crates in
/// order of first appearance), the total, and the kinds of warning named.
/// A summary line (`` warning: `name` ... generated N ``) counts; another
/// line naming `#[warn(kind)]` adds its kind.
pub open spec fn clippy_fold(lines: Seq<Seq<char>>) -> (Seq<(Seq<char>, nat)>, nat, Set<Seq<char>>)
    decreases lines.len(),
{
    if lines.len() == 0 {
        (Seq::empty(), 0, Set::empty())
    } else {
        let (cr, t, ks) = clippy_fold(lines.drop_last());
        let line = lines.last();
        if has_prefix(line, "warning: `"@) && contains_seq(line, "generated"@) {
            match clippy_count(line) {
                Some((n, c)) => (add_count(cr, n, c as nat), t + c as nat, ks),
                None => (cr, t, ks),
            }
        } else if contains_seq(line, "#[warn("@) {
            match warn_kind(line) {
                Some(k) => (cr, t, ks.insert(k)),
                None => (cr, t, ks),
            }
        } else {
            (cr, t, ks)
        }
    }
}

proof fn lemma_clippy_fold_mono(lines: Seq<Seq<char>>, k: int)
    requires
        0 <= k <= lines.len(),
    ensures
        clippy_fold(lines.take(k)).1 <= clippy_fold(lines).1,
    decreases lines.len() - k,
{
    if k < lines.len() {
        lemma_clippy_fold_mono(lines, k + 1);
        assert(lines.take(k + 1).drop_last() =~= lines.take(k));
    } else {
        assert(lines.take(k) =~= lines);
    }
}

/// Index of the entry of crate `n`, if any.
fn crate_index(v: &Vec<(String, usize)>, n: &str) -> (r: usize)
    ensures
        r == first_where(counts_view(v@), same_crate(n@)),
{
    let ghost cv = counts_view(v@);
    let mut i: usize = 0;
    while i < v.len() && !str_eq(v[i].0.as_str(), n)
        invariant
            cv == counts_view(v@),
            i <= v@.len(),
            forall|j: int| 0 <= j < i ==> !same_crate(n@)(#[trigger] cv[j]),
        decreases v@.len() - i,
    {
        assert(cv[i as int] == (v@[i as int].0@, v@[i as int].1 as nat));
        i = i + 1;
    }
    proof {
        if i < v@.len() {
            assert(cv[i as int] == (v@[i as int].0@, v@[i as int].1 as nat));
        }
        lemma_first_where_at(cv, same_crate(n@), i as int);
    }
    i
}

/// Insert `k` into the strictly increasing `kinds`, unless present.
fn insert_kind(kinds: &mut Vec<String>, k: String)
    requires
        forall|i: int, j: int|
            0 <= i < j < old(kinds)@.len() ==> seq_lt(#[trigger] old(kinds)@[i]@, #[trigger] old(kinds)@[j]@),
    ensures
        forall|i: int, j: int|
            0 <= i < j < final(kinds)@.len() ==> seq_lt(#[trigger] final(kinds)@[i]@, #[trigger] final(kinds)@[j]@),
        strings_view(final(kinds)@).to_set() == strings_view(old(kinds)@).to_set().insert(k@),
{
    let ghost old_v = strings_view(kinds@);
    let mut p: usize = 0;
    while p < kinds.len() && str_lt(kinds[p].as_str(), k.as_str())
        invariant
            p <= kinds@.len(),
            kinds@ == old(kinds)@,
            forall|j: int| 0 <= j < p ==> seq_lt(#[trigger] kinds@[j]@, k@),
        decreases kinds@.len() - p,
    {
        p = p + 1;
    }
    if p < kinds.len() && str_eq(kinds[p].as_str(), k.as_str()) {
        proof {
            assert forall|x: Seq<char>| strings_view(kinds@).contains(x) <==> (old_v.contains(x) || x == k@) by {
                if x == k@ {
                    assert(strings_view(kinds@)[p as int] == x);
                }
            }
            assert(strings_view(kinds@).to_set() =~= old_v.to_set().insert(k@));
        }
    } else {
    proof {
        if p < kinds@.len() {
            lemma_seq_lt_total(kinds@[p as int]@, k@);
        }
        assert forall|j: int| p <= j < kinds@.len() implies seq_lt(k@, #[trigger] kinds@[j]@) by {
            if j > p {
                lemma_seq_lt_trans(k@, kinds@[p as int]@, kinds@[j]@);
            }
        }
    }
    let ghost before = kinds@;
    kinds.insert(p, k);
    proof {
        assert(kinds@ == before.insert(p as int, k));
        assert forall|i: int, j: int|
            0 <= i < j < kinds@.len() implies seq_lt(#[trigger] kinds@[i]@, #[trigger] kinds@[j]@) by {
            if j < p {
                assert(kinds@[i] == before[i] && kinds@[j] == before[j]);
            } else if j == p {
                assert(kinds@[i] == before[i]);
            } else if i < p {
                assert(kinds@[i] == before[i] && kinds@[j] == before[j - 1]);
                lemma_seq_lt_trans(kinds@[i]@, k@, kinds@[j]@);
            } else if i == p {
                assert(kinds@[j] == before[j - 1]);
            } else {
                assert(kinds@[i] == before[i - 1] && kinds@[j] == before[j - 1]);
            }
        }
        assert(strings_view(kinds@) =~= old_v.insert(p as int, k@));
        let nv = strings_view(kinds@);
        assert forall|x: Seq<char>| #[trigger] nv.to_set().contains(x) <==> old_v.to_set().insert(k@).contains(x) by {
            if old_v.contains(x) {
                let w = choose|w: int| 0 <= w < old_v.len() && old_v[w] == x;
                if w < p {
                    assert(nv[w] == x);
                } else {
                    assert(nv[w + 1] == x);
                }
            }
            if x == k@ {
                assert(nv[p as int] == x);
            }
            if nv.contains(x) {
                let w = choose|w: int| 0 <= w < nv.len() && nv[w] == x;
                if w < p {
                    assert(old_v[w] == x);
                } else if w > p {
                    assert(old_v[w - 1] == x);
                }
            }
        }
        assert(nv.to_set() =~= old_v.to_set().insert(k@));
    }
    }
}

/// The crate counts sorted by count, highest first.
fn sort_counts(v: &Vec<(String, usize)>) -> (r: Vec<(String, usize)>)
    ensures
        counts_view(r@).to_multiset() == counts_view(v@).to_multiset(),
        forall|i: int, j: int| 0 <= i < j < r@.len() ==> #[trigger] r@[i].1 >= #[trigger] r@[j].1,
{
    broadcast use vstd::seq_lib::group_to_multiset_ensures;
    let ghost vv = counts_view(v@);
    let mut out: Vec<(String, usize)> = Vec::new();
    let mut i: usize = 0;
    while i < v.len()
        invariant
            vv == counts_view(v@),
            i <= v@.len(),
            counts_view(out@).to_multiset() == vv.take(i as int).to_multiset(),
            forall|a: int, b: int| 0 <= a < b < out@.len() ==> #[trigger] out@[a].1 >= #[trigger] out@[b].1,
        decreases v@.len() - i,
    {
        let x = (v[i].0.clone(), v[i].1);
        let ghost xv = (x.0@, x.1 as nat);
        assert(vv[i as int] == xv);
        assert(vv.take(i + 1) =~= vv.take(i as int).push(xv));
        let mut p: usize = 0;
        while p < out.len() && out[p].1 >= x.1
            invariant
                p <= out@.len(),
                counts_view(out@).to_multiset() == vv.take(i as int).to_multiset(),
                forall|j: int| 0 <= j < p ==> #[trigger] out@[j].1 >= x.1,
            decreases out@.len() - p,
        {
            p = p + 1;
        }
        let ghost before = out@;
        proof {
            assert forall|j: int| p <= j < before.len() implies #[trigger] before[j].1 < x.1 by {
                if j > p {
                    assert(before[p as int].1 >= before[j].1);
                }
            }
        }
        out.insert(p, x);
        proof {
            assert(out@ == before.insert(p as int, x));
            assert(counts_view(out@) =~= counts_view(before).insert(p as int, xv));
            vstd::seq_lib::to_multiset_insert(counts_view(before), p as int, xv);
            vstd::seq_lib::to_multiset_build(vv.take(i as int), xv);
            assert(counts_view(out@).to_multiset() == vv.take(i + 1).to_multiset());
            assert forall|a: int, b: int| 0 <= a < b < out@.len() implies #[trigger] out@[a].1 >= #[trigger] out@[b].1 by {
                if b < p {
                    assert(out@[a] == before[a] && out@[b] == before[b]);
                } else if b == p {
                    assert(out@[a] == before[a]);
                } else if a < p {
                    assert(out@[a] == before[a] && out@[b] == before[b - 1]);
                } else if a == p {
                    assert(out@[b] == before[b - 1]);
                } else {
                    assert(out@[a] == before[a - 1] && out@[b] == before[b - 1]);
                }
            }
        }
        i = i + 1;
    }
    assert(vv.take(i as int) =~= vv);
    out
}


/// Reads clippy's error output: the warnings of each crate (highest count
/// first), their total, and the kinds of warning named (sorted, each once).
pub fn summarize_clippy(stderr: &str) -> (r: ClippySummary)
    requires
        clippy_fold(text_lines(stderr@)).1 <= usize::MAX,
    ensures
        counts_view(r.by_crate@).to_multiset() == clippy_fold(text_lines(stderr@)).0.to_multiset(),
        forall|i: int, j: int|
            0 <= i < j < r.by_crate@.len() ==> #[trigger] r.by_crate@[i].1 >= #[trigger] r.by_crate@[j].1,
        r.total == clippy_fold(text_lines(stderr@)).1,
        strings_view(r.warning_types@).to_set() == clippy_fold(text_lines(stderr@)).2,
        forall|i: int, j: int|
            0 <= i < j < r.warning_types@.len() ==> seq_lt(
                #[trigger] r.warning_types@[i]@,
                #[trigger] r.warning_types@[j]@,
            ),
{
    let lines = split_lines(stderr);
    let ghost lv = text_lines(stderr@);
    let mut crates: Vec<(String, usize)> = Vec::new();
    let mut kinds: Vec<String> = Vec::new();
    let mut total: usize = 0;
    let mut i: usize = 0;
    proof {
        assert(lv.take(0) =~= Seq::<Seq<char>>::empty());
        assert(strings_view(kinds@).to_set() =~= Set::<Seq<char>>::empty());
    }
    while i < lines.len()
        invariant
            strings_view(lines@) == lv,
            lv == text_lines(stderr@),
            clippy_fold(lv).1 <= usize::MAX,
            i <= lines@.len(),
            counts_view(crates@) == clippy_fold(lv.take(i as int)).0,
            total == clippy_fold(lv.take(i as int)).1,
            strings_view(kinds@).to_set() == clippy_fold(lv.take(i as int)).2,
            forall|a: int| 0 <= a < crates@.len() ==> #[trigger] crates@[a].1 <= total,
            forall|a: int, b: int|
                0 <= a < b < kinds@.len() ==> seq_lt(#[trigger] kinds@[a]@, #[trigger] kinds@[b]@),
        decreases lines@.len() - i,
    {
        let line = lines[i].as_str();
        let ghost pre = lv.take(i as int);
        proof {
            assert(lv.take(i + 1).drop_last() =~= pre);
            assert(lv.take(i + 1).last() == line@);
            lemma_clippy_fold_mono(lv, i + 1);
        }
        if starts_with_str(line, "warning: `") && contains_str(line, "generated") {
            match parse_clippy_summary_line(line) {
                Some((name, count)) => {
                    let ghost cv = counts_view(crates@);
                    let k = crate_index(&crates, name.as_str());
                    if k < crates.len() {
                        let c0 = crates[k].1;
                        crates.set(k, (name, c0 + count));
                        proof {
                            assert(counts_view(crates@) =~= cv.update(k as int, (name@, cv[k as int].1 + count as nat)));
                        }
                    } else {
                        crates.push((name, count));
                        proof {
                            assert(counts_view(crates@) =~= cv.push((name@, count as nat)));
                        }
                    }
                    total = total + count;
                },
                None => {},
            }
        } else if contains_str(line, "#[warn(") {
            match extract_warn_type(line) {
                Some(k) => {
                    insert_kind(&mut kinds, k);
                },
                None => {},
            }
        }
        i = i + 1;
    }
    proof {
        assert(lv.take(i as int) =~= lv);
    }
    let by_crate = sort_counts(&crates);
    ClippySummary { by_crate, warning_types: kinds, total }
}


/// How many of the entries are of kind `k`.
pub open spec fn kind_count(es: Seq<TodoModel>, k: Seq<char>) -> nat
    decreases es.len(),
{
    if es.len() == 0 {
        0
    } else {
        kind_count(es.drop_last(), k) + if es.last().kind == k {
            1nat
        } else {
            0nat
        }
    }
}

proof fn lemma_kind_count_bound(es: Seq<TodoModel>, k: Seq<char>)
    ensures
        kind_count(es, k) <= es.len(),
    decreases es.len(),
{
    if es.len() > 0 {
        lemma_kind_count_bound(es.drop_last(), k);
    }
}

/// How many marked lines there are of each kind, in the order `TODO`,
/// `FIXME`, `HACK`, `XXX`.
pub fn todo_kind_counts(todos: &Vec<TodoEntry>) -> (r: [usize; 4])
    ensures
        r[0] == kind_count(todos@.map_values(|t: TodoEntry| t@), "TODO"@),
        r[1] == kind_count(todos@.map_values(|t: TodoEntry| t@), "FIXME"@),
        r[2] == kind_count(todos@.map_values(|t: TodoEntry| t@), "HACK"@),
        r[3] == kind_count(todos@.map_values(|t: TodoEntry| t@), "XXX"@),
{
    let ghost tv = todos@.map_values(|t: TodoEntry| t@);
    let mut r: [usize; 4] = [0, 0, 0, 0];
    let mut i: usize = 0;
    while i < todos.len()
        invariant
            tv == todos@.map_values(|t: TodoEntry| t@),
            i <= todos@.len(),
            r[0] == kind_count(tv.take(i as int), "TODO"@),
            r[1] == kind_count(tv.take(i as int), "FIXME"@),
            r[2] == kind_count(tv.take(i as int), "HACK"@),
            r[3] == kind_count(tv.take(i as int), "XXX"@),
        decreases todos@.len() - i,
    {
        let kind = todos[i].kind.as_str();
        proof {
            assert(tv.take(i + 1).drop_last() =~= tv.take(i as int));
            assert(tv.take(i + 1).last() == todos@[i as int]@);
            lemma_kind_count_bound(tv.take(i as int), "TODO"@);
            lemma_kind_count_bound(tv.take(i as int), "FIXME"@);
            lemma_kind_count_bound(tv.take(i as int), "HACK"@);
            lemma_kind_count_bound(tv.take(i as int), "XXX"@);
        }
        if str_eq(kind, "TODO") {
            r.set(0, r[0] + 1);
        }
        if str_eq(kind, "FIXME") {
            r.set(1, r[1] + 1);
        }
        if str_eq(kind, "HACK") {
            r.set(2, r[2] + 1);
        }
        if str_eq(kind, "XXX") {
            r.set(3, r[3] + 1);
        }
        i = i + 1;
    }
    proof {
        assert(tv.take(i as int) =~= tv);
    }
    r
}

} // verus!
