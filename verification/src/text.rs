//! Small verified string helpers shared by the modules of this crate.

use crate::config::lex::char_pred;
use crate::seq_util::first_where;
use vstd::prelude::*;

verus! {

/// Whether two string slices hold the same characters.
pub fn str_eq(a: &str, b: &str) -> (r: bool)
    ensures
        r == (a@ == b@),
{
    let x = a.to_owned();
    let y = b.to_owned();
    x == y
}

/// An owned copy of a string slice.
pub fn to_string(s: &str) -> (r: String)
    ensures
        r@ == s@,
{
    s.to_owned()
}

/// The characters of a string slice, in order.
pub fn chars_of(s: &str) -> (v: Vec<char>)
    ensures
        v@ == s@,
{
    broadcast use vstd::string::axiom_spec_iter;
    let mut v: Vec<char> = Vec::new();
    for c in it: s.chars()
        invariant
            v@ == it.seq().take(it.index() as int),
    {
        v.push(c);
    }
    v
}

/// `n` occurs in `h` at index `i`.
pub open spec fn occurs_at(h: Seq<char>, n: Seq<char>, i: int) -> bool {
    0 <= i && i + n.len() <= h.len() && h.subrange(i, i + n.len()) == n
}

/// `n` occurs somewhere in `h`, as `str::contains` tests.
pub open spec fn contains_seq(h: Seq<char>, n: Seq<char>) -> bool {
    exists|i: int| occurs_at(h, n, i)
}

/// `s` cut at each `c`, as `str::split` with a character does: the pieces
/// between the separators, empty ones included.
pub open spec fn pieces(s: Seq<char>, c: char) -> Seq<Seq<char>>
    decreases s.len(),
{
    let k = first_where(s, char_pred(c));
    if k < s.len() {
        seq![s.take(k as int)] + pieces(s.skip(k + 1int), c)
    } else {
        seq![s]
    }
}

/// Whether `n` occurs in `h` at `i`.
pub fn occurs_at_exec(h: &Vec<char>, n: &Vec<char>, i: usize) -> (b: bool)
    ensures
        b == occurs_at(h@, n@, i as int),
{
    if i > h.len() || n.len() > h.len() - i {
        return false;
    }
    let mut k: usize = 0;
    let hl = h.len();
    while k < n.len()
        invariant
            hl == h@.len(),
            i + n@.len() <= h@.len(),
            k <= n@.len(),
            forall|j: int| 0 <= j < k ==> h@[i + j] == n@[j],
        decreases n@.len() - k,
    {
        if h[i + k] != n[k] {
            assert(h@.subrange(i as int, i + n@.len())[k as int] != n@[k as int]);
            return false;
        }
        k = k + 1;
    }
    assert(h@.subrange(i as int, i + n@.len()) =~= n@);
    true
}

/// Index of the first occurrence of `n` in `h`, if any.
pub fn find_sub(h: &Vec<char>, n: &Vec<char>) -> (r: Option<usize>)
    ensures
        match r {
            Some(i) => occurs_at(h@, n@, i as int) && forall|j: int|
                0 <= j < i ==> !occurs_at(h@, n@, j),
            None => !contains_seq(h@, n@),
        },
{
    if n.len() > h.len() {
        return None;
    }
    let last = h.len() - n.len();
    let mut i: usize = 0;
    loop
        invariant
            i <= last,
            last + n@.len() == h@.len(),
            forall|j: int| 0 <= j < i ==> !occurs_at(h@, n@, j),
        decreases last - i,
    {
        if occurs_at_exec(h, n, i) {
            return Some(i);
        }
        if i == last {
            return None;
        }
        i = i + 1;
    }
}

/// Index of the first occurrence of `n` in `h` at or after `i` (`str::find`
/// from `i`).
pub open spec fn first_occ(h: Seq<char>, n: Seq<char>, i: int) -> Option<int>
    decreases h.len() + 1 - i,
{
    if i < 0 || i + n.len() > h.len() {
        None
    } else if occurs_at(h, n, i) {
        Some(i)
    } else {
        first_occ(h, n, i + 1)
    }
}

/// `h` starts with `p` (`str::starts_with`).
pub open spec fn has_prefix(h: Seq<char>, p: Seq<char>) -> bool {
    occurs_at(h, p, 0)
}

/// Index of the first occurrence of `n` in `h` (`str::find`).
pub fn find_str(h: &str, n: &str) -> (r: Option<usize>)
    ensures
        match r {
            Some(i) => first_occ(h@, n@, 0) == Some(i as int) && i + n@.len() <= h@.len(),
            None => first_occ(h@, n@, 0) is None,
        },
{
    let hc = chars_of(h);
    let nc = chars_of(n);
    if nc.len() > hc.len() {
        return None;
    }
    let last = hc.len() - nc.len();
    let mut i: usize = 0;
    loop
        invariant
            hc@ == h@,
            nc@ == n@,
            i <= last,
            last + nc@.len() == hc@.len(),
            first_occ(h@, n@, 0) == first_occ(h@, n@, i as int),
        decreases last - i,
    {
        if occurs_at_exec(&hc, &nc, i) {
            return Some(i);
        }
        if i == last {
            assert(first_occ(h@, n@, i + 1) is None);
            return None;
        }
        i = i + 1;
    }
}

/// Whether `h` starts with `p` (`str::starts_with`).
pub fn starts_with_str(h: &str, p: &str) -> (b: bool)
    ensures
        b == has_prefix(h@, p@),
{
    let hc = chars_of(h);
    let pc = chars_of(p);
    occurs_at_exec(&hc, &pc, 0)
}

/// Whether `n` occurs in `h` (`str::contains`).
pub fn contains_str(h: &str, n: &str) -> (b: bool)
    ensures
        b == contains_seq(h@, n@),
{
    let hc = chars_of(h);
    let nc = chars_of(n);
    match find_sub(&hc, &nc) {
        Some(_) => true,
        None => false,
    }
}

/// The lines of a text as `str::lines` gives them: cut at each `\n`, a `\r`
/// before the `\n` dropped, and no empty line after a final `\n`.
pub open spec fn text_lines(s: Seq<char>) -> Seq<Seq<char>>
    decreases s.len(),
{
    if s.len() == 0 {
        Seq::empty()
    } else {
        let k = first_where(s, char_pred('\n'));
        if k < s.len() {
            seq![strip_cr(s.take(k as int))] + text_lines(s.skip(k + 1int))
        } else {
            seq![s]
        }
    }
}

/// `l` without a final `\r`.
pub open spec fn strip_cr(l: Seq<char>) -> Seq<char> {
    if l.len() > 0 && l.last() == '\r' {
        l.drop_last()
    } else {
        l
    }
}

/// The views of a list of strings.
pub open spec fn strings_view(v: Seq<String>) -> Seq<Seq<char>> {
    v.map_values(|s: String| s@)
}

/// Index of the first `c` at or after `from` in `chars`, or the length.
pub fn next_sep(chars: &Vec<char>, from: usize, c: char) -> (e: usize)
    requires
        from <= chars@.len(),
    ensures
        e == from + first_where(chars@.skip(from as int), char_pred(c)),
        e <= chars@.len(),
{
    let mut i: usize = from;
    while i < chars.len() && chars[i] != c
        invariant
            from <= i <= chars@.len(),
            forall|j: int| from <= j < i ==> chars@[j] != c,
        decreases chars@.len() - i,
    {
        i = i + 1;
    }
    proof {
        let t = chars@.skip(from as int);
        assert forall|j: int| 0 <= j < i - from implies !char_pred(c)(#[trigger] t[j]) by {
            assert(t[j] == chars@[j + from]);
        }
        if i < chars@.len() {
            assert(t[i - from] == chars@[i as int]);
        }
        crate::seq_util::lemma_first_where_at(t, char_pred(c), i - from);
    }
    i
}

/// The lines of a text (`str::lines`).
pub fn split_lines(content: &str) -> (r: Vec<String>)
    ensures
        strings_view(r@) == text_lines(content@),
{
    let chars = chars_of(content);
    let n = chars.len();
    let mut out: Vec<String> = Vec::new();
    let mut pos: usize = 0;
    assert(chars@.skip(0) =~= chars@);
    loop
        invariant
            n == chars@.len(),
            chars@ == content@,
            pos <= n,
            text_lines(content@) == strings_view(out@) + text_lines(chars@.skip(pos as int)),
        decreases n - pos,
    {
        let ghost rem = chars@.skip(pos as int);
        if pos == n {
            assert(strings_view(out@) + text_lines(rem) =~= strings_view(out@));
            return out;
        }
        let e = next_sep(&chars, pos, '\n');
        let ghost before = out@;
        if e == n {
            let last = string_of(&chars, pos, n);
            out.push(last);
            proof {
                assert(last@ =~= rem);
                assert(strings_view(out@) =~= strings_view(before).push(last@));
                assert(strings_view(out@) + text_lines(chars@.skip(n as int)) =~= strings_view(out@));
                assert(text_lines(rem) =~= seq![rem]);
                assert(strings_view(before) + seq![rem] =~= strings_view(out@));
            }
            return out;
        }
        let end = if e > pos && chars[e - 1] == '\r' {
            e - 1
        } else {
            e
        };
        let line = string_of(&chars, pos, end);
        out.push(line);
        proof {
            assert(line@ =~= strip_cr(rem.take((e - pos) as int)));
            assert(strings_view(out@) =~= strings_view(before).push(line@));
            assert(chars@.skip(e + 1) =~= rem.skip((e - pos) + 1int));
            assert(strings_view(before) + (seq![line@] + text_lines(chars@.skip(e + 1))) =~= strings_view(
                out@,
            ) + text_lines(chars@.skip(e + 1)));
        }
        pos = e + 1;
    }
}

/// Appends one character to a string (`String::push`). Claimed: the
/// characters afterwards are the old ones followed by `c`.
#[verifier::external_body]
pub(crate) fn push_char(s: &mut String, c: char)
    ensures
        final(s)@ == old(s)@.push(c),
{
    s.push(c);
}

/// The characters `chars[from..to]` as a string.
pub fn string_of(chars: &Vec<char>, from: usize, to: usize) -> (s: String)
    requires
        from <= to <= chars@.len(),
    ensures
        s@ == chars@.subrange(from as int, to as int),
{
    let mut s = String::new();
    let mut i: usize = from;
    while i < to
        invariant
            from <= i <= to,
            to <= chars@.len(),
            s@ == chars@.subrange(from as int, i as int),
        decreases to - i,
    {
        push_char(&mut s, chars[i]);
        assert(chars@.subrange(from as int, i + 1) =~= chars@.subrange(from as int, i as int).push(
            chars@[i as int],
        ));
        i = i + 1;
    }
    s
}

} // verus!
