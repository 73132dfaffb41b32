//! The text of a compatibility report, with ANSI colours: a table by category,
//! the failed checks, and a summary.

use super::suite::{
    category_name, CategoryReport, CompatReport, DetailModel, StatusModel, TestDetail, TestStatus,
};
use crate::text::{push_char, to_string};
use vstd::prelude::*;

verus! {

pub open spec fn green() -> Seq<char> {
    "\x1b[32m"@
}

pub open spec fn red() -> Seq<char> {
    "\x1b[31m"@
}

pub open spec fn yellow() -> Seq<char> {
    "\x1b[33m"@
}

pub open spec fn cyan() -> Seq<char> {
    "\x1b[36m"@
}

pub open spec fn bold() -> Seq<char> {
    "\x1b[1m"@
}

pub open spec fn dim() -> Seq<char> {
    "\x1b[2m"@
}

pub open spec fn reset() -> Seq<char> {
    "\x1b[0m"@
}

/// `n` copies of `c`.
pub open spec fn repeat(c: char, n: nat) -> Seq<char>
    decreases n,
{
    if n == 0 {
        Seq::empty()
    } else {
        repeat(c, (n - 1) as nat).push(c)
    }
}

/// `s` padded with spaces on the right to `w` characters (`{:<w}`).
pub open spec fn pad_right(s: Seq<char>, w: nat) -> Seq<char> {
    if s.len() >= w {
        s
    } else {
        s + repeat(' ', (w - s.len()) as nat)
    }
}

/// `s` padded with spaces on the left to `w` characters (`{:>w}`).
pub open spec fn pad_left(s: Seq<char>, w: nat) -> Seq<char> {
    if s.len() >= w {
        s
    } else {
        repeat(' ', (w - s.len()) as nat) + s
    }
}

/// The decimal digits of `n`.
pub open spec fn dec(n: nat) -> Seq<char>
    decreases n,
{
    if n < 10 {
        seq![digit_char(n)]
    } else {
        dec(n / 10).push(digit_char(n % 10))
    }
}

pub open spec fn digit_char(d: nat) -> char {
    if d == 0 { '0' } else if d == 1 { '1' } else if d == 2 { '2' } else if d == 3 { '3' } else if d
        == 4 { '4' } else if d == 5 { '5' } else if d == 6 { '6' } else if d == 7 { '7' } else if d
        == 8 { '8' } else { '9' }
}

/// The pass rate in percent, `100 * passed / (passed + failed)` rounded to the
/// nearest integer, a tie to the even one; 0 when nothing passed or failed.
pub open spec fn rate_percent(passed: nat, failed: nat) -> nat {
    let t = passed + failed;
    if t == 0 {
        0
    } else {
        let q = (100 * passed) / t;
        let r = (100 * passed) % t;
        if 2 * r > t || (2 * r == t && q % 2 == 1) {
            q + 1
        } else {
            q
        }
    }
}

/// The colour of a rate: green from 80 %, yellow from 50 %, else red (measured
/// on the exact rate).
pub open spec fn rate_color(passed: nat, failed: nat) -> Seq<char> {
    let t = passed + failed;
    if t > 0 && 100 * passed >= 80 * t {
        green()
    } else if t > 0 && 100 * passed >= 50 * t {
        yellow()
    } else {
        red()
    }
}

#[verifier::opaque]
pub open spec fn rule_line() -> Seq<char> {
    "  "@ + repeat('-', 50) + "\n"@
}

#[verifier::opaque]
pub open spec fn banner() -> Seq<char> {
    "\n"@ + bold() + cyan() + "+" @ + repeat('=', 50) + "+\n"@
        + "|         rway Sway Compatibility Report            |\n"@ + "+"@ + repeat('=', 50) + "+"@
        + reset() + "\n\n"@
}

#[verifier::opaque]
pub open spec fn table_header() -> Seq<char> {
    bold() + "  "@ + pad_right("Category"@, 14) + " "@ + pad_left("Pass"@, 6) + " "@ + pad_left(
        "Fail"@,
        6,
    ) + " "@ + pad_left("Skip"@, 6) + " "@ + pad_left("N/A"@, 6) + " "@ + pad_left("Rate"@, 7)
        + reset() + "\n"@
}

/// The counts of a row: passed, failed, skipped, not implemented, coloured.
pub open spec fn counts_cells(p: nat, f: nat, s: nat, n: nat) -> Seq<char> {
    green() + pad_left(dec(p), 6) + reset() + " "@ + red() + pad_left(dec(f), 6) + reset() + " "@
        + yellow() + pad_left(dec(s), 6) + reset() + " "@ + dim() + pad_left(dec(n), 6) + reset()
}

pub open spec fn category_row(name: Seq<char>, r: CategoryReport) -> Seq<char> {
    "  "@ + pad_right(name, 14) + " "@ + counts_cells(
        r.passed as nat,
        r.failed as nat,
        r.skipped as nat,
        r.not_implemented as nat,
    ) + " "@ + rate_color(r.passed as nat, r.failed as nat) + pad_left(
        dec(rate_percent(r.passed as nat, r.failed as nat)),
        6,
    ) + "%"@ + reset() + "\n"@
}

pub open spec fn category_rows(entries: Seq<(super::suite::Category, CategoryReport)>) -> Seq<char>
    decreases entries.len(),
{
    if entries.len() == 0 {
        Seq::empty()
    } else {
        category_rows(entries.drop_last()) + category_row(
            category_name(entries.last().0),
            entries.last().1,
        )
    }
}

#[verifier::opaque]
pub open spec fn total_row(r: CompatReport) -> Seq<char> {
    "  "@ + bold() + pad_right("TOTAL"@, 14) + reset() + " "@ + counts_cells(
        r.passed as nat,
        r.failed as nat,
        r.skipped as nat,
        r.not_implemented as nat,
    ) + " "@ + rate_color(r.passed as nat, r.failed as nat) + bold() + pad_left(
        dec(rate_percent(r.passed as nat, r.failed as nat)),
        6,
    ) + "%"@ + reset() + "\n"@
}

/// The line of one failed check.
pub open spec fn failure_line(cat: Seq<char>, d: DetailModel) -> Seq<char> {
    match d.status {
        StatusModel::Fail(reason) => "    "@ + red() + "FAIL"@ + reset() + " ["@ + cat + "] "@
            + d.name + " ("@ + d.sway_feature + "): "@ + reason + "\n"@,
        _ => Seq::empty(),
    }
}

pub open spec fn failure_lines_of(cat: Seq<char>, ds: Seq<DetailModel>) -> Seq<char>
    decreases ds.len(),
{
    if ds.len() == 0 {
        Seq::empty()
    } else {
        failure_lines_of(cat, ds.drop_last()) + failure_line(cat, ds.last())
    }
}

/// The lines of all failed checks, category by category.
pub open spec fn failure_lines(entries: Seq<(super::suite::Category, CategoryReport)>) -> Seq<char>
    decreases entries.len(),
{
    if entries.len() == 0 {
        Seq::empty()
    } else {
        failure_lines(entries.drop_last()) + failure_lines_of(
            category_name(entries.last().0),
            entries.last().1.details@.map_values(|x: TestDetail| x@),
        )
    }
}

/// The failed-checks section: empty when no check failed.
#[verifier::opaque]
pub open spec fn failures_section(entries: Seq<(super::suite::Category, CategoryReport)>) -> Seq<
    char,
> {
    let lines = failure_lines(entries);
    if lines.len() == 0 {
        Seq::empty()
    } else {
        bold() + red() + "  Failed Tests:"@ + reset() + "\n"@ + lines + "\n"@
    }
}

pub open spec fn summary_head(r: CompatReport) -> Seq<char> {
    "  "@ + bold() + "Summary:"@ + reset() + " "@ + dec(r.total as nat) + " tests | "@ + green()
        + dec(r.passed as nat) + " passed"@ + reset() + " | "@
}

pub open spec fn summary_tail(r: CompatReport) -> Seq<char> {
    red() + dec(r.failed as nat) + " failed"@ + reset() + " | "@ + yellow() + dec(
        r.skipped as nat,
    ) + " skipped"@ + reset() + " | "@ + dim() + dec(r.not_implemented as nat)
        + " not implemented"@ + reset() + "\n\n"@
}

#[verifier::opaque]
pub open spec fn summary_line(r: CompatReport) -> Seq<char> {
    summary_head(r) + summary_tail(r)
}

/// The whole report text.
pub open spec fn report_text(r: CompatReport) -> Seq<char> {
    banner() + table_header() + rule_line() + category_rows(r.by_category@) + rule_line()
        + total_row(r) + "\n"@ + failures_section(r.by_category@) + summary_line(r)
}

proof fn lemma_failure_lines_of(cat: Seq<char>, ds: Seq<DetailModel>)
    ensures
        failure_lines_of(cat, ds).len() > 0 <==> exists|i: int| 0 <= i < ds.len() && (#[trigger] ds[i]).status is Fail,
    decreases ds.len(),
{
    reveal_strlit("    ");
    if ds.len() > 0 {
        lemma_failure_lines_of(cat, ds.drop_last());
        if exists|i: int| 0 <= i < ds.len() && (#[trigger] ds[i]).status is Fail {
            let i = choose|i: int| 0 <= i < ds.len() && (#[trigger] ds[i]).status is Fail;
            if i < ds.len() - 1 {
                assert(ds.drop_last()[i] == ds[i]);
            }
        }
        if exists|i: int| 0 <= i < ds.drop_last().len() && (#[trigger] ds.drop_last()[i]).status is Fail {
            let i = choose|i: int| 0 <= i < ds.drop_last().len() && (#[trigger] ds.drop_last()[i]).status is Fail;
            assert(ds[i] == ds.drop_last()[i]);
        }
    }
}

proof fn lemma_failure_lines(entries: Seq<(super::suite::Category, CategoryReport)>)
    ensures
        failure_lines(entries).len() > 0 <==> exists|j: int, i: int|
            0 <= j < entries.len() && 0 <= i < entries[j].1.details@.len() && (
            #[trigger] entries[j].1.details@[i])@.status is Fail,
    decreases entries.len(),
{
    if entries.len() > 0 {
        let last = entries.last();
        let ds = last.1.details@.map_values(|x: TestDetail| x@);
        lemma_failure_lines(entries.drop_last());
        lemma_failure_lines_of(category_name(last.0), ds);
        if exists|j: int, i: int|
            0 <= j < entries.len() && 0 <= i < entries[j].1.details@.len() && (
            #[trigger] entries[j].1.details@[i])@.status is Fail {
            let (j, i) = choose|j: int, i: int|
                0 <= j < entries.len() && 0 <= i < entries[j].1.details@.len() && (
                #[trigger] entries[j].1.details@[i])@.status is Fail;
            if j < entries.len() - 1 {
                assert(entries.drop_last()[j] == entries[j]);
            } else {
                assert(ds[i] == entries[j].1.details@[i]@);
            }
        }
        if exists|i: int| 0 <= i < ds.len() && (#[trigger] ds[i]).status is Fail {
            let i = choose|i: int| 0 <= i < ds.len() && (#[trigger] ds[i]).status is Fail;
            assert(entries[entries.len() - 1].1.details@[i]@ == ds[i]);
        }
        if exists|j: int, i: int|
            0 <= j < entries.drop_last().len() && 0 <= i < entries.drop_last()[j].1.details@.len() && (
            #[trigger] entries.drop_last()[j].1.details@[i])@.status is Fail {
            let (j, i) = choose|j: int, i: int|
                0 <= j < entries.drop_last().len() && 0 <= i < entries.drop_last()[j].1.details@.len() && (
                #[trigger] entries.drop_last()[j].1.details@[i])@.status is Fail;
            assert(entries[j] == entries.drop_last()[j]);
        }
    }
}

/// The report has its failed-checks section exactly when some check of it
/// failed; the text before is kept as it was.
pub proof fn lemma_failures_section(r: CompatReport, before: Seq<char>)
    ensures
        failures_section(r.by_category@).len() > 0 <==> exists|j: int, i: int|
            0 <= j < r.by_category@.len() && 0 <= i < r.by_category@[j].1.details@.len() && (
            #[trigger] r.by_category@[j].1.details@[i])@.status is Fail,
        (before + report_text(r)).subrange(0, before.len() as int) == before,
{
    reveal(failures_section);
    lemma_failure_lines(r.by_category@);
    assert((before + report_text(r)).subrange(0, before.len() as int) =~= before);
}

fn digit(d: u64) -> (c: char)
    requires
        d < 10,
    ensures
        c == digit_char(d as nat),
{
    if d == 0 { '0' } else if d == 1 { '1' } else if d == 2 { '2' } else if d == 3 { '3' } else if d
        == 4 { '4' } else if d == 5 { '5' } else if d == 6 { '6' } else if d == 7 { '7' } else if d
        == 8 { '8' } else { '9' }
}

pub(crate) fn dec_string(n: u64) -> (s: String)
    ensures
        s@ == dec(n as nat),
    decreases n,
{
    if n < 10 {
        let mut s = String::new();
        push_char(&mut s, digit(n));
        assert(s@ =~= seq![digit_char(n as nat)]);
        s
    } else {
        let mut s = dec_string(n / 10);
        push_char(&mut s, digit(n % 10));
        s
    }
}

fn repeat_string(c: char, n: usize) -> (s: String)
    ensures
        s@ == repeat(c, n as nat),
{
    let mut s = String::new();
    let mut i: usize = 0;
    while i < n
        invariant
            0 <= i <= n,
            s@ == repeat(c, i as nat),
        decreases n - i,
    {
        push_char(&mut s, c);
        i = i + 1;
    }
    s
}

fn pad_right_string(s: &str, w: usize) -> (r: String)
    ensures
        r@ == pad_right(s@, w as nat),
{
    let n = s.unicode_len();
    let mut r = to_string(s);
    if n < w {
        let pad = repeat_string(' ', w - n);
        r.append(pad.as_str());
    }
    r
}

fn pad_left_string(s: &str, w: usize) -> (r: String)
    ensures
        r@ == pad_left(s@, w as nat),
{
    let n = s.unicode_len();
    if n < w {
        let mut r = repeat_string(' ', w - n);
        r.append(s);
        r
    } else {
        to_string(s)
    }
}

fn rate_of(passed: usize, failed: usize) -> (r: u64)
    ensures
        r == rate_percent(passed as nat, failed as nat),
{
    let t: u128 = passed as u128 + failed as u128;
    if t == 0 {
        return 0;
    }
    let num: u128 = 100 * (passed as u128);
    let q: u128 = num / t;
    let r: u128 = num % t;
    assert(q <= 100) by (nonlinear_arith)
        requires
            q == num / t,
            num == 100 * passed,
            t == passed + failed,
            t > 0,
    ;
    if 2 * r > t || (2 * r == t && q % 2 == 1) {
        (q + 1) as u64
    } else {
        q as u64
    }
}

fn color_of(passed: usize, failed: usize) -> (c: &'static str)
    ensures
        c@ == rate_color(passed as nat, failed as nat),
{
    let t: u128 = passed as u128 + failed as u128;
    let p: u128 = passed as u128;
    if t > 0 && 100 * p >= 80 * t {
        "\x1b[32m"
    } else if t > 0 && 100 * p >= 50 * t {
        "\x1b[33m"
    } else {
        "\x1b[31m"
    }
}

fn counts_string(p: usize, f: usize, sk: usize, n: usize) -> (s: String)
    ensures
        s@ == counts_cells(p as nat, f as nat, sk as nat, n as nat),
{
    let mut s = to_string("\x1b[32m");
    s.append(pad_left_string(dec_string(p as u64).as_str(), 6).as_str());
    s.append("\x1b[0m");
    s.append(" ");
    s.append("\x1b[31m");
    s.append(pad_left_string(dec_string(f as u64).as_str(), 6).as_str());
    s.append("\x1b[0m");
    s.append(" ");
    s.append("\x1b[33m");
    s.append(pad_left_string(dec_string(sk as u64).as_str(), 6).as_str());
    s.append("\x1b[0m");
    s.append(" ");
    s.append("\x1b[2m");
    s.append(pad_left_string(dec_string(n as u64).as_str(), 6).as_str());
    s.append("\x1b[0m");
    assert(s@ =~= counts_cells(p as nat, f as nat, sk as nat, n as nat));
    s
}

fn failures_of(cat: &str, ds: &Vec<TestDetail>, out: &mut String)
    ensures
        final(out)@ == old(out)@ + failure_lines_of(cat@, ds@.map_values(|x: TestDetail| x@)),
{
    let ghost dm = ds@.map_values(|x: TestDetail| x@);
    let mut i: usize = 0;
    assert(dm.take(0) =~= Seq::<DetailModel>::empty());
    assert(old(out)@ + Seq::<char>::empty() =~= old(out)@);
    while i < ds.len()
        invariant
            0 <= i <= ds@.len(),
            dm == ds@.map_values(|x: TestDetail| x@),
            out@ == old(out)@ + failure_lines_of(cat@, dm.take(i as int)),
        decreases ds@.len() - i,
    {
        let d = &ds[i];
        assert(dm.take(i + 1).drop_last() =~= dm.take(i as int));
        assert(dm.take(i + 1).last() == d@);
        let ghost before = out@;
        match &d.status {
            TestStatus::Fail(reason) => {
                out.append("    ");
                out.append("\x1b[31m");
                out.append("FAIL");
                out.append("\x1b[0m");
                out.append(" [");
                out.append(cat);
                out.append("] ");
                out.append(d.name.as_str());
                out.append(" (");
                out.append(d.sway_feature.as_str());
                out.append("): ");
                out.append(reason.as_str());
                out.append("\n");
                assert(out@ =~= before + failure_line(cat@, d@));
            },
            _ => {
                assert(failure_line(cat@, d@) =~= Seq::<char>::empty());
                assert(out@ =~= before + failure_line(cat@, d@));
            },
        }
        i = i + 1;
    }
    assert(dm.take(i as int) =~= dm);
}

fn write_banner(out: &mut String)
    ensures
        final(out)@ == old(out)@ + banner(),
{
    reveal(banner);
    let eq = repeat_string('=', 50);
    out.append("\n");
    out.append("\x1b[1m");
    out.append("\x1b[36m");
    out.append("+");
    out.append(eq.as_str());
    out.append("+\n");
    out.append("|         rway Sway Compatibility Report            |\n");
    out.append("+");
    out.append(eq.as_str());
    out.append("+");
    out.append("\x1b[0m");
    out.append("\n\n");
    assert(out@ =~= old(out)@ + banner());
}

fn write_table_header(out: &mut String)
    ensures
        final(out)@ == old(out)@ + table_header(),
{
    reveal(table_header);
    out.append("\x1b[1m");
    out.append("  ");
    out.append(pad_right_string("Category", 14).as_str());
    out.append(" ");
    out.append(pad_left_string("Pass", 6).as_str());
    out.append(" ");
    out.append(pad_left_string("Fail", 6).as_str());
    out.append(" ");
    out.append(pad_left_string("Skip", 6).as_str());
    out.append(" ");
    out.append(pad_left_string("N/A", 6).as_str());
    out.append(" ");
    out.append(pad_left_string("Rate", 7).as_str());
    out.append("\x1b[0m");
    out.append("\n");
    assert(out@ =~= old(out)@ + table_header());
}

fn write_rule(out: &mut String)
    ensures
        final(out)@ == old(out)@ + rule_line(),
{
    reveal(rule_line);
    let ruler = repeat_string('-', 50);
    out.append("  ");
    out.append(ruler.as_str());
    out.append("\n");
    assert(out@ =~= old(out)@ + rule_line());
}

fn write_category_row(name: &str, r: &CategoryReport, out: &mut String)
    ensures
        final(out)@ == old(out)@ + category_row(name@, *r),
{
    out.append("  ");
    out.append(pad_right_string(name, 14).as_str());
    out.append(" ");
    out.append(counts_string(r.passed, r.failed, r.skipped, r.not_implemented).as_str());
    out.append(" ");
    out.append(color_of(r.passed, r.failed));
    out.append(pad_left_string(dec_string(rate_of(r.passed, r.failed)).as_str(), 6).as_str());
    out.append("%");
    out.append("\x1b[0m");
    out.append("\n");
    assert(out@ =~= old(out)@ + category_row(name@, *r));
}

fn write_rows(report: &CompatReport, out: &mut String)
    ensures
        final(out)@ == old(out)@ + category_rows(report.by_category@),
{
    let mut i: usize = 0;
    assert(report.by_category@.take(0) =~= Seq::<(super::suite::Category, CategoryReport)>::empty());
    assert(old(out)@ + Seq::<char>::empty() =~= old(out)@);
    while i < report.by_category.len()
        invariant
            0 <= i <= report.by_category@.len(),
            out@ == old(out)@ + category_rows(report.by_category@.take(i as int)),
        decreases report.by_category@.len() - i,
    {
        assert(report.by_category@.take(i + 1).drop_last() =~= report.by_category@.take(i as int));
        let ghost before = out@;
        let name = report.by_category[i].0.name();
        write_category_row(name.as_str(), &report.by_category[i].1, out);
        assert(report.by_category@.take(i + 1).last() == report.by_category@[i as int]);
        assert(category_rows(report.by_category@.take(i + 1)) == category_rows(
            report.by_category@.take(i as int),
        ) + category_row(category_name(report.by_category@[i as int].0), report.by_category@[i as int].1));
        assert(out@ =~= old(out)@ + category_rows(report.by_category@.take(i + 1)));
        i = i + 1;
    }
    assert(report.by_category@.take(i as int) =~= report.by_category@);
}

fn write_total(report: &CompatReport, out: &mut String)
    ensures
        final(out)@ == old(out)@ + total_row(*report),
{
    reveal(total_row);
    out.append("  ");
    out.append("\x1b[1m");
    out.append(pad_right_string("TOTAL", 14).as_str());
    out.append("\x1b[0m");
    out.append(" ");
    out.append(counts_string(report.passed, report.failed, report.skipped, report.not_implemented).as_str());
    out.append(" ");
    out.append(color_of(report.passed, report.failed));
    out.append("\x1b[1m");
    out.append(pad_left_string(dec_string(rate_of(report.passed, report.failed)).as_str(), 6).as_str());
    out.append("%");
    out.append("\x1b[0m");
    out.append("\n");
    assert(out@ =~= old(out)@ + total_row(*report));
}

fn write_failures(report: &CompatReport, out: &mut String)
    ensures
        final(out)@ == old(out)@ + failures_section(report.by_category@),
{
    reveal(failures_section);
    let mut lines = String::new();
    let mut j: usize = 0;
    assert(lines@ =~= failure_lines(report.by_category@.take(0)));
    while j < report.by_category.len()
        invariant
            0 <= j <= report.by_category@.len(),
            lines@ == failure_lines(report.by_category@.take(j as int)),
        decreases report.by_category@.len() - j,
    {
        assert(report.by_category@.take(j + 1).drop_last() =~= report.by_category@.take(j as int));
        let name = report.by_category[j].0.name();
        failures_of(name.as_str(), &report.by_category[j].1.details, &mut lines);
        j = j + 1;
    }
    assert(report.by_category@.take(j as int) =~= report.by_category@);
    if lines.as_str().unicode_len() > 0 {
        out.append("\x1b[1m");
        out.append("\x1b[31m");
        out.append("  Failed Tests:");
        out.append("\x1b[0m");
        out.append("\n");
        out.append(lines.as_str());
        out.append("\n");
    }
    assert(out@ =~= old(out)@ + failures_section(report.by_category@));
}

fn write_summary_head(report: &CompatReport, out: &mut String)
    ensures
        final(out)@ == old(out)@ + summary_head(*report),
{
    out.append("  ");
    out.append("\x1b[1m");
    out.append("Summary:");
    out.append("\x1b[0m");
    out.append(" ");
    out.append(dec_string(report.total as u64).as_str());
    out.append(" tests | ");
    out.append("\x1b[32m");
    out.append(dec_string(report.passed as u64).as_str());
    out.append(" passed");
    out.append("\x1b[0m");
    out.append(" | ");
    assert(out@ =~= old(out)@ + summary_head(*report));
}

fn write_summary_tail(report: &CompatReport, out: &mut String)
    ensures
        final(out)@ == old(out)@ + summary_tail(*report),
{
    out.append("\x1b[31m");
    out.append(dec_string(report.failed as u64).as_str());
    out.append(" failed");
    out.append("\x1b[0m");
    out.append(" | ");
    let ghost mid = out@;
    out.append("\x1b[33m");
    out.append(dec_string(report.skipped as u64).as_str());
    out.append(" skipped");
    out.append("\x1b[0m");
    out.append(" | ");
    out.append("\x1b[2m");
    out.append(dec_string(report.not_implemented as u64).as_str());
    out.append(" not implemented");
    out.append("\x1b[0m");
    out.append("\n\n");
    assert(out@ =~= old(out)@ + summary_tail(*report));
}

fn write_summary(report: &CompatReport, out: &mut String)
    ensures
        final(out)@ == old(out)@ + summary_line(*report),
{
    reveal(summary_line);
    write_summary_head(report, out);
    let ghost mid = out@;
    write_summary_tail(report, out);
    assert(out@ =~= old(out)@ + summary_line(*report));
}

/// Writes the report text (see [`report_text`]) at the end of `out`. Rates
/// are whole percentages of `passed / (passed + failed)`, rounded half to even.
pub fn format_report(report: &CompatReport, out: &mut String)
    ensures
        final(out)@ == old(out)@ + report_text(*report),
{
    write_banner(out);
    write_table_header(out);
    write_rule(out);
    write_rows(report, out);
    write_rule(out);
    write_total(report, out);
    out.append("\n");
    write_failures(report, out);
    write_summary(report, out);
    assert(out@ =~= old(out)@ + report_text(*report));
}

} // verus!
