//! Regression baselines: the pass counts of a run by category, and the
//! categories whose pass count fell since.

use super::suite::{category_name, CategoryReport, CompatReport};
use super::report::{dec, dec_string};
use crate::text::to_string;
use vstd::hash_map::StringHashMap;
use vstd::prelude::*;

verus! {

/// Pass count and size of one category in a baseline.
#[derive(Debug, Clone, Copy, PartialEq, Eq, Structural)]
pub struct CategoryBaseline {
    pub passed: usize,
    pub total: usize,
}

/// A baseline: when it was taken, and the figures of each category by name.
pub struct Baseline {
    pub timestamp: String,
    pub categories: StringHashMap<CategoryBaseline>,
}

/// A category whose pass count fell.
#[derive(Debug, Clone)]
pub struct RegressionItem {
    pub category: String,
    pub old_passed: usize,
    pub new_passed: usize,
}

/// Whether every category report's total fits in a `usize`.
pub open spec fn totals_fit(report: CompatReport) -> bool {
    forall|j: int|
        0 <= j < report.by_category@.len() ==> {
            let r = #[trigger] report.by_category@[j].1;
            r.passed + r.failed + r.skipped + r.not_implemented <= usize::MAX
        }
}

/// The figures of a category report.
pub open spec fn figures(r: CategoryReport) -> CategoryBaseline {
    CategoryBaseline {
        passed: r.passed,
        total: (r.passed + r.failed + r.skipped + r.not_implemented) as usize,
    }
}

/// The baseline map of the first `n` entries of a report, by category name.
pub open spec fn figures_map(entries: Seq<(super::suite::Category, CategoryReport)>) -> Map<
    Seq<char>,
    CategoryBaseline,
>
    decreases entries.len(),
{
    if entries.len() == 0 {
        Map::empty()
    } else {
        figures_map(entries.drop_last()).insert(
            category_name(entries.last().0),
            figures(entries.last().1),
        )
    }
}

/// Reads the clock (`SystemTime::now`, then its distance from the UNIX
/// epoch in whole seconds): `None` when the clock is before the epoch. It
/// depends on the clock, so nothing is claimed of the value.
#[verifier::external_body]
fn unix_secs() -> (r: Option<u64>) {
    std::time::SystemTime::now().duration_since(std::time::UNIX_EPOCH).ok().map(|d| d.as_secs())
}

/// The text of a baseline's time stamp: `unix:` and the seconds since the
/// UNIX epoch, or `unknown` when the clock was before it.
pub open spec fn timestamp_spec(secs: Option<u64>) -> Seq<char> {
    match secs {
        Some(n) => "unix:"@ + dec(n as nat),
        None => "unknown"@,
    }
}

/// The time stamp text for a clock reading (see [`timestamp_spec`]).
pub fn timestamp_text(secs: Option<u64>) -> (s: String)
    ensures
        s@ == timestamp_spec(secs),
{
    match secs {
        Some(n) => {
            let mut s = to_string("unix:");
            let d = dec_string(n);
            s.append(d.as_str());
            s
        },
        None => to_string("unknown"),
    }
}

/// The baseline of a report taken at `timestamp`: each category's pass count
/// and total, under its name.
pub fn baseline_at(report: &CompatReport, timestamp: String) -> (b: Baseline)
    requires
        totals_fit(*report),
    ensures
        b.timestamp@ == timestamp@,
        b.categories@ == figures_map(report.by_category@),
{
    let mut categories: StringHashMap<CategoryBaseline> = StringHashMap::new();
    let mut i: usize = 0;
    while i < report.by_category.len()
        invariant
            0 <= i <= report.by_category@.len(),
            totals_fit(*report),
            categories@ == figures_map(report.by_category@.take(i as int)),
        decreases report.by_category@.len() - i,
    {
        let entry = &report.by_category[i];
        assert(report.by_category@.take(i + 1).drop_last() =~= report.by_category@.take(i as int));
        let r = &entry.1;
        let total = r.total();
        categories.insert(entry.0.name(), CategoryBaseline { passed: r.passed, total });
        i = i + 1;
    }
    assert(report.by_category@.take(i as int) =~= report.by_category@);
    Baseline { timestamp, categories }
}

/// The baseline of a report, stamped with the current time (whatever the
/// clock read, the stamp is the text of that reading).
pub fn baseline_from_report(report: &CompatReport) -> (b: Baseline)
    requires
        totals_fit(*report),
    ensures
        b.categories@ == figures_map(report.by_category@),
        exists|secs: Option<u64>| b.timestamp@ == timestamp_spec(secs),
{
    let secs = unix_secs();
    let b = baseline_at(report, timestamp_text(secs));
    assert(b.timestamp@ == timestamp_spec(secs));
    b
}

/// The regressions among report entries: each category that the baseline
/// knows and whose pass count is now lower, in report order.
pub open spec fn regressions(old: Map<Seq<char>, CategoryBaseline>, entries: Seq<
    (super::suite::Category, CategoryReport),
>) -> Seq<(Seq<char>, usize, usize)>
    decreases entries.len(),
{
    if entries.len() == 0 {
        Seq::empty()
    } else {
        let rest = regressions(old, entries.drop_last());
        let name = category_name(entries.last().0);
        let now = entries.last().1.passed;
        if old.contains_key(name) && now < old[name].passed {
            rest.push((name, old[name].passed, now))
        } else {
            rest
        }
    }
}

/// Compares a report with a baseline (see [`regressions`]).
pub fn check_regression(old: &Baseline, report: &CompatReport) -> (v: Vec<RegressionItem>)
    ensures
        v@.map_values(|r: RegressionItem| (r.category@, r.old_passed, r.new_passed)) == regressions(
            old.categories@,
            report.by_category@,
        ),
{
    let mut v: Vec<RegressionItem> = Vec::new();
    let mut i: usize = 0;
    while i < report.by_category.len()
        invariant
            0 <= i <= report.by_category@.len(),
            v@.map_values(|r: RegressionItem| (r.category@, r.old_passed, r.new_passed)) == regressions(
                old.categories@,
                report.by_category@.take(i as int),
            ),
        decreases report.by_category@.len() - i,
    {
        let entry = &report.by_category[i];
        assert(report.by_category@.take(i + 1).drop_last() =~= report.by_category@.take(i as int));
        let name = entry.0.name();
        match old.categories.get(name.as_str()) {
            Some(b) => {
                if entry.1.passed < b.passed {
                    let ghost before = v@.map_values(
                        |r: RegressionItem| (r.category@, r.old_passed, r.new_passed),
                    );
                    v.push(RegressionItem { category: name, old_passed: b.passed, new_passed: entry.1.passed });
                    assert(v@.map_values(|r: RegressionItem| (r.category@, r.old_passed, r.new_passed))
                        =~= before.push((category_name(entry.0), b.passed, entry.1.passed)));
                }
            },
            None => {},
        }
        i = i + 1;
    }
    assert(report.by_category@.take(i as int) =~= report.by_category@);
    v
}

/// The categories of report entries have distinct names.
pub open spec fn distinct_names(entries: Seq<(super::suite::Category, CategoryReport)>) -> bool {
    forall|i: int, j: int|
        0 <= i < j < entries.len() ==> category_name(#[trigger] entries[i].0) != category_name(
            #[trigger] entries[j].0,
        )
}

proof fn lemma_figures_lookup(entries: Seq<(super::suite::Category, CategoryReport)>, k: int)
    requires
        distinct_names(entries),
        0 <= k < entries.len(),
    ensures
        figures_map(entries).contains_key(category_name(entries[k].0)),
        figures_map(entries)[category_name(entries[k].0)] == figures(entries[k].1),
    decreases entries.len(),
{
    if k < entries.len() - 1 {
        let rest = entries.drop_last();
        assert(rest[k] == entries[k]);
        assert forall|i: int, j: int| 0 <= i < j < rest.len() implies category_name(
            #[trigger] rest[i].0,
        ) != category_name(#[trigger] rest[j].0) by {
            assert(rest[i] == entries[i] && rest[j] == entries[j]);
        }
        lemma_figures_lookup(rest, k);
        assert(category_name(entries[k].0) != category_name(entries[entries.len() - 1].0));
    }
}

proof fn lemma_no_regressions(
    m: Map<Seq<char>, CategoryBaseline>,
    entries: Seq<(super::suite::Category, CategoryReport)>,
)
    requires
        forall|k: int|
            0 <= k < entries.len() && m.contains_key(category_name(#[trigger] entries[k].0)) ==> m[category_name(
                entries[k].0,
            )].passed <= entries[k].1.passed,
    ensures
        regressions(m, entries).len() == 0,
    decreases entries.len(),
{
    if entries.len() > 0 {
        let rest = entries.drop_last();
        assert forall|k: int|
            0 <= k < rest.len() && m.contains_key(category_name(#[trigger] rest[k].0)) implies m[category_name(
                rest[k].0,
            )].passed <= rest[k].1.passed by {
            assert(rest[k] == entries[k]);
        }
        lemma_no_regressions(m, rest);
        assert(entries.last() == entries[entries.len() - 1]);
    }
}

/// A report compared with the baseline taken from it shows no regression
/// (its categories having distinct names).
pub proof fn lemma_own_baseline_no_regression(entries: Seq<(super::suite::Category, CategoryReport)>)
    requires
        distinct_names(entries),
    ensures
        regressions(figures_map(entries), entries).len() == 0,
{
    let m = figures_map(entries);
    assert forall|k: int|
        0 <= k < entries.len() && m.contains_key(category_name(#[trigger] entries[k].0)) implies m[category_name(
            entries[k].0,
        )].passed <= entries[k].1.passed by {
        lemma_figures_lookup(entries, k);
    }
    lemma_no_regressions(m, entries);
}

} // verus!
