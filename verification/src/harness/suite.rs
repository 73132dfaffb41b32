//! Registering compatibility checks, running them, and tallying the results
//! into a report by category.

use crate::seq_util::first_where;
use crate::text::to_string;
use vstd::prelude::*;

verus! {

/// Areas of Sway behaviour that the checks cover.
#[derive(Debug, Clone, Copy, PartialEq, Eq, Hash, Structural)]
pub enum Category {
    Config,
    Ipc,
    Tiling,
    Window,
    Workspace,
    Input,
    Output,
    Appearance,
}

/// The categories in report order.
pub open spec fn all_categories() -> Seq<Category> {
    seq![
        Category::Config,
        Category::Ipc,
        Category::Tiling,
        Category::Window,
        Category::Workspace,
        Category::Input,
        Category::Output,
        Category::Appearance,
    ]
}

/// The display name of a category.
pub open spec fn category_name(c: Category) -> Seq<char> {
    match c {
        Category::Config => "Config"@,
        Category::Ipc => "IPC"@,
        Category::Tiling => "Tiling"@,
        Category::Window => "Window"@,
        Category::Workspace => "Workspace"@,
        Category::Input => "Input"@,
        Category::Output => "Output"@,
        Category::Appearance => "Appearance"@,
    }
}

impl Category {
    /// All categories, in report order.
    pub fn all() -> (v: Vec<Category>)
        ensures
            v@ == all_categories(),
    {
        let v = vec![
            Category::Config,
            Category::Ipc,
            Category::Tiling,
            Category::Window,
            Category::Workspace,
            Category::Input,
            Category::Output,
            Category::Appearance,
        ];
        assert(v@ =~= all_categories());
        v
    }

    /// The name shown for the category (`IPC` for `Ipc`).
    pub fn name(&self) -> (s: String)
        ensures
            s@ == category_name(*self),
    {
        match self {
            Category::Config => to_string("Config"),
            Category::Ipc => to_string("IPC"),
            Category::Tiling => to_string("Tiling"),
            Category::Window => to_string("Window"),
            Category::Workspace => to_string("Workspace"),
            Category::Input => to_string("Input"),
            Category::Output => to_string("Output"),
            Category::Appearance => to_string("Appearance"),
        }
    }
}

/// Priority of a check, `P0` first.
#[derive(Debug, Clone, Copy, PartialEq, Eq, PartialOrd, Ord, Structural)]
pub enum Priority {
    P0,
    P1,
    P2,
}

/// The name shown for a priority.
pub open spec fn priority_name(p: Priority) -> Seq<char> {
    match p {
        Priority::P0 => "P0"@,
        Priority::P1 => "P1"@,
        Priority::P2 => "P2"@,
    }
}

impl Priority {
    /// The name shown for the priority.
    pub fn name(&self) -> (s: String)
        ensures
            s@ == priority_name(*self),
    {
        match self {
            Priority::P0 => to_string("P0"),
            Priority::P1 => to_string("P1"),
            Priority::P2 => to_string("P2"),
        }
    }
}

/// The outcome of one check.
#[derive(Debug)]
pub enum TestStatus {
    Pass,
    Fail(String),
    Skip(String),
    NotImplemented,
}

/// View of a [`TestStatus`].
pub enum StatusModel {
    Pass,
    Fail(Seq<char>),
    Skip(Seq<char>),
    NotImplemented,
}

impl View for TestStatus {
    type V = StatusModel;

    open spec fn view(&self) -> StatusModel {
        match self {
            TestStatus::Pass => StatusModel::Pass,
            TestStatus::Fail(s) => StatusModel::Fail(s@),
            TestStatus::Skip(s) => StatusModel::Skip(s@),
            TestStatus::NotImplemented => StatusModel::NotImplemented,
        }
    }
}

impl Clone for TestStatus {
    fn clone(&self) -> (r: TestStatus)
        ensures
            r@ == self@,
    {
        match self {
            TestStatus::Pass => TestStatus::Pass,
            TestStatus::Fail(s) => TestStatus::Fail(s.clone()),
            TestStatus::Skip(s) => TestStatus::Skip(s.clone()),
            TestStatus::NotImplemented => TestStatus::NotImplemented,
        }
    }
}

impl TestStatus {
    /// Whether the check passed.
    pub fn is_pass(&self) -> (b: bool)
        ensures
            b == (self@ is Pass),
    {
        match self {
            TestStatus::Pass => true,
            _ => false,
        }
    }

    /// Whether the check failed.
    pub fn is_fail(&self) -> (b: bool)
        ensures
            b == (self@ is Fail),
    {
        match self {
            TestStatus::Fail(_) => true,
            _ => false,
        }
    }
}

/// The function that performs a check. The library never calls it: what a
/// check returns is handed back to [`Harness::tally`] by whoever ran it.
#[verifier::external_body]
pub struct TestFn {
    pub f: Box<dyn Fn() -> TestStatus>,
}

impl TestFn {
    /// Wraps a check function (`Box::new`).
    #[verifier::external_body]
    pub fn new<F: Fn() -> TestStatus + 'static>(f: F) -> (t: TestFn) {
        TestFn { f: Box::new(f) }
    }
}

/// One registered compatibility check.
pub struct CompatTest {
    pub category: Category,
    pub name: String,
    pub description: String,
    pub sway_feature: String,
    pub priority: Priority,
    pub test_fn: TestFn,
}

/// The result of one check, as the report lists it.
#[derive(Debug)]
pub struct TestDetail {
    pub name: String,
    pub sway_feature: String,
    pub priority: Priority,
    pub status: TestStatus,
}

/// View of a [`TestDetail`].
pub struct DetailModel {
    pub name: Seq<char>,
    pub sway_feature: Seq<char>,
    pub priority: Priority,
    pub status: StatusModel,
}

impl View for TestDetail {
    type V = DetailModel;

    open spec fn view(&self) -> DetailModel {
        DetailModel {
            name: self.name@,
            sway_feature: self.sway_feature@,
            priority: self.priority,
            status: self.status@,
        }
    }
}

impl Clone for TestDetail {
    fn clone(&self) -> (r: TestDetail)
        ensures
            r@ == self@,
    {
        TestDetail {
            name: self.name.clone(),
            sway_feature: self.sway_feature.clone(),
            priority: self.priority,
            status: self.status.clone(),
        }
    }
}

/// The results of one category.
#[derive(Debug, Default)]
pub struct CategoryReport {
    pub passed: usize,
    pub failed: usize,
    pub skipped: usize,
    pub not_implemented: usize,
    pub details: Vec<TestDetail>,
}

impl CategoryReport {
    /// Number of checks of the category.
    pub fn total(&self) -> (t: usize)
        requires
            self.passed + self.failed + self.skipped + self.not_implemented <= usize::MAX,
        ensures
            t == self.passed + self.failed + self.skipped + self.not_implemented,
    {
        self.passed + self.failed + self.skipped + self.not_implemented
    }
}

/// The results of a run.
#[derive(Debug)]
pub struct CompatReport {
    pub total: usize,
    pub passed: usize,
    pub failed: usize,
    pub skipped: usize,
    pub not_implemented: usize,
    pub by_category: Vec<(Category, CategoryReport)>,
}

/// Registered checks, run in the order of registration.
pub struct Harness {
    tests: Vec<CompatTest>,
}

/// What the tally looks at of a check: its category, name, feature and priority.
pub struct TestInfo {
    pub category: Category,
    pub name: Seq<char>,
    pub sway_feature: Seq<char>,
    pub priority: Priority,
}

pub open spec fn info_of(t: CompatTest) -> TestInfo {
    TestInfo {
        category: t.category,
        name: t.name@,
        sway_feature: t.sway_feature@,
        priority: t.priority,
    }
}

/// How many statuses are of the kind `k` (0 pass, 1 fail, 2 skip, 3 not implemented).
pub open spec fn status_kind(s: StatusModel) -> int {
    match s {
        StatusModel::Pass => 0,
        StatusModel::Fail(_) => 1,
        StatusModel::Skip(_) => 2,
        StatusModel::NotImplemented => 3,
    }
}

pub open spec fn count_kind(st: Seq<StatusModel>, k: int) -> nat
    decreases st.len(),
{
    if st.len() == 0 {
        0
    } else {
        count_kind(st.drop_last(), k) + if status_kind(st.last()) == k {
            1nat
        } else {
            0nat
        }
    }
}

/// The details of the checks of category `c`, in order.
pub open spec fn details_in(infos: Seq<TestInfo>, st: Seq<StatusModel>, c: Category) -> Seq<
    DetailModel,
>
    decreases infos.len(),
{
    if infos.len() == 0 || st.len() != infos.len() {
        Seq::empty()
    } else {
        let rest = details_in(infos.drop_last(), st.drop_last(), c);
        let i = infos.last();
        if i.category == c {
            rest.push(
                DetailModel {
                    name: i.name,
                    sway_feature: i.sway_feature,
                    priority: i.priority,
                    status: st.last(),
                },
            )
        } else {
            rest
        }
    }
}

/// Counts of a list of details by status kind.
pub open spec fn detail_count(d: Seq<DetailModel>, k: int) -> nat {
    count_kind(d.map_values(|x: DetailModel| x.status), k)
}

/// A category's report: its details, and their counts by kind.
pub open spec fn category_report_ok(r: CategoryReport, d: Seq<DetailModel>) -> bool {
    &&& r.details@.map_values(|x: TestDetail| x@) == d
    &&& r.passed == detail_count(d, 0)
    &&& r.failed == detail_count(d, 1)
    &&& r.skipped == detail_count(d, 2)
    &&& r.not_implemented == detail_count(d, 3)
}

/// The categories, in report order, that have at least one check.
pub open spec fn used_categories(infos: Seq<TestInfo>, st: Seq<StatusModel>) -> Seq<Category> {
    all_categories().filter(has_details(infos, st))
}

/// Whether a category has checks in the run.
pub open spec fn has_details(infos: Seq<TestInfo>, st: Seq<StatusModel>) -> spec_fn(Category) -> bool {
    |c: Category| details_in(infos, st, c).len() > 0
}

/// The report of a run whose checks (`infos`) gave the statuses `st`: the
/// totals by kind, and for each category with checks, in report order, its
/// details and counts.
pub open spec fn report_ok(r: CompatReport, infos: Seq<TestInfo>, st: Seq<StatusModel>) -> bool {
    &&& st.len() == infos.len()
    &&& r.total == infos.len()
    &&& r.passed == count_kind(st, 0)
    &&& r.failed == count_kind(st, 1)
    &&& r.skipped == count_kind(st, 2)
    &&& r.not_implemented == count_kind(st, 3)
    &&& r.by_category@.map_values(|p: (Category, CategoryReport)| p.0) == used_categories(infos, st)
    &&& forall|j: int|
        0 <= j < r.by_category@.len() ==> category_report_ok(
            #[trigger] r.by_category@[j].1,
            details_in(infos, st, r.by_category@[j].0),
        )
}

/// Position of a category in report order.
pub open spec fn category_index(c: Category) -> int {
    match c {
        Category::Config => 0,
        Category::Ipc => 1,
        Category::Tiling => 2,
        Category::Window => 3,
        Category::Workspace => 4,
        Category::Input => 5,
        Category::Output => 6,
        Category::Appearance => 7,
    }
}

fn index_of_category(c: Category) -> (i: usize)
    ensures
        i == category_index(c),
        i < 8,
        all_categories()[i as int] == c,
{
    match c {
        Category::Config => 0,
        Category::Ipc => 1,
        Category::Tiling => 2,
        Category::Window => 3,
        Category::Workspace => 4,
        Category::Input => 5,
        Category::Output => 6,
        Category::Appearance => 7,
    }
}

/// Whether a check is run: all when no category is chosen.
pub open spec fn selected(t: CompatTest, only: Option<Category>) -> bool {
    match only {
        Some(c) => t.category == c,
        None => true,
    }
}

/// The checks that are run, in order.
pub open spec fn selected_infos(tests: Seq<CompatTest>, only: Option<Category>) -> Seq<TestInfo>
    decreases tests.len(),
{
    if tests.len() == 0 {
        Seq::empty()
    } else {
        let rest = selected_infos(tests.drop_last(), only);
        if selected(tests.last(), only) {
            rest.push(info_of(tests.last()))
        } else {
            rest
        }
    }
}

proof fn lemma_sel_mono(tests: Seq<CompatTest>, only: Option<Category>, k: int)
    requires
        0 <= k <= tests.len(),
    ensures
        selected_infos(tests.take(k), only).len() <= selected_infos(tests, only).len(),
    decreases tests.len() - k,
{
    if k < tests.len() {
        lemma_sel_mono(tests, only, k + 1);
        assert(tests.take(k + 1).drop_last() =~= tests.take(k));
    } else {
        assert(tests.take(k) =~= tests);
    }
}

proof fn lemma_selected_prefix_len(tests: Seq<CompatTest>, only: Option<Category>)
    ensures
        forall|k: int|
            0 <= k <= tests.len() ==> #[trigger] selected_infos(tests.take(k), only).len()
                <= selected_infos(tests, only).len(),
{
    assert forall|k: int| 0 <= k <= tests.len() implies #[trigger] selected_infos(tests.take(k), only).len()
        <= selected_infos(tests, only).len() by {
        lemma_sel_mono(tests, only, k);
    }
}

pub proof fn lemma_details_push(infos: Seq<TestInfo>, st: Seq<StatusModel>, i: TestInfo, s: StatusModel, c: Category)
    requires
        infos.len() == st.len(),
    ensures
        details_in(infos.push(i), st.push(s), c) == (if i.category == c {
            details_in(infos, st, c).push(
                DetailModel { name: i.name, sway_feature: i.sway_feature, priority: i.priority, status: s },
            )
        } else {
            details_in(infos, st, c)
        }),
{
    assert(infos.push(i).drop_last() =~= infos);
    assert(st.push(s).drop_last() =~= st);
}

pub proof fn lemma_count_push(st: Seq<StatusModel>, s: StatusModel, k: int)
    ensures
        count_kind(st.push(s), k) == count_kind(st, k) + if status_kind(s) == k {
            1nat
        } else {
            0nat
        },
{
    assert(st.push(s).drop_last() =~= st);
}

proof fn lemma_count_sum(st: Seq<StatusModel>)
    ensures
        count_kind(st, 0) + count_kind(st, 1) + count_kind(st, 2) + count_kind(st, 3) == st.len(),
    decreases st.len(),
{
    if st.len() > 0 {
        lemma_count_sum(st.drop_last());
    }
}

/// Every check of a run is counted once, by its status: the counts by
/// status add up to the total.
pub proof fn lemma_report_counts(r: CompatReport, infos: Seq<TestInfo>, st: Seq<StatusModel>)
    requires
        report_ok(r, infos, st),
    ensures
        r.passed + r.failed + r.skipped + r.not_implemented == r.total,
{
    lemma_count_sum(st);
}

/// Every category that a report lists has checks: its counts by status add
/// up to the number of its details, which is not zero.
pub proof fn lemma_report_entries_nonempty(r: CompatReport, infos: Seq<TestInfo>, st: Seq<StatusModel>)
    requires
        report_ok(r, infos, st),
    ensures
        forall|j: int|
            0 <= j < r.by_category@.len() ==> {
                let cr = #[trigger] r.by_category@[j].1;
                &&& cr.details@.len() > 0
                &&& cr.passed + cr.failed + cr.skipped + cr.not_implemented == cr.details@.len()
            },
{
    let pred = has_details(infos, st);
    #[allow(deprecated)]
    all_categories().filter_lemma(pred);
    assert forall|j: int| 0 <= j < r.by_category@.len() implies {
        let cr = #[trigger] r.by_category@[j].1;
        &&& cr.details@.len() > 0
        &&& cr.passed + cr.failed + cr.skipped + cr.not_implemented == cr.details@.len()
    } by {
        let cats = r.by_category@.map_values(|p: (Category, CategoryReport)| p.0);
        assert(cats[j] == r.by_category@[j].0);
        assert(pred(used_categories(infos, st)[j]));
        let cr = r.by_category@[j].1;
        let d = details_in(infos, st, r.by_category@[j].0);
        assert(category_report_ok(cr, d));
        lemma_count_sum(d.map_values(|x: DetailModel| x.status));
        assert(cr.details@.map_values(|x: TestDetail| x@).len() == cr.details@.len());
    }
}

proof fn lemma_select_all_len(tests: Seq<CompatTest>)
    ensures
        selected_infos(tests, None).len() == tests.len(),
    decreases tests.len(),
{
    if tests.len() > 0 {
        lemma_select_all_len(tests.drop_last());
    }
}

/// A category with checks in a run has its entry in the report, with the
/// details of its checks.
pub proof fn lemma_report_entry(r: CompatReport, infos: Seq<TestInfo>, st: Seq<StatusModel>, c: Category)
    requires
        report_ok(r, infos, st),
        details_in(infos, st, c).len() > 0,
    ensures
        exists|j: int|
            0 <= j < r.by_category@.len() && (#[trigger] r.by_category@[j]).0 == c
                && r.by_category@[j].1.details@.map_values(|x: TestDetail| x@) == details_in(infos, st, c),
{
    let pred = has_details(infos, st);
    let all = all_categories();
    assert(all[category_index(c)] == c);
    all.lemma_filter_contains(pred, category_index(c));
    let f = all.filter(pred);
    let j = choose|j: int| 0 <= j < f.len() && f[j] == c;
    let cats = r.by_category@.map_values(|p: (Category, CategoryReport)| p.0);
    assert(cats[j] == r.by_category@[j].0);
    assert(category_report_ok(r.by_category@[j].1, details_in(infos, st, r.by_category@[j].0)));
}

/// Registering a check and running them all: the report counts one check
/// more, and the details of the new check's category end with its own
/// result, after those the category had.
pub proof fn lemma_register_then_run(
    tests: Seq<CompatTest>,
    t: CompatTest,
    st: Seq<StatusModel>,
    s: StatusModel,
    r: CompatReport,
)
    requires
        st.len() == tests.len(),
        report_ok(r, selected_infos(tests.push(t), None), st.push(s)),
    ensures
        r.total == tests.len() + 1,
        exists|j: int|
            0 <= j < r.by_category@.len() && (#[trigger] r.by_category@[j]).0 == t.category
                && r.by_category@[j].1.details@.map_values(|x: TestDetail| x@) == details_in(
                selected_infos(tests, None),
                st,
                t.category,
            ).push(
                DetailModel {
                    name: t.name@,
                    sway_feature: t.sway_feature@,
                    priority: t.priority,
                    status: s,
                },
            ),
{
    lemma_select_all_len(tests);
    let infos = selected_infos(tests, None);
    assert(tests.push(t).drop_last() =~= tests);
    assert(selected_infos(tests.push(t), None) == infos.push(info_of(t)));
    lemma_details_push(infos, st, info_of(t), s, t.category);
    lemma_report_entry(r, infos.push(info_of(t)), st.push(s), t.category);
}

/// Measure `k` of some details: their number for 4, else how many are of
/// kind `k`.
pub open spec fn measure(d: Seq<DetailModel>, k: int) -> nat {
    if k == 4 {
        d.len()
    } else {
        detail_count(d, k)
    }
}

/// Measure `k` summed over the details of the categories `cs`.
pub open spec fn cat_sum(infos: Seq<TestInfo>, st: Seq<StatusModel>, cs: Seq<Category>, k: int) -> nat
    decreases cs.len(),
{
    if cs.len() == 0 {
        0
    } else {
        cat_sum(infos, st, cs.drop_last(), k) + measure(details_in(infos, st, cs.last()), k)
    }
}

/// Field `k` of a category report: its details' number for 4, else its
/// count of kind `k`.
pub open spec fn entry_field(r: CategoryReport, k: int) -> nat {
    if k == 0 {
        r.passed as nat
    } else if k == 1 {
        r.failed as nat
    } else if k == 2 {
        r.skipped as nat
    } else if k == 3 {
        r.not_implemented as nat
    } else {
        r.details@.len()
    }
}

/// Field `k` summed over report entries.
pub open spec fn entries_sum(entries: Seq<(Category, CategoryReport)>, k: int) -> nat
    decreases entries.len(),
{
    if entries.len() == 0 {
        0
    } else {
        entries_sum(entries.drop_last(), k) + entry_field(entries.last().1, k)
    }
}

proof fn lemma_measure_push(d: Seq<DetailModel>, x: DetailModel, k: int)
    ensures
        measure(d.push(x), k) == measure(d, k) + if k == 4 || status_kind(x.status) == k {
            1nat
        } else {
            0nat
        },
{
    let m = d.map_values(|y: DetailModel| y.status);
    assert(d.push(x).map_values(|y: DetailModel| y.status) =~= m.push(x.status));
    lemma_count_push(m, x.status, k);
}

proof fn lemma_cat_sum_push(infos: Seq<TestInfo>, st: Seq<StatusModel>, i: TestInfo, s: StatusModel, cs: Seq<Category>, k: int)
    requires
        infos.len() == st.len(),
    ensures
        cat_sum(infos.push(i), st.push(s), cs, k) == cat_sum(infos, st, cs, k) + if (k == 4 || status_kind(s) == k) {
            cs.filter(|c: Category| c == i.category).len()
        } else {
            0
        },
    decreases cs.len(),
{
    reveal(Seq::filter);
    if cs.len() > 0 {
        lemma_cat_sum_push(infos, st, i, s, cs.drop_last(), k);
        let c = cs.last();
        lemma_details_push(infos, st, i, s, c);
        if i.category == c {
            lemma_measure_push(
                details_in(infos, st, c),
                DetailModel { name: i.name, sway_feature: i.sway_feature, priority: i.priority, status: s },
                k,
            );
        }
    }
}

proof fn lemma_cat_sum_all(infos: Seq<TestInfo>, st: Seq<StatusModel>, k: int)
    requires
        infos.len() == st.len(),
        0 <= k <= 4,
    ensures
        cat_sum(infos, st, all_categories(), k) == if k == 4 {
            infos.len()
        } else {
            count_kind(st, k)
        },
    decreases infos.len(),
{
    reveal_with_fuel(cat_sum, 9);
    if infos.len() > 0 {
        let i0 = infos.drop_last();
        let s0 = st.drop_last();
        lemma_cat_sum_all(i0, s0, k);
        assert(i0.push(infos.last()) =~= infos);
        assert(s0.push(st.last()) =~= st);
        lemma_cat_sum_push(i0, s0, infos.last(), st.last(), all_categories(), k);
        reveal_with_fuel(Seq::filter, 9);
        assert(all_categories().filter(|c: Category| c == infos.last().category).len() == 1);
        lemma_count_push(s0, st.last(), k);
    } else {
        assert(details_in(infos, st, Category::Config).len() == 0);
    }
}

proof fn lemma_cat_sum_filter(infos: Seq<TestInfo>, st: Seq<StatusModel>, cs: Seq<Category>, k: int)
    ensures
        cat_sum(infos, st, cs.filter(has_details(infos, st)), k) == cat_sum(infos, st, cs, k),
    decreases cs.len(),
{
    reveal(Seq::filter);
    if cs.len() > 0 {
        lemma_cat_sum_filter(infos, st, cs.drop_last(), k);
        let c = cs.last();
        let pred = has_details(infos, st);
        if pred(c) {
            assert(cs.filter(pred) == cs.drop_last().filter(pred).push(c));
            assert(cs.filter(pred).drop_last() =~= cs.drop_last().filter(pred));
        } else {
            assert(cs.filter(pred) == cs.drop_last().filter(pred));
            assert(details_in(infos, st, c).map_values(|x: DetailModel| x.status) =~= Seq::<StatusModel>::empty());
        }
    }
}

proof fn lemma_entries_sum(
    entries: Seq<(Category, CategoryReport)>,
    infos: Seq<TestInfo>,
    st: Seq<StatusModel>,
    k: int,
)
    requires
        0 <= k <= 4,
        forall|j: int|
            0 <= j < entries.len() ==> category_report_ok(
                #[trigger] entries[j].1,
                details_in(infos, st, entries[j].0),
            ),
    ensures
        entries_sum(entries, k) == cat_sum(
            infos,
            st,
            entries.map_values(|p: (Category, CategoryReport)| p.0),
            k,
        ),
    decreases entries.len(),
{
    if entries.len() > 0 {
        let e0 = entries.drop_last();
        assert forall|j: int| 0 <= j < e0.len() implies category_report_ok(
            #[trigger] e0[j].1,
            details_in(infos, st, e0[j].0),
        ) by {
            assert(e0[j] == entries[j]);
        }
        lemma_entries_sum(e0, infos, st, k);
        let cats = entries.map_values(|p: (Category, CategoryReport)| p.0);
        assert(cats.drop_last() =~= e0.map_values(|p: (Category, CategoryReport)| p.0));
        let last = entries.last();
        assert(category_report_ok(entries[entries.len() - 1].1, details_in(infos, st, entries[entries.len() - 1].0)));
        assert(last.1.details@.map_values(|x: TestDetail| x@).len() == last.1.details@.len());
        let d = details_in(infos, st, last.0);
        assert(cats.last() == last.0);
        assert(entry_field(last.1, k) == measure(d, k));
        assert(cat_sum(infos, st, cats, k) == cat_sum(infos, st, cats.drop_last(), k) + measure(d, k));
    } else {
        assert(entries.map_values(|p: (Category, CategoryReport)| p.0).len() == 0);
    }
}

/// A report's totals are the sums over its category entries: its number of
/// checks is the sum of their numbers of details, and each count by status
/// the sum of their counts.
pub proof fn lemma_report_sums(r: CompatReport, infos: Seq<TestInfo>, st: Seq<StatusModel>)
    requires
        report_ok(r, infos, st),
    ensures
        r.total == entries_sum(r.by_category@, 4),
        r.passed == entries_sum(r.by_category@, 0),
        r.failed == entries_sum(r.by_category@, 1),
        r.skipped == entries_sum(r.by_category@, 2),
        r.not_implemented == entries_sum(r.by_category@, 3),
{
    assert forall|k: int| 0 <= k <= 4 implies #[trigger] entries_sum(r.by_category@, k) == if k == 4 {
        infos.len()
    } else {
        count_kind(st, k)
    } by {
        lemma_entries_sum(r.by_category@, infos, st, k);
        lemma_cat_sum_filter(infos, st, all_categories(), k);
        lemma_cat_sum_all(infos, st, k);
    }
    assert(entries_sum(r.by_category@, 0) == count_kind(st, 0));
    assert(entries_sum(r.by_category@, 1) == count_kind(st, 1));
    assert(entries_sum(r.by_category@, 2) == count_kind(st, 2));
    assert(entries_sum(r.by_category@, 3) == count_kind(st, 3));
    assert(entries_sum(r.by_category@, 4) == infos.len());
}

/// The statuses of the checks of category `c`, in order, out of the
/// statuses `st` of a run of all the checks.
pub open spec fn statuses_of(tests: Seq<CompatTest>, st: Seq<StatusModel>, c: Category) -> Seq<StatusModel>
    decreases tests.len(),
{
    if tests.len() == 0 || st.len() != tests.len() {
        Seq::empty()
    } else {
        let rest = statuses_of(tests.drop_last(), st.drop_last(), c);
        if tests.last().category == c {
            rest.push(st.last())
        } else {
            rest
        }
    }
}

proof fn lemma_statuses_of(tests: Seq<CompatTest>, st: Seq<StatusModel>, c: Category)
    requires
        st.len() == tests.len(),
    ensures
        ({
            let ic = selected_infos(tests, Some(c));
            let sc = statuses_of(tests, st, c);
            let dc = details_in(selected_infos(tests, None), st, c);
            &&& ic.len() == sc.len()
            &&& sc.len() == dc.len()
            &&& details_in(ic, sc, c) == dc
            &&& forall|c2: Category| c2 != c ==> (#[trigger] details_in(ic, sc, c2)).len() == 0
            &&& sc == dc.map_values(|x: DetailModel| x.status)
        }),
    decreases tests.len(),
{
    lemma_select_all_len(tests);
    if tests.len() > 0 {
        let t0 = tests.drop_last();
        let s0 = st.drop_last();
        lemma_statuses_of(t0, s0, c);
        lemma_select_all_len(t0);
        let t = tests.last();
        let s = st.last();
        assert(t0.push(t) =~= tests);
        assert(s0.push(s) =~= st);
        let ia = selected_infos(t0, None);
        let ic = selected_infos(t0, Some(c));
        let sc = statuses_of(t0, s0, c);
        lemma_details_push(ia, s0, info_of(t), s, c);
        if t.category == c {
            assert forall|c2: Category| c2 != c implies (#[trigger] details_in(
                selected_infos(tests, Some(c)),
                statuses_of(tests, st, c),
                c2,
            )).len() == 0 by {
                lemma_details_push(ic, sc, info_of(t), s, c2);
            }
            lemma_details_push(ic, sc, info_of(t), s, c);
            let dc0 = details_in(ia, s0, c);
            let x = DetailModel { name: t.name@, sway_feature: t.sway_feature@, priority: t.priority, status: s };
            assert(dc0.push(x).map_values(|y: DetailModel| y.status) =~= dc0.map_values(|y: DetailModel| y.status).push(s));
        }
    } else {
        assert forall|c2: Category| c2 != c implies (#[trigger] details_in(
            selected_infos(tests, Some(c)),
            statuses_of(tests, st, c),
            c2,
        )).len() == 0 by {}
        assert(details_in(selected_infos(tests, None), st, c).map_values(|x: DetailModel| x.status) =~= Seq::<StatusModel>::empty());
    }
}

/// A run of one category reports what a run of all the checks reports of
/// it, when its checks return what they returned in that run: the same
/// details, counts and total, under a single entry (none when the
/// category has no checks).
pub proof fn lemma_category_run_matches(
    tests: Seq<CompatTest>,
    st: Seq<StatusModel>,
    c: Category,
    r: CompatReport,
    rc: CompatReport,
)
    requires
        st.len() == tests.len(),
        report_ok(r, selected_infos(tests, None), st),
        report_ok(rc, selected_infos(tests, Some(c)), statuses_of(tests, st, c)),
    ensures
        ({
            let dc = details_in(selected_infos(tests, None), st, c);
            &&& rc.total == dc.len()
            &&& rc.passed == detail_count(dc, 0)
            &&& rc.failed == detail_count(dc, 1)
            &&& rc.skipped == detail_count(dc, 2)
            &&& rc.not_implemented == detail_count(dc, 3)
            &&& dc.len() == 0 ==> rc.by_category@.len() == 0
            &&& dc.len() > 0 ==> {
                &&& rc.by_category@.len() == 1
                &&& rc.by_category@[0].0 == c
                &&& rc.by_category@[0].1.details@.map_values(|x: TestDetail| x@) == dc
                &&& exists|j: int|
                    0 <= j < r.by_category@.len() && (#[trigger] r.by_category@[j]).0 == c
                        && r.by_category@[j].1.details@.map_values(|x: TestDetail| x@) == dc
            }
        }),
{
    lemma_statuses_of(tests, st, c);
    let ic = selected_infos(tests, Some(c));
    let sc = statuses_of(tests, st, c);
    let dc = details_in(selected_infos(tests, None), st, c);
    let pred = has_details(ic, sc);
    let all = all_categories();
    #[allow(deprecated)]
    all.filter_lemma(pred);
    let f = all.filter(pred);
    assert forall|q: int| 0 <= q < f.len() implies #[trigger] f[q] == c by {
        assert(pred(f[q]));
    }
    if dc.len() > 0 {
        lemma_report_entry(r, selected_infos(tests, None), st, c);
        assert(all[category_index(c)] == c);
        all.lemma_filter_contains(pred, category_index(c));
        reveal_with_fuel(Seq::filter, 9);
        assert(f.len() == 1);
        let cats = rc.by_category@.map_values(|p: (Category, CategoryReport)| p.0);
        assert(cats[0] == rc.by_category@[0].0);
    } else {
        assert forall|q: int| 0 <= q < all.len() implies !pred(#[trigger] all[q]) by {
            if all[q] != c {
                assert(details_in(ic, sc, all[q]).len() == 0);
            }
        }
        reveal_with_fuel(Seq::filter, 9);
        assert(f.len() == 0);
    }
}

pub proof fn lemma_count_bound(st: Seq<StatusModel>, k: int)
    ensures
        count_kind(st, k) <= st.len(),
    decreases st.len(),
{
    if st.len() > 0 {
        lemma_count_bound(st.drop_last(), k);
    }
}

impl Harness {
    /// A harness with no checks.
    pub fn new() -> (h: Harness)
        ensures
            h.tests().len() == 0,
    {
        Harness { tests: Vec::new() }
    }

    /// The registered checks, in order.
    pub closed spec fn tests(&self) -> Seq<CompatTest> {
        self.tests@
    }

    /// Adds a check after those registered.
    pub fn register(&mut self, test: CompatTest)
        ensures
            final(self).tests() == old(self).tests().push(test),
    {
        self.tests.push(test);
    }

    /// The registered checks, in order.
    pub fn test_list(&self) -> (r: &Vec<CompatTest>)
        ensures
            r@ == self.tests(),
    {
        &self.tests
    }

    /// Whether a check of category `c` is run when running `only` (every
    /// category for `None`).
    pub fn selects(only: Option<Category>, c: Category) -> (b: bool)
        ensures
            b == match only {
                Some(k) => c == k,
                None => true,
            },
    {
        match only {
            Some(k) => c == k,
            None => true,
        }
    }

    /// How many checks running `only` runs.
    pub fn selected_count(&self, only: Option<Category>) -> (n: usize)
        ensures
            n == selected_infos(self.tests(), only).len(),
    {
        let mut n: usize = 0;
        let mut i: usize = 0;
        while i < self.tests.len()
            invariant
                i <= self.tests@.len(),
                n == selected_infos(self.tests@.take(i as int), only).len(),
                n <= i,
            decreases self.tests@.len() - i,
        {
            assert(self.tests@.take(i + 1).drop_last() =~= self.tests@.take(i as int));
            if Harness::selects(only, self.tests[i].category) {
                n = n + 1;
            }
            i = i + 1;
        }
        assert(self.tests@.take(i as int) =~= self.tests@);
        n
    }

    /// The report of a run of the checks of `only` (every category for
    /// `None`), given what each of them returned: `statuses` holds the
    /// statuses of the selected checks, in order of registration.
    pub fn tally(&self, statuses: &Vec<TestStatus>, only: Option<Category>) -> (r: CompatReport)
        requires
            statuses@.len() == selected_infos(self.tests(), only).len(),
        ensures
            report_ok(r, selected_infos(self.tests(), only), statuses@.map_values(|s: TestStatus| s@)),
    {
        let ghost sv_all = statuses@.map_values(|s: TestStatus| s@);
        proof {
            lemma_selected_prefix_len(self.tests@, only);
        }
        let cats = Category::all();
        let mut by_cat: Vec<(Category, CategoryReport)> = Vec::new();
        let mut j: usize = 0;
        while j < 8
            invariant
                0 <= j <= 8,
                cats@ == all_categories(),
                by_cat@.len() == j,
                forall|m: int| 0 <= m < j ==> (#[trigger] by_cat@[m]).0 == all_categories()[m]
                    && category_report_ok(by_cat@[m].1, Seq::empty()),
            decreases 8 - j,
        {
            let rep = CategoryReport {
                passed: 0,
                failed: 0,
                skipped: 0,
                not_implemented: 0,
                details: Vec::new(),
            };
            assert(rep.details@.map_values(|x: TestDetail| x@) =~= Seq::<DetailModel>::empty());
            by_cat.push((cats[j], rep));
            j = j + 1;
        }
        let ghost mut infos: Seq<TestInfo> = Seq::empty();
        let ghost mut st: Seq<StatusModel> = Seq::empty();
        let mut total: usize = 0;
        let mut passed: usize = 0;
        let mut failed: usize = 0;
        let mut skipped: usize = 0;
        let mut not_implemented: usize = 0;
        let mut i: usize = 0;
        while i < self.tests.len()
            invariant
                0 <= i <= self.tests@.len(),
                infos == selected_infos(self.tests@.take(i as int), only),
                infos.len() == st.len(),
                st == sv_all.take(infos.len() as int),
                sv_all == statuses@.map_values(|s: TestStatus| s@),
                statuses@.len() == selected_infos(self.tests@, only).len(),
                forall|k: int| 0 <= k <= self.tests@.len() ==> #[trigger] selected_infos(self.tests@.take(k), only).len()
                    <= selected_infos(self.tests@, only).len(),
                total == infos.len(),
                total <= i,
                passed == count_kind(st, 0),
                failed == count_kind(st, 1),
                skipped == count_kind(st, 2),
                not_implemented == count_kind(st, 3),
                by_cat@.len() == 8,
                forall|m: int| 0 <= m < 8 ==> (#[trigger] by_cat@[m]).0 == all_categories()[m]
                    && category_report_ok(by_cat@[m].1, details_in(infos, st, all_categories()[m])),
                forall|m: int| 0 <= m < 8 ==> (#[trigger] by_cat@[m]).1.details@.len() <= i,
            decreases self.tests@.len() - i,
        {
            let t = &self.tests[i];
            assert(self.tests@.take(i + 1).drop_last() =~= self.tests@.take(i as int));
            let is_sel = match only {
                Some(c) => t.category == c,
                None => true,
            };
            if is_sel {
                proof {
                    assert(selected_infos(self.tests@.take(i + 1), only).len() == infos.len() + 1);
                }
                let status = statuses[total].clone();
                let ghost sv = status@;
                let ghost info = info_of(*t);
                proof {
                    lemma_count_bound(st, 0);
                    lemma_count_bound(st, 1);
                    lemma_count_bound(st, 2);
                    lemma_count_bound(st, 3);
                    lemma_count_push(st, sv, 0);
                    lemma_count_push(st, sv, 1);
                    lemma_count_push(st, sv, 2);
                    lemma_count_push(st, sv, 3);
                }
                total = total + 1;
                match &status {
                    TestStatus::Pass => passed = passed + 1,
                    TestStatus::Fail(_) => failed = failed + 1,
                    TestStatus::Skip(_) => skipped = skipped + 1,
                    TestStatus::NotImplemented => not_implemented = not_implemented + 1,
                }
                let detail = TestDetail {
                    name: t.name.clone(),
                    sway_feature: t.sway_feature.clone(),
                    priority: t.priority,
                    status,
                };
                let idx = index_of_category(t.category);
                let ghost old_by = by_cat@;
                let ghost old_d = details_in(infos, st, t.category);
                assert(by_cat@[idx as int].1.details@.len() <= i);
                proof {
                    lemma_details_push(infos, st, info, sv, t.category);
                    assert(old_d.map_values(|x: DetailModel| x.status).len() == old_d.len());
                    lemma_count_bound(old_d.map_values(|x: DetailModel| x.status), 0);
                    lemma_count_bound(old_d.map_values(|x: DetailModel| x.status), 1);
                    lemma_count_bound(old_d.map_values(|x: DetailModel| x.status), 2);
                    lemma_count_bound(old_d.map_values(|x: DetailModel| x.status), 3);
                    assert(by_cat@[idx as int].1.details@.map_values(|x: TestDetail| x@).len() == by_cat@[idx as int].1.details@.len());
                }
                let entry = &mut by_cat[idx];
                let ghost old_details = entry.1.details@;
                match &detail.status {
                    TestStatus::Pass => entry.1.passed = entry.1.passed + 1,
                    TestStatus::Fail(_) => entry.1.failed = entry.1.failed + 1,
                    TestStatus::Skip(_) => entry.1.skipped = entry.1.skipped + 1,
                    TestStatus::NotImplemented => entry.1.not_implemented = entry.1.not_implemented + 1,
                }
                entry.1.details.push(detail);
                proof {
                    let nd = old_d.push(DetailModel { name: info.name, sway_feature: info.sway_feature, priority: info.priority, status: sv });
                    assert(nd.map_values(|x: DetailModel| x.status) =~= old_d.map_values(|x: DetailModel| x.status).push(sv));
                    lemma_count_push(old_d.map_values(|x: DetailModel| x.status), sv, 0);
                    lemma_count_push(old_d.map_values(|x: DetailModel| x.status), sv, 1);
                    lemma_count_push(old_d.map_values(|x: DetailModel| x.status), sv, 2);
                    lemma_count_push(old_d.map_values(|x: DetailModel| x.status), sv, 3);
                    assert(by_cat@[idx as int].1.details@.map_values(|x: TestDetail| x@) =~= nd);
                    let infos0 = infos;
                    let st0 = st;
                    infos = infos.push(info);
                    st = st.push(sv);
                    assert(st =~= sv_all.take(infos.len() as int));
                    assert forall|m: int| 0 <= m < 8 implies (#[trigger] by_cat@[m]).0 == all_categories()[m]
                        && category_report_ok(by_cat@[m].1, details_in(infos, st, all_categories()[m])) by {
                        lemma_details_push(infos0, st0, info, sv, all_categories()[m]);
                        if m != idx {
                            assert(by_cat@[m] == old_by[m]);
                        }
                    }
                }
            }
            i = i + 1;
        }
        assert(self.tests@.take(i as int) =~= self.tests@);
        let ghost pred = has_details(infos, st);
        let mut used: Vec<(Category, CategoryReport)> = Vec::new();
        let ghost full = by_cat@;
        let mut m: usize = 0;
        assert(all_categories().take(0) =~= Seq::<Category>::empty());
        assert(Seq::<Category>::empty().filter(pred) =~= Seq::<Category>::empty()) by {
            reveal(Seq::filter);
        }
        assert(used@.map_values(|q: (Category, CategoryReport)| q.0) =~= Seq::<Category>::empty());
        while m < 8
            invariant
                0 <= m <= 8,
                pred == has_details(infos, st),
                full.len() == 8,
                by_cat@ == full.skip(m as int),
                forall|q: int| 0 <= q < 8 ==> (#[trigger] full[q]).0 == all_categories()[q]
                    && category_report_ok(full[q].1, details_in(infos, st, all_categories()[q])),
                used@.map_values(|q: (Category, CategoryReport)| q.0) == all_categories().take(m as int).filter(pred),
                forall|q: int| 0 <= q < used@.len() ==> category_report_ok(
                    #[trigger] used@[q].1,
                    details_in(infos, st, used@[q].0),
                ),
            decreases 8 - m,
        {
            assert(by_cat@[0] == full[m as int]);
            let entry = by_cat.remove(0);
            assert(by_cat@ =~= full.skip(m + 1));
            let ghost c = all_categories()[m as int];
            assert(all_categories().take(m + 1) =~= all_categories().take(m as int).push(c));
            proof {
                all_categories().take(m as int).lemma_filter_push(c, pred);
            }
            assert(entry.1.details@.map_values(|x: TestDetail| x@).len() == entry.1.details@.len());
            assert(pred(c) == (details_in(infos, st, c).len() > 0));
            if entry.1.details.len() > 0 {
                let ghost before = used@.map_values(|q: (Category, CategoryReport)| q.0);
                used.push(entry);
                assert(used@.map_values(|q: (Category, CategoryReport)| q.0) =~= before.push(c));
            }
            m = m + 1;
        }
        assert(all_categories().take(8) =~= all_categories());
        let r = CompatReport { total, passed, failed, skipped, not_implemented, by_category: used };
        assert(r.by_category@.map_values(|p: (Category, CategoryReport)| p.0) == used_categories(infos, st));
        assert(report_ok(r, infos, st));
        assert(infos == selected_infos(self.tests(), only));
        assert(st =~= sv_all);
        r
    }
}

} // verus!
