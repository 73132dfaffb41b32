//! The built-in compatibility checks, one module per category, and what
//! registering them adds to a harness.

pub mod config;
pub mod ipc;
pub mod tiling;
pub mod window;
pub mod workspace;
pub mod input;
pub mod output;
pub mod appearance;

use super::suite::{info_of, Category, CompatTest, Harness, Priority, TestFn, TestInfo, TestStatus};
use crate::config::parser::{spec_parse, try_parse};
use crate::config::types::{opt_view, settings_view, Config, ConfigModel, Modifier};
use crate::text::{str_eq, to_string};
use crate::tiling::commands::insert_window;
use crate::tiling::layout::{compute_layout, get_window_geometries};
use crate::tiling::tree::{GapsConfig, Layout, NodeId, Rect, Tree};
use crate::tiling::workspace::{add_output, add_workspace};
use vstd::hash_map::StringHashMap;
use vstd::prelude::*;

verus! {

/// The built-in checks whose work stands outside the library (JSON
/// encoding, floating point, moves whose room cannot be decided
/// beforehand), by category.
pub struct OuterChecks {
    pub ipc: ipc::IpcJsonChecks,
    pub tiling: tiling::TilingOuterChecks,
    pub window: window::WindowOuterChecks,
    pub workspace: workspace::WorkspaceOuterChecks,
    pub output: output::OutputJsonChecks,
}

/// All the built-in checks, in the order that [`Harness::register_all`]
/// adds them: configuration, IPC, tiling, windows, workspaces, input,
/// outputs and appearance.
pub open spec fn all_checks() -> Seq<TestInfo> {
    config::config_checks() + ipc::ipc_checks() + tiling::tiling_checks() + window::window_checks()
        + workspace::workspace_checks() + input::input_checks() + output::output_checks()
        + appearance::appearance_checks()
}

impl Harness {
    /// Registers all the built-in checks after those the harness holds.
    pub fn register_all(&mut self, outer: OuterChecks)
        ensures
            infos(final(self).tests()) == infos(old(self).tests()) + all_checks(),
    {
        let ghost s0 = infos(self.tests());
        let OuterChecks {
            ipc: ipc_json,
            tiling: tiling_outer,
            window: window_outer,
            workspace: workspace_outer,
            output: output_json,
        } = outer;
        config::register(self);
        ipc::register(self, ipc_json);
        tiling::register(self, tiling_outer);
        window::register(self, window_outer);
        workspace::register(self, workspace_outer);
        input::register(self);
        output::register(self, output_json);
        appearance::register(self);
        assert(infos(self.tests()) =~= s0 + all_checks());
    }
}

/// What the harness records of its checks: their category, name, feature and
/// priority, in order.
pub open spec fn infos(tests: Seq<CompatTest>) -> Seq<TestInfo> {
    tests.map_values(|t: CompatTest| info_of(t))
}

/// The record of one check.
pub open spec fn check(c: Category, name: Seq<char>, feature: Seq<char>, p: Priority) -> TestInfo {
    TestInfo { category: c, name, sway_feature: feature, priority: p }
}

/// Registers one check.
pub fn reg<F: Fn() -> TestStatus + 'static>(
    harness: &mut Harness,
    category: Category,
    name: &str,
    description: &str,
    sway_feature: &str,
    priority: Priority,
    f: F,
)
    ensures
        infos(final(harness).tests()) == infos(old(harness).tests()).push(
            check(category, name@, sway_feature@, priority),
        ),
{
    let test = CompatTest {
        category,
        name: to_string(name),
        description: to_string(description),
        sway_feature: to_string(sway_feature),
        priority,
        test_fn: TestFn::new(f),
    };
    harness.register(test);
    assert(infos(harness.tests()) =~= infos(old(harness).tests()).push(
        check(category, name@, sway_feature@, priority),
    ));
}

/// Registers one check whose function is given already wrapped.
pub fn reg_fn(
    harness: &mut Harness,
    category: Category,
    name: &str,
    description: &str,
    sway_feature: &str,
    priority: Priority,
    test_fn: TestFn,
)
    ensures
        infos(final(harness).tests()) == infos(old(harness).tests()).push(
            check(category, name@, sway_feature@, priority),
        ),
{
    let test = CompatTest {
        category,
        name: to_string(name),
        description: to_string(description),
        sway_feature: to_string(sway_feature),
        priority,
        test_fn,
    };
    harness.register(test);
    assert(infos(harness.tests()) =~= infos(old(harness).tests()).push(
        check(category, name@, sway_feature@, priority),
    ));
}

/// The configuration that a text reads as, where it reads without error.
pub open spec fn parsed_config(text: Seq<char>) -> Option<ConfigModel> {
    if text.len() < usize::MAX {
        match spec_parse(text) {
            Some(Ok(m)) => Some(m),
            _ => None,
        }
    } else {
        None
    }
}

/// Parses a configuration text; `None` where it does not read without error.
pub fn parsed(text: &str) -> (r: Option<Config>)
    ensures
        match r {
            Some(c) => parsed_config(text@) == Some(c@),
            None => parsed_config(text@) is None,
        },
{
    let chars = crate::text::chars_of(text);
    if chars.len() == usize::MAX {
        return None;
    }
    match try_parse(text) {
        Some(Ok(c)) => Some(c),
        _ => None,
    }
}

/// A passing status where `ok`, else a failure with `reason`.
pub fn verdict(ok: bool, reason: &str) -> (s: TestStatus)
    ensures
        ok ==> s@ is Pass,
        !ok ==> s@ == super::suite::StatusModel::Fail(reason@),
{
    if ok {
        TestStatus::Pass
    } else {
        TestStatus::Fail(to_string(reason))
    }
}

/// The failure of a check whose configuration text did not read.
pub fn unparsed() -> (s: TestStatus)
    ensures
        s@ is Fail,
{
    TestStatus::Fail(to_string("parse error"))
}

/// Whether some item of `v` satisfies `pred`, a test that decides `q` of
/// the item's image under `f`.
pub fn any<T, M, F: Fn(&T) -> bool>(
    v: &Vec<T>,
    pred: F,
    Ghost(f): Ghost<spec_fn(T) -> M>,
    Ghost(q): Ghost<spec_fn(M) -> bool>,
) -> (r: bool)
    requires
        forall|x: &T| #[trigger] call_requires(pred, (x,)),
        forall|x: &T, b: bool| #[trigger] call_ensures(pred, (x,), b) ==> b == q(f(*x)),
    ensures
        r == exists|i: int| 0 <= i < v.len() && q(f(v@[i])),
{
    let mut i: usize = 0;
    while i < v.len()
        invariant
            i <= v.len(),
            forall|x: &T| #[trigger] call_requires(pred, (x,)),
            forall|x: &T, b: bool| #[trigger] call_ensures(pred, (x,), b) ==> b == q(f(*x)),
            forall|j: int| 0 <= j < i ==> !q(f(v@[j])),
        decreases v.len() - i,
    {
        if pred(&v[i]) {
            return true;
        }
        i = i + 1;
    }
    false
}

/// Some item of `v` has an image under `f` that satisfies `q` exactly when
/// some item of `m`, the images of `v`, does.
pub proof fn lemma_exists_image<T, M>(v: Seq<T>, m: Seq<M>, f: spec_fn(T) -> M, q: spec_fn(M) -> bool)
    requires
        m.len() == v.len(),
        forall|i: int| 0 <= i < v.len() ==> m[i] == f(v[i]),
    ensures
        (exists|i: int| 0 <= i < v.len() && q(f(v[i]))) == (exists|i: int| 0 <= i < m.len() && q(m[i])),
{
    if exists|i: int| 0 <= i < m.len() && q(m[i]) {
        let i = choose|i: int| 0 <= i < m.len() && q(m[i]);
        assert(q(f(v[i])));
    }
    if exists|i: int| 0 <= i < v.len() && q(f(v[i])) {
        let i = choose|i: int| 0 <= i < v.len() && q(f(v[i]));
        assert(q(m[i]));
    }
}

/// Whether `v` holds `m`.
pub fn has_modifier(v: &Vec<Modifier>, m: Modifier) -> (b: bool)
    ensures
        b == v@.contains(m),
{
    let mut i: usize = 0;
    while i < v.len()
        invariant
            i <= v.len(),
            forall|j: int| 0 <= j < i ==> v@[j] != m,
        decreases v.len() - i,
    {
        if v[i] == m {
            return true;
        }
        i = i + 1;
    }
    false
}

/// Whether some string of `v` is `s`.
pub fn has_string(v: &Vec<String>, s: &str) -> (b: bool)
    ensures
        b == exists|i: int| 0 <= i < v.len() && v@[i]@ == s@,
{
    let mut i: usize = 0;
    while i < v.len()
        invariant
            i <= v.len(),
            forall|j: int| 0 <= j < i ==> v@[j]@ != s@,
        decreases v.len() - i,
    {
        if str_eq(v[i].as_str(), s) {
            return true;
        }
        i = i + 1;
    }
    false
}

/// Whether the setting `k` of a device or seat is `v`.
pub fn setting_is(settings: &StringHashMap<String>, k: &str, v: &str) -> (b: bool)
    ensures
        b == (settings_view(*settings).contains_key(k@) && settings_view(*settings)[k@] == v@),
{
    match settings.get(k) {
        Some(s) => str_eq(s.as_str(), v),
        None => false,
    }
}

/// A failed check with `reason`.
pub fn fail(reason: &str) -> (s: TestStatus)
    ensures
        s@ == super::suite::StatusModel::Fail(reason@),
{
    TestStatus::Fail(to_string(reason))
}

/// A tree with one 1920x1080 output `eDP-1` that holds workspace `1`.
pub fn workspace_tree() -> (r: Option<Tree>)
    ensures
        r matches Some(t) ==> t.wf(),
{
    let mut tree = Tree::new();
    if !tree.has_room(2) {
        return None;
    }
    let out = add_output(&mut tree, "eDP-1", Rect::new(0, 0, 1920, 1080));
    add_workspace(&mut tree, out, "1");
    Some(tree)
}

/// Inserts window `id` where insertion goes (see `Tree::insert_window`),
/// where the tree allows it; says whether it did.
pub fn try_insert(tree: &mut Tree, id: u64) -> (r: Option<NodeId>)
    requires
        old(tree).wf(),
    ensures
        final(tree).wf(),
        r is None ==> *final(tree) == *old(tree),
        r matches Some(w) ==> final(tree).inserted(old(tree), old(tree).insert_root(), Layout::SplitH, w, id),
{
    if tree.can_insert(Layout::SplitH) {
        Some(insert_window(tree, id))
    } else {
        None
    }
}

/// Inserts windows `ids` in turn; false where one could not be inserted.
pub fn insert_all(tree: &mut Tree, ids: &[u64]) -> (ok: bool)
    requires
        old(tree).wf(),
    ensures
        final(tree).wf(),
{
    let mut i: usize = 0;
    while i < ids.len()
        invariant
            tree.wf(),
        decreases ids.len() - i,
    {
        if try_insert(tree, ids[i]).is_none() {
            return false;
        }
        i = i + 1;
    }
    true
}

/// Lays the whole tree out on a 1920x1080 screen without gaps and gives the
/// window geometries.
pub fn laid_out(tree: &mut Tree) -> (r: Vec<(u64, Rect)>)
    requires
        old(tree).wf(),
    ensures
        final(tree).wf(),
{
    let root = tree.root();
    let gaps = GapsConfig { inner: 0, outer: 0 };
    compute_layout(tree, root, Rect::new(0, 0, 1920, 1080), &gaps);
    get_window_geometries(tree)
}

/// The geometry recorded for window `id`, the first where several are.
pub fn geometry_of(geoms: &Vec<(u64, Rect)>, id: u64) -> (r: Option<Rect>)
    ensures
        r matches Some(g) ==> exists|i: int| 0 <= i < geoms.len() && geoms@[i] == (id, g),
        r is None ==> forall|i: int| 0 <= i < geoms.len() ==> geoms@[i].0 != id,
{
    let mut i: usize = 0;
    while i < geoms.len()
        invariant
            i <= geoms.len(),
            forall|j: int| 0 <= j < i ==> geoms@[j].0 != id,
        decreases geoms.len() - i,
    {
        if geoms[i].0 == id {
            return Some(geoms[i].1);
        }
        i = i + 1;
    }
    None
}

/// Whether an optional string holds `s`.
pub fn opt_is(o: &Option<String>, s: &str) -> (b: bool)
    ensures
        b == (opt_view(*o) == Some(s@)),
{
    match o {
        Some(v) => str_eq(v.as_str(), s),
        None => false,
    }
}

} // verus!
