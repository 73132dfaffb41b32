use rway::harness::baseline::{check_regression, timestamp_text, Baseline, CategoryBaseline};
use rway::harness::report::format_report;
use rway::harness::suite::{
    Category, CategoryReport, CompatReport, CompatTest, Harness, Priority, TestDetail, TestFn,
    TestStatus,
};
use rway::config::StringHashMap;

fn run_selected(h: &Harness, only: Option<Category>) -> CompatReport {
    let statuses: Vec<TestStatus> = h
        .test_list()
        .iter()
        .filter(|t| Harness::selects(only, t.category))
        .map(|t| (t.test_fn.f)())
        .collect();
    h.tally(&statuses, only)
}

fn run(h: &Harness) -> CompatReport {
    run_selected(h, None)
}

fn run_category(h: &Harness, c: Category) -> CompatReport {
    run_selected(h, Some(c))
}

#[test]
fn harness_new_has_no_tests() {
    let h = Harness::new();
    let report = run(&h);
    assert_eq!(report.total, 0);
}

#[test]
fn harness_register_and_run_pass() {
    let mut h = Harness::new();
    h.register(CompatTest {
        category: Category::Config,
        name: "test_pass".into(),
        description: "A passing test".into(),
        sway_feature: "set variable".into(),
        priority: Priority::P0,
        test_fn: TestFn::new(|| TestStatus::Pass),
    });
    let report = run(&h);
    assert_eq!(report.total, 1);
    assert_eq!(report.passed, 1);
    assert_eq!(report.failed, 0);
}

#[test]
fn harness_register_and_run_fail() {
    let mut h = Harness::new();
    h.register(CompatTest {
        category: Category::Ipc,
        name: "test_fail".into(),
        description: "A failing test".into(),
        sway_feature: "get_version".into(),
        priority: Priority::P0,
        test_fn: TestFn::new(|| TestStatus::Fail("not implemented".into())),
    });
    let report = run(&h);
    assert_eq!(report.total, 1);
    assert_eq!(report.failed, 1);
}

#[test]
fn harness_run_category_filters() {
    let mut h = Harness::new();
    h.register(CompatTest {
        category: Category::Config,
        name: "config_test".into(),
        description: "".into(),
        sway_feature: "".into(),
        priority: Priority::P0,
        test_fn: TestFn::new(|| TestStatus::Pass),
    });
    h.register(CompatTest {
        category: Category::Ipc,
        name: "ipc_test".into(),
        description: "".into(),
        sway_feature: "".into(),
        priority: Priority::P1,
        test_fn: TestFn::new(|| TestStatus::Pass),
    });

    let config_report = run_category(&h, Category::Config);
    assert_eq!(config_report.total, 1);
    assert_eq!(config_report.passed, 1);

    let ipc_report = run_category(&h, Category::Ipc);
    assert_eq!(ipc_report.total, 1);
}

#[test]
fn category_display() {
    assert_eq!(Category::Config.name(), "Config");
    assert_eq!(Category::Ipc.name(), "IPC");
    assert_eq!(Category::Tiling.name(), "Tiling");
}

#[test]
fn priority_ordering() {
    assert!(Priority::P0 < Priority::P1);
    assert!(Priority::P1 < Priority::P2);
}

#[test]
fn test_status_helpers() {
    assert!(TestStatus::Pass.is_pass());
    assert!(!TestStatus::Pass.is_fail());
    assert!(TestStatus::Fail("x".into()).is_fail());
    assert!(!TestStatus::NotImplemented.is_pass());
}

#[test]
fn run_groups_results_by_category_in_report_order() {
    let mut h = Harness::new();
    h.register(CompatTest {
        category: Category::Window,
        name: "w".into(),
        description: "".into(),
        sway_feature: "".into(),
        priority: Priority::P2,
        test_fn: TestFn::new(|| TestStatus::Skip("later".into())),
    });
    h.register(CompatTest {
        category: Category::Config,
        name: "c".into(),
        description: "".into(),
        sway_feature: "".into(),
        priority: Priority::P0,
        test_fn: TestFn::new(|| TestStatus::NotImplemented),
    });
    let report = run(&h);
    assert_eq!(report.total, 2);
    assert_eq!(report.skipped, 1);
    assert_eq!(report.not_implemented, 1);
    assert_eq!(report.by_category.len(), 2);
    assert_eq!(report.by_category[0].0, Category::Config);
    assert_eq!(report.by_category[1].0, Category::Window);
    assert_eq!(report.by_category[1].1.details[0].name, "w");
}

fn empty_report() -> CompatReport {
    CompatReport {
        total: 0,
        passed: 0,
        failed: 0,
        skipped: 0,
        not_implemented: 0,
        by_category: vec![],
    }
}

#[test]
fn format_report_does_not_panic_on_empty() {
    let report = empty_report();
    let mut out = String::new();
    format_report(&report, &mut out);
    assert!(out.contains("rway Sway Compatibility Report"));
    assert!(out.contains("TOTAL"));
}

#[test]
fn format_report_shows_categories() {
    let report = CompatReport {
        total: 3,
        passed: 2,
        failed: 1,
        skipped: 0,
        not_implemented: 0,
        by_category: vec![(
            Category::Config,
            CategoryReport {
                passed: 2,
                failed: 1,
                skipped: 0,
                not_implemented: 0,
                details: vec![
                    TestDetail {
                        name: "parse_set".into(),
                        sway_feature: "set variable".into(),
                        priority: Priority::P0,
                        status: TestStatus::Pass,
                    },
                    TestDetail {
                        name: "parse_bindsym".into(),
                        sway_feature: "bindsym".into(),
                        priority: Priority::P0,
                        status: TestStatus::Pass,
                    },
                    TestDetail {
                        name: "parse_mode".into(),
                        sway_feature: "mode block".into(),
                        priority: Priority::P1,
                        status: TestStatus::Fail("mode blocks not supported".into()),
                    },
                ],
            },
        )],
    };
    let mut out = String::new();
    format_report(&report, &mut out);
    assert!(out.contains("Config"));
    assert!(out.contains("Failed Tests"));
    assert!(out.contains("parse_mode"));
}

#[test]
fn format_report_no_failures_section_when_all_pass() {
    let report = CompatReport {
        total: 1,
        passed: 1,
        failed: 0,
        skipped: 0,
        not_implemented: 0,
        by_category: vec![(
            Category::Tiling,
            CategoryReport {
                passed: 1,
                failed: 0,
                skipped: 0,
                not_implemented: 0,
                details: vec![TestDetail {
                    name: "split_h".into(),
                    sway_feature: "splith layout".into(),
                    priority: Priority::P0,
                    status: TestStatus::Pass,
                }],
            },
        )],
    };
    let mut out = String::new();
    format_report(&report, &mut out);
    assert!(!out.contains("Failed Tests"));
}

#[test]
fn format_report_rates_round_half_to_even() {
    let report = CompatReport {
        total: 8,
        passed: 1,
        failed: 7,
        skipped: 0,
        not_implemented: 0,
        by_category: vec![],
    };
    let mut out = String::new();
    format_report(&report, &mut out);
    assert!(out.contains("    12%"));
    assert!(out.contains("8 tests"));
}

fn one_category_report(passed: usize, failed: usize) -> CompatReport {
    CompatReport {
        total: passed + failed,
        passed,
        failed,
        skipped: 0,
        not_implemented: 0,
        by_category: vec![(
            Category::Config,
            CategoryReport { passed, failed, skipped: 0, not_implemented: 0, details: vec![] },
        )],
    }
}

fn baseline_with(passed: usize) -> Baseline {
    let mut old_cats = StringHashMap::new();
    old_cats.insert("Config".to_string(), CategoryBaseline { passed, total: 20 });
    Baseline { timestamp: "old".to_string(), categories: old_cats }
}

#[test]
fn check_regression_detects_drop() {
    let old = baseline_with(15);
    let report = one_category_report(12, 8);
    let regressions = check_regression(&old, &report);
    assert_eq!(regressions.len(), 1);
    assert_eq!(regressions[0].old_passed, 15);
    assert_eq!(regressions[0].new_passed, 12);
}

#[test]
fn check_regression_passes_when_improved() {
    let old = baseline_with(10);
    let report = one_category_report(15, 5);
    let regressions = check_regression(&old, &report);
    assert!(regressions.is_empty());
}

#[test]
fn baseline_records_pass_count_and_total_by_name() {
    let report = one_category_report(3, 2);
    let b = rway::harness::baseline::baseline_at(&report, "t".to_string());
    assert_eq!(b.timestamp, "t");
    let c = b.categories.get("Config").unwrap();
    assert_eq!(c.passed, 3);
    assert_eq!(c.total, 5);
}

#[test]
fn report_counts_add_up_to_total() {
    let mut h = Harness::new();
    let statuses = vec![
        TestStatus::Pass,
        TestStatus::Fail("no".into()),
        TestStatus::Skip("later".into()),
        TestStatus::NotImplemented,
        TestStatus::Pass,
    ];
    for (i, st) in statuses.into_iter().enumerate() {
        h.register(CompatTest {
            category: if i % 2 == 0 { Category::Tiling } else { Category::Window },
            name: format!("check_{i}"),
            description: String::new(),
            sway_feature: "feature".into(),
            priority: Priority::P1,
            test_fn: TestFn::new(move || st.clone()),
        });
    }
    let r = run(&h);
    assert_eq!(r.total, 5);
    assert_eq!((r.passed, r.failed, r.skipped, r.not_implemented), (2, 1, 1, 1));
    assert_eq!(r.passed + r.failed + r.skipped + r.not_implemented, r.total);
    let per_cat: usize = r.by_category.iter().map(|(_, c)| c.total()).sum();
    assert_eq!(per_cat, r.total);
}

#[test]
fn tally_reports_the_given_statuses() {
    let mut h = Harness::new();
    for (i, c) in [Category::Tiling, Category::Ipc, Category::Tiling].iter().enumerate() {
        h.register(CompatTest {
            category: *c,
            name: format!("t{i}"),
            description: String::new(),
            sway_feature: "f".into(),
            priority: Priority::P0,
            test_fn: TestFn::new(|| TestStatus::Pass),
        });
    }
    assert_eq!(h.selected_count(None), 3);
    assert_eq!(h.selected_count(Some(Category::Tiling)), 2);
    let r = h.tally(&vec![TestStatus::Fail("x".into()), TestStatus::Pass], Some(Category::Tiling));
    assert_eq!((r.total, r.passed, r.failed), (2, 1, 1));
    assert_eq!(r.by_category.len(), 1);
    assert_eq!(r.by_category[0].1.details[0].name, "t0");
    assert!(r.by_category[0].1.details[0].status.is_fail());
}

#[test]
fn timestamp_text_writes_seconds_or_unknown() {
    assert_eq!(timestamp_text(Some(1700000000)), "unix:1700000000");
    assert_eq!(timestamp_text(Some(0)), "unix:0");
    assert_eq!(timestamp_text(None), "unknown");
}
