use rway::harness::suite::{Priority, TestDetail, TestStatus};
use rway::harness::sweep::{
    contains_word, cross_reference, extract_feature_name, extract_pub_name, extract_warn_type,
    fix_spec_text, is_table_header, normalize_key, parse_clippy_summary_line, parse_pub_item_line,
    parse_spec, parse_todo_line, skip_common_name, summarize_clippy, test_matches_spec, todo_kind_counts,
    TodoEntry, NeedsUpdateItem, SpecEntry,
    SpecStatus,
};

fn detail(name: &str, feature: &str, status: TestStatus) -> TestDetail {
    TestDetail {
        name: name.to_string(),
        sway_feature: feature.to_string(),
        priority: Priority::P0,
        status,
    }
}

fn entry(line: usize, name: &str, key: &str, status: SpecStatus) -> SpecEntry {
    SpecEntry {
        line_number: line,
        feature_name: name.to_string(),
        normalized_key: key.to_string(),
        status,
    }
}

#[test]
fn normalize_key_basic() {
    assert_eq!(normalize_key("set"), "set");
    assert_eq!(normalize_key("floating_modifier"), "floating_modifier");
    assert_eq!(normalize_key("focus direction"), "focus_direction");
    assert_eq!(normalize_key("move to workspace"), "move_to_workspace");
    assert_eq!(normalize_key("GET_WORKSPACES"), "get_workspaces");
}

#[test]
fn contains_word_matches() {
    assert!(contains_word("parse_set_variable", "set"));
    assert!(contains_word("parse_floating_modifier", "floating_modifier"));
    assert!(contains_word("set", "set"));
    assert!(!contains_word("preset_value", "set"));
}

#[test]
fn contains_word_boundary() {
    assert!(contains_word("parse_exec_always", "exec"));
    assert!(contains_word("parse_exec_always", "exec_always"));
    assert!(contains_word("exec", "exec"));
    assert!(!contains_word("execute", "exec"));
}

#[test]
fn extract_feature_from_backticks() {
    let cells = vec!["`set`", "`set $<name> <value>`", "-", "`[IMPLEMENTED]`", "P0"];
    assert_eq!(extract_feature_name(&cells), Some("set".to_string()));
}

#[test]
fn extract_feature_with_qualifier() {
    let cells = vec!["`focus` direction", "`focus up\\|right`", "`[IMPLEMENTED]`", "P0"];
    assert_eq!(extract_feature_name(&cells), Some("focus direction".to_string()));
}

#[test]
fn extract_feature_numeric_first_cell() {
    let cells = vec!["1", "`GET_WORKSPACES`", "`[IMPLEMENTED]`", "P0"];
    assert_eq!(extract_feature_name(&cells), Some("GET_WORKSPACES".to_string()));
}

#[test]
fn spec_status_display() {
    assert_eq!(SpecStatus::Implemented.name(), "IMPLEMENTED");
    assert_eq!(SpecStatus::Partial.name(), "PARTIAL");
    assert_eq!(SpecStatus::Missing.name(), "MISSING");
}

#[test]
fn normalize_key_trims_and_drops_symbols() {
    assert_eq!(normalize_key("  --exec/always!  "), "exec_always");
    assert_eq!(normalize_key("___"), "");
    assert_eq!(normalize_key("Tab Bar-Colors"), "tab_bar_colors");
}

#[test]
fn contains_word_at_both_ends() {
    assert!(contains_word("gaps_inner", "inner"));
    assert!(contains_word("gaps_inner", "gaps"));
    assert!(!contains_word("gap", "gaps"));
    assert!(contains_word("a_set_set", "set"));
}

#[test]
fn extract_feature_without_backticks() {
    let cells = vec!["workspace back_and_forth", "x"];
    assert_eq!(extract_feature_name(&cells), Some("workspace back_and_forth".to_string()));
    let cells = vec!["名称", "`bindsym --release` 键"];
    assert_eq!(extract_feature_name(&cells), Some("bindsym".to_string()));
    let cells = vec!["描述"];
    assert_eq!(extract_feature_name(&cells), None);
}

#[test]
fn extract_feature_cjk_first_cell_uses_second_words() {
    let cells = vec!["窗口", "`[x]` and `for_window [class]`"];
    assert_eq!(extract_feature_name(&cells), None);
    let cells = vec!["窗口规则", "`for_window [criteria]`"];
    assert_eq!(extract_feature_name(&cells), Some("for_window".to_string()));
}

#[test]
fn table_headers_are_recognised() {
    assert!(is_table_header("指令"));
    assert!(is_table_header("---"));
    assert!(!is_table_header("set"));
}

#[test]
fn parse_spec_reads_status_rows() {
    let text = "# Title\n| 指令 | 语法 | 状态 |\n|---|---|---|\n| `set` | `set $x` | `[IMPLEMENTED]` |\n| `gaps` inner | `gaps inner 5` | `[PARTIAL]` |\r\nplain [MISSING]\n| `bar` | x | `[MISSING]` |\n";
    let entries = parse_spec(text);
    assert_eq!(entries.len(), 3);
    assert_eq!(entries[0].line_number, 4);
    assert_eq!(entries[0].feature_name, "set");
    assert_eq!(entries[0].status, SpecStatus::Implemented);
    assert_eq!(entries[1].normalized_key, "gaps_inner");
    assert_eq!(entries[1].status, SpecStatus::Partial);
    assert_eq!(entries[2].line_number, 7);
    assert_eq!(entries[2].status, SpecStatus::Missing);
}

#[test]
fn test_matching_by_name_feature_and_words() {
    let t = detail("parse_gaps_inner_value", "Gaps Inner", TestStatus::Pass);
    assert!(test_matches_spec(&t, "gaps"));
    assert!(test_matches_spec(&t, "gaps_inner"));
    let t2 = detail("inner_then_gaps", "other", TestStatus::Pass);
    assert!(test_matches_spec(&t2, "gaps_inner"));
    assert!(!test_matches_spec(&t2, "bar"));
}

#[test]
fn cross_reference_classifies_rows() {
    let spec = vec![
        entry(1, "set", "set", SpecStatus::Implemented),
        entry(2, "bar", "bar", SpecStatus::Missing),
        entry(3, "gaps", "gaps", SpecStatus::Partial),
        entry(4, "seat", "seat", SpecStatus::Implemented),
        entry(5, "nothing", "nothing", SpecStatus::Missing),
    ];
    let tests = vec![
        detail("parse_set", "set", TestStatus::Pass),
        detail("bar_mode", "bar", TestStatus::Pass),
        detail("bar_colors", "bar", TestStatus::Fail("x".to_string())),
        detail("gaps_inner", "gaps", TestStatus::Skip("later".to_string())),
        detail("seat_config", "seat", TestStatus::NotImplemented),
        detail("lonely_pass", "zzz", TestStatus::Pass),
    ];
    let refs: Vec<&TestDetail> = tests.iter().collect();
    let (consistent, needs, dis, unmatched) = cross_reference(&spec, &refs);
    assert_eq!(consistent, 2);
    assert_eq!(needs.len(), 2);
    assert_eq!(needs[0].spec_feature, "bar");
    assert_eq!(needs[0].matching_tests, vec!["bar_mode".to_string()]);
    assert_eq!(needs[1].old_status, SpecStatus::Partial);
    assert_eq!(needs[1].matching_tests, vec!["gaps_inner".to_string()]);
    assert_eq!(dis.len(), 1);
    assert_eq!(dis[0].spec_line, 4);
    assert_eq!(unmatched, vec!["lonely_pass".to_string()]);
}

#[test]
fn clippy_summary_lines() {
    assert_eq!(
        parse_clippy_summary_line("warning: `rway-tiling` (lib) generated 12 warnings"),
        Some(("rway-tiling".to_string(), 12))
    );
    assert_eq!(parse_clippy_summary_line("warning: unused variable"), None);
    assert_eq!(parse_clippy_summary_line("warning: `x` generated many"), None);
    assert_eq!(extract_warn_type("  = note: `#[warn(dead_code)]` on by default"), Some("dead_code".to_string()));
    assert_eq!(extract_warn_type("nothing here"), None);
}

#[test]
fn grep_lines_for_markers_and_items() {
    let e = parse_todo_line("./src/a.rs:12:    // FIXME: later").unwrap();
    assert_eq!(e.file, "src/a.rs");
    assert_eq!(e.line, 12);
    assert_eq!(e.kind, "FIXME");
    assert_eq!(e.content, "// FIXME: later");
    assert!(parse_todo_line("./target/debug/x.rs:1:// TODO").is_none());
    assert_eq!(parse_todo_line("a.rs:x:note").unwrap().line, 0);
    assert_eq!(parse_todo_line("a.rs:3:TODO: y").unwrap().kind, "TODO");
    assert_eq!(extract_pub_name("pub struct Tree {"), Some("Tree".to_string()));
    assert_eq!(extract_pub_name("fn private()"), None);
    assert_eq!(
        parse_pub_item_line("./tree.rs:10:    pub fn insert_window(&mut self)"),
        Some(("insert_window".to_string(), "tree.rs".to_string()))
    );
    assert!(skip_common_name("new"));
    assert!(skip_common_name("into"));
    assert!(!skip_common_name("insert_window"));
}

#[test]
fn fix_spec_replaces_old_markers() {
    let text = "| `bar` | `[MISSING]` |\n| `gaps` | `[PARTIAL]` |\n";
    let updates = vec![
        NeedsUpdateItem {
            spec_feature: "bar".to_string(),
            spec_line: 1,
            old_status: SpecStatus::Missing,
            matching_tests: vec![],
        },
        NeedsUpdateItem {
            spec_feature: "gaps".to_string(),
            spec_line: 9,
            old_status: SpecStatus::Partial,
            matching_tests: vec![],
        },
    ];
    let (fixed, done) = fix_spec_text(text, &updates);
    assert_eq!(done, vec![0]);
    assert_eq!(fixed, "| `bar` | `[IMPLEMENTED]` |\n| `gaps` | `[PARTIAL]` |\n");
    let (same, none) = fix_spec_text(text, &[]);
    assert!(none.is_empty());
    assert_eq!(same, text);
}

#[test]
fn summarize_clippy_counts_crates_and_kinds() {
    let out = "warning: unused variable: `x`\n\
   = note: `#[warn(unused_variables)]` on by default\n\
warning: `rway-tiling` (lib) generated 1 warning\n\
   = note: `#[warn(clippy::needless_return)]` on by default\n\
   = note: `#[warn(unused_variables)]` on by default\n\
warning: `rway-config` (lib) generated 3 warnings\n\
warning: `rway-tiling` (lib test) generated 4 warnings\n\
warning: `broken` generated many warnings\n";
    let s = summarize_clippy(out);
    assert_eq!(s.total, 8);
    assert_eq!(
        s.by_crate,
        vec![("rway-tiling".to_string(), 5), ("rway-config".to_string(), 3)]
    );
    assert_eq!(
        s.warning_types,
        vec!["clippy::needless_return".to_string(), "unused_variables".to_string()]
    );
}

#[test]
fn summarize_clippy_of_clean_output_is_empty() {
    let s = summarize_clippy("    Checking rway v0.1.0\n    Finished dev profile\n");
    assert_eq!(s.total, 0);
    assert!(s.by_crate.is_empty());
    assert!(s.warning_types.is_empty());
}

#[test]
fn todo_kind_counts_tallies_each_kind() {
    let todos: Vec<TodoEntry> = [
        ("a.rs", 1, "TODO"),
        ("a.rs", 5, "FIXME"),
        ("b.rs", 2, "TODO"),
        ("c.rs", 9, "XXX"),
    ]
    .iter()
    .map(|(f, l, k)| TodoEntry {
        file: f.to_string(),
        line: *l,
        kind: k.to_string(),
        content: String::new(),
    })
    .collect();
    assert_eq!(todo_kind_counts(&todos), [2, 1, 0, 1]);
    assert_eq!(todo_kind_counts(&Vec::new()), [0, 0, 0, 0]);
}
