use cargo_rclean::deps::{
    check_unused_dependencies, clean_dependencies, plan_removal, remove_unused_dependencies,
    RemovalOutcome, RemovalPlan, UnusedDependency,
};
use cargo_rclean::detect::SourceSnapshot;
use cargo_rclean::engine::{detect_usage, AnalyzerReport, Evidence};
use cargo_rclean::manifest::{extract_dependencies, DepTable, DependencyDeclaration};

fn empty_snapshot() -> SourceSnapshot {
    SourceSnapshot {
        src_files: Vec::new(),
        example_files: Vec::new(),
        test_files: Vec::new(),
        build_script: None,
        manifest: None,
    }
}

fn snapshot_with_src(contents: &[&str]) -> SourceSnapshot {
    SourceSnapshot {
        src_files: contents.iter().map(|c| c.as_bytes().to_vec()).collect(),
        example_files: Vec::new(),
        test_files: Vec::new(),
        build_script: None,
        manifest: None,
    }
}

fn decl(name: &str, table: DepTable) -> DependencyDeclaration {
    DependencyDeclaration { name: name.to_string(), table }
}

const MANIFEST: &str = r#"
[package]
name = "test"
version = "0.1.0"

[dependencies]
serde = "1.0"
tokio = "1.0"

[dev-dependencies]
tempfile = "3.0"
"#;

#[test]
fn test_extract_dependencies() {
    let deps = extract_dependencies(MANIFEST).unwrap();
    assert!(deps.len() >= 2);
    let dep_names: Vec<String> = deps.iter().map(|d| d.name.clone()).collect();
    assert!(dep_names.contains(&"serde".to_string()));
    assert!(dep_names.contains(&"tokio".to_string()));
}

#[test]
fn test_extract_dependencies_tables() {
    let deps = extract_dependencies(MANIFEST).unwrap();
    assert_eq!(deps.len(), 3);
    assert_eq!(deps[0].name, "serde");
    assert!(matches!(deps[0].table, DepTable::Normal));
    assert_eq!(deps[1].name, "tokio");
    assert!(matches!(deps[1].table, DepTable::Normal));
    assert_eq!(deps[2].name, "tempfile");
    assert!(matches!(deps[2].table, DepTable::Dev));
}

#[test]
fn test_extract_dependencies_build_table() {
    let manifest = "[build-dependencies]\ncc = \"1.0\"\n";
    let deps = extract_dependencies(manifest).unwrap();
    assert_eq!(deps.len(), 1);
    assert_eq!(deps[0].name, "cc");
    assert!(matches!(deps[0].table, DepTable::Build));
}

#[test]
fn test_extract_dependencies_malformed() {
    let result = extract_dependencies("not valid = [toml");
    assert!(result.is_err());
}

#[test]
fn test_macro_role_suffix_allow_listed() {
    // A dependency ending in a macro-role suffix is always used, via the
    // allow-list, whatever the sources hold.
    let dep = decl("quick-derive", DepTable::Normal);
    let verdict = detect_usage(&dep, &None, &empty_snapshot());
    assert!(verdict.used);
    assert_eq!(verdict.evidence_source, Evidence::AllowListed);
}

#[test]
fn test_allow_list_fixed_names() {
    for name in ["serde", "quote", "syn", "serde_json", "proc-macro2", "serde_derive"] {
        let dep = decl(name, DepTable::Normal);
        let verdict = detect_usage(&dep, &None, &empty_snapshot());
        assert!(verdict.used, "{} should be allow-listed", name);
        assert_eq!(verdict.evidence_source, Evidence::AllowListed);
    }
}

#[test]
fn test_heuristic_scan_reports_unused() {
    // Analyzer unavailable, and nothing references the dependency: the
    // verdict is unused, by the heuristic scan.
    let dep = decl("unused-lib", DepTable::Normal);
    let snapshot = snapshot_with_src(&["use tokio::net::TcpStream;\nfn main() {}\n"]);
    let verdict = detect_usage(&dep, &None, &snapshot);
    assert!(!verdict.used);
    assert_eq!(verdict.evidence_source, Evidence::HeuristicScan);
}

#[test]
fn test_name_normalization_equivalence() {
    // Declared as foo-bar, referenced as foo_bar: detected as used.
    let dep = decl("foo-bar", DepTable::Normal);
    let snapshot = snapshot_with_src(&["use foo_bar::Thing;\n"]);
    let verdict = detect_usage(&dep, &None, &snapshot);
    assert!(verdict.used);
    assert_eq!(verdict.evidence_source, Evidence::HeuristicScan);

    // Referenced through a qualified path, same equivalence.
    let snapshot2 = snapshot_with_src(&["fn f() { foo_bar::go(); }\n"]);
    let verdict2 = detect_usage(&dep, &None, &snapshot2);
    assert!(verdict2.used);
}

#[test]
fn test_heuristic_checks_build_script_and_manifest() {
    let dep = decl("cc", DepTable::Build);
    let mut snapshot = empty_snapshot();
    snapshot.build_script = Some("fn main() { cc::Build::new(); }".as_bytes().to_vec());
    assert!(detect_usage(&dep, &None, &snapshot).used);

    let dep2 = decl("featdep", DepTable::Normal);
    let mut snapshot2 = empty_snapshot();
    snapshot2.manifest = Some("[features]\nx = [\"featdep/alloc\"]\n".as_bytes().to_vec());
    assert!(detect_usage(&dep2, &None, &snapshot2).used);
}

#[test]
fn test_analyzer_backquoted_output() {
    let dep_a = decl("aaa", DepTable::Normal);
    let dep_b = decl("bbb", DepTable::Normal);
    let report = Some(AnalyzerReport {
        stdout: "unused dependency: `aaa`\n".as_bytes().to_vec(),
        stderr: Vec::new(),
    });
    let snapshot = empty_snapshot();
    let va = detect_usage(&dep_a, &report, &snapshot);
    assert!(!va.used);
    assert_eq!(va.evidence_source, Evidence::ExternalAnalyzer);
    let vb = detect_usage(&dep_b, &report, &snapshot);
    assert!(vb.used);
    assert_eq!(vb.evidence_source, Evidence::ExternalAnalyzer);
}

#[test]
fn test_analyzer_dash_list_and_stderr() {
    // The report arrives on standard error, as a dash list.
    let dep = decl("left-pad", DepTable::Normal);
    let report = Some(AnalyzerReport {
        stdout: Vec::new(),
        stderr: "unused dependencies:\n  - left_pad\n".as_bytes().to_vec(),
    });
    let verdict = detect_usage(&dep, &report, &empty_snapshot());
    assert!(!verdict.used);
    assert_eq!(verdict.evidence_source, Evidence::ExternalAnalyzer);
}

#[test]
fn test_analyzer_unparseable_falls_through() {
    // Output without the marker is unparseable: the heuristic decides.
    let dep = decl("somedep", DepTable::Normal);
    let report = Some(AnalyzerReport {
        stdout: "error: could not compile".as_bytes().to_vec(),
        stderr: Vec::new(),
    });
    let verdict = detect_usage(&dep, &report, &empty_snapshot());
    assert!(!verdict.used);
    assert_eq!(verdict.evidence_source, Evidence::HeuristicScan);
}

#[test]
fn test_check_unused_dependencies_filters() {
    let manifest = "[dependencies]\naaa = \"1\"\nbbb = \"1\"\n".to_string();
    let snapshot = snapshot_with_src(&["use aaa::x;\n"]);
    let unused = check_unused_dependencies(&Some(manifest), &None, &snapshot).unwrap();
    assert_eq!(unused.len(), 1);
    assert_eq!(unused[0].name, "bbb");
    assert_eq!(unused[0].location, "[dependencies]");
}

#[test]
fn test_check_unused_dependencies_no_manifest() {
    let unused = check_unused_dependencies(&None, &None, &empty_snapshot()).unwrap();
    assert_eq!(unused.len(), 0);
}

#[test]
fn test_check_unused_dependencies_parse_error() {
    let result =
        check_unused_dependencies(&Some("broken = [".to_string()), &None, &empty_snapshot());
    assert!(result.is_err());
}

#[test]
fn test_dev_dependency_location() {
    let manifest = "[dev-dependencies]\nunused-dev = \"1\"\n".to_string();
    let unused = check_unused_dependencies(&Some(manifest), &None, &empty_snapshot()).unwrap();
    assert_eq!(unused.len(), 1);
    assert_eq!(unused[0].location, "[dev-dependencies]");
}

fn unused(name: &str) -> UnusedDependency {
    UnusedDependency { name: name.to_string(), location: "[dependencies]".to_string() }
}

fn outcome(name: &str, succeeded: bool, message: Option<&str>) -> RemovalOutcome {
    RemovalOutcome {
        dependency_name: name.to_string(),
        succeeded,
        message: message.map(|m| m.to_string()),
    }
}

#[test]
fn test_plan_removal_dry_run_is_no_action() {
    let deps = vec![unused("aaa"), unused("bbb")];
    assert!(matches!(plan_removal(&deps, true), RemovalPlan::NoAction));
    assert!(matches!(plan_removal(&Vec::new(), false), RemovalPlan::NoAction));
    match plan_removal(&deps, false) {
        RemovalPlan::Attempt(names) => assert_eq!(names, vec!["aaa", "bbb"]),
        RemovalPlan::NoAction => panic!("expected an attempt"),
    }
}

#[test]
fn test_remove_dry_run_removes_nothing() {
    let deps = vec![unused("aaa")];
    let r = remove_unused_dependencies(&deps, true, true, &Vec::new());
    assert_eq!(r.unwrap(), 0);
}

#[test]
fn test_remove_tool_unavailable() {
    let deps = vec![unused("aaa")];
    let r = remove_unused_dependencies(&deps, false, false, &Vec::new());
    assert_eq!(
        r.unwrap_err(),
        "cargo-remove is not installed. Install it with: cargo install cargo-edit"
    );
}

#[test]
fn test_remove_counts_successes() {
    let deps = vec![unused("aaa"), unused("bbb"), unused("ccc")];
    let outcomes = vec![
        outcome("aaa", true, None),
        outcome("bbb", false, Some("Failed to remove bbb: not found")),
        outcome("ccc", true, None),
    ];
    let r = remove_unused_dependencies(&deps, false, true, &outcomes);
    assert_eq!(r.unwrap(), 2);
}

#[test]
fn test_remove_all_failures_is_error() {
    let deps = vec![unused("aaa"), unused("bbb")];
    let outcomes = vec![
        outcome("aaa", false, Some("no aaa")),
        outcome("bbb", false, Some("no bbb")),
    ];
    let r = remove_unused_dependencies(&deps, false, true, &outcomes);
    assert_eq!(r.unwrap_err(), "Failed to remove dependencies:\nno aaa\nno bbb");
}

#[test]
fn test_clean_dependencies_report_subsets() {
    // removed <= unused <= declared: two reported unused, one removed.
    let checked = Ok(vec![unused("aaa"), unused("bbb")]);
    let outcomes = vec![outcome("aaa", true, None), outcome("bbb", false, Some("held"))];
    let report = clean_dependencies(
        &"/pkg".to_string(),
        checked,
        true,
        false,
        true,
        &outcomes,
    );
    assert!(report.success);
    assert_eq!(report.path, "/pkg");
    assert_eq!(report.unused_deps.len(), 2);
    assert_eq!(report.removed_count, 1);
    assert!(report.removed_count <= report.unused_deps.len());
    assert!(report.error.is_none());
}

#[test]
fn test_clean_dependencies_check_error_is_reported() {
    let report = clean_dependencies(
        &"/pkg".to_string(),
        Err("boom".to_string()),
        true,
        false,
        true,
        &Vec::new(),
    );
    assert!(!report.success);
    assert_eq!(report.unused_deps.len(), 0);
    assert_eq!(report.removed_count, 0);
    assert_eq!(report.error, Some("boom".to_string()));
}

#[test]
fn test_clean_dependencies_removal_failure_caught() {
    let checked = Ok(vec![unused("aaa")]);
    let outcomes = vec![outcome("aaa", false, Some("denied"))];
    let report = clean_dependencies(
        &"/pkg".to_string(),
        checked,
        true,
        false,
        true,
        &outcomes,
    );
    assert!(!report.success);
    assert_eq!(report.removed_count, 0);
    assert_eq!(report.error, Some("Failed to remove dependencies:\ndenied".to_string()));
}
