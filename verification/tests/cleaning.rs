use cargo_rclean::clean::{
    clean_project, plan_clean, summarize, total_size, CleanAction, CleanEvent, CleanResult,
};

fn result(success: bool, freed: u64) -> CleanResult {
    CleanResult {
        path: "/p".to_string(),
        success,
        freed_bytes: freed,
        error: if success { None } else { Some("failed".to_string()) },
    }
}

#[test]
fn test_plan_clean_dry_run_measures_only() {
    assert_eq!(plan_clean(true), CleanAction::MeasureOnly);
    assert_eq!(plan_clean(false), CleanAction::RunCleaner);
}

#[test]
fn test_dry_run_reports_measured_size() {
    // The dry-run "would free" count equals what a real run frees on the
    // same tree when the artifact directory is removed outright.
    let path = "/pkg".to_string();
    let dry = clean_project(&path, true, 12345, None);
    assert!(dry.success);
    assert_eq!(dry.freed_bytes, 12345);
    assert!(dry.error.is_none());

    let real = clean_project(&path, false, 12345, Some(CleanEvent::FallbackRemoved));
    assert!(real.success);
    assert_eq!(real.freed_bytes, dry.freed_bytes);
}

#[test]
fn test_cleaner_success_frees_difference() {
    let path = "/pkg".to_string();
    let r = clean_project(&path, false, 10000, Some(CleanEvent::CleanerSucceeded {
        remaining_bytes: 2345,
    }));
    assert!(r.success);
    assert_eq!(r.freed_bytes, 7655);

    // A directory that somehow grew counts as nothing freed.
    let grew = clean_project(&path, false, 10, Some(CleanEvent::CleanerSucceeded {
        remaining_bytes: 20,
    }));
    assert_eq!(grew.freed_bytes, 0);
}

#[test]
fn test_no_artifacts_frees_nothing() {
    let r = clean_project(&"/pkg".to_string(), false, 0, Some(CleanEvent::NoArtifacts));
    assert!(r.success);
    assert_eq!(r.freed_bytes, 0);
    assert!(r.error.is_none());
}

#[test]
fn test_fallback_failure_reported() {
    let r = clean_project(&"/pkg".to_string(), false, 500, Some(CleanEvent::FallbackFailed {
        message: "permission denied".to_string(),
    }));
    assert!(!r.success);
    assert_eq!(r.freed_bytes, 0);
    assert_eq!(r.error, Some("permission denied".to_string()));
    assert_eq!(r.path, "/pkg");
}

#[test]
fn test_summarize_counts_and_totals() {
    let results = vec![result(true, 10), result(false, 0), result(true, 5)];
    let summary = summarize(results);
    assert_eq!(summary.total_projects, 3);
    assert_eq!(summary.cleaned, 2);
    assert_eq!(summary.failed, 1);
    assert_eq!(summary.total_freed_bytes, 15);
    assert_eq!(summary.results.len(), 3);
}

#[test]
fn test_summarize_empty_batch() {
    let summary = summarize(Vec::new());
    assert_eq!(summary.total_projects, 0);
    assert_eq!(summary.cleaned, 0);
    assert_eq!(summary.failed, 0);
    assert_eq!(summary.total_freed_bytes, 0);
}

#[test]
fn test_summarize_saturates() {
    let results = vec![result(true, u64::MAX), result(true, 10)];
    let summary = summarize(results);
    assert_eq!(summary.total_freed_bytes, u64::MAX);
}

#[test]
fn test_total_size_sums_and_saturates() {
    assert_eq!(total_size(&vec![1, 2, 3]), 6);
    assert_eq!(total_size(&Vec::new()), 0);
    assert_eq!(total_size(&vec![u64::MAX, 1]), u64::MAX);
}
