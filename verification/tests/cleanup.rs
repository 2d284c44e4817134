use ikrelln::api::span::ingest;
use ikrelln::config::CleanUpConfig;
use ikrelln::db::schema::DbExecutor;
use ikrelln::db::update::cleanup::horizon_of;
use ikrelln::db::update::test::ResultCleanupStatus;
use ikrelln::engine::report::ResultForReport;
use ikrelln::engine::test_result::{TestResult, TestStatus};
use ikrelln::opentracing::span::{Annotation, Kind, Span};

fn span(trace_id: &str, id: &str) -> Span {
    Span {
        trace_id: trace_id.to_string(),
        id: id.to_string(),
        parent_id: None,
        name: None,
        kind: Some(Kind::CLIENT),
        duration: Some(25),
        timestamp: Some(50),
        debug: false,
        shared: false,
        local_endpoint: None,
        remote_endpoint: None,
        annotations: vec![Annotation { value: "a".to_string(), timestamp: 51 }],
        tags: vec![("k".to_string(), "v".to_string())],
        binary_annotations: vec![],
    }
}

fn result(name: &str, trace_id: &str, date: i64, status: TestStatus) -> TestResult {
    TestResult {
        test_id: "n/a".to_string(),
        path: vec![],
        name: name.to_string(),
        trace_id: trace_id.to_string(),
        date,
        status,
        duration: 10,
        environment: None,
        components_called: vec![],
        nb_spans: 2,
        main_span: None,
    }
}

fn no_delay() -> CleanUpConfig {
    CleanUpConfig { delay_test_results: 0, delay_spans: 0, delay_reports: 0, schedule: 50 }
}

#[test]
fn retention_runs_through_its_states() {
    let mut db = DbExecutor::new();
    ingest(&mut db, vec![span("failed", "f1"), span("failed", "f2"), span("passed", "ok1")]);
    let failed = db
        .save_test_result_with_ids(result("a", "failed", 100, TestStatus::Failure), &vec!["ia".to_string()])
        .unwrap();
    db.save_test_result_with_ids(result("b", "passed", 100, TestStatus::Success), &vec!["ib".to_string()]);
    db.save_result_for_report_at(
        ResultForReport {
            report_group: "g".to_string(),
            report_name: "r".to_string(),
            category: None,
            result: failed,
        },
        1_000,
        "r1".to_string(),
    );
    assert_eq!((db.spans.len(), db.annotations.len(), db.tags.len()), (3, 3, 3));

    // first tick: the failed result loses its spans and becomes a shell
    let first = db.clean_up_at(&no_delay(), 500);
    assert_eq!((first.deleted, first.cleaned, first.reports_cleaned), (0, 1, 0));
    assert_eq!(db.spans.len(), 1);
    assert_eq!(db.spans[0].trace_id, "passed");
    assert_eq!(db.annotations.len(), 1);
    assert_eq!(db.tags.len(), 1);
    assert_eq!(db.tags[0].span_id, "ok1");
    let statuses: Vec<i32> = db.test_results.iter().map(|r| r.cleanup_status).collect();
    assert_eq!(
        statuses,
        vec![ResultCleanupStatus::Shell.as_i32(), ResultCleanupStatus::ToKeep.as_i32()]
    );
    assert_eq!(db.placements.len(), 1);

    // second tick: the shell goes, with its placement; the kept result stays
    let second = db.clean_up_at(&no_delay(), 600);
    assert_eq!((second.deleted, second.cleaned, second.reports_cleaned), (1, 0, 0));
    assert_eq!(db.test_results.len(), 1);
    assert_eq!(db.test_results[0].trace_id, "passed");
    assert_eq!(db.test_results[0].cleanup_status, 3);
    assert!(db.placements.is_empty());
    assert_eq!(db.spans.len(), 1);
    assert_eq!(db.reports.len(), 1);

    // once the report is older than its delay it goes, too
    let third = db.clean_up_at(&no_delay(), 1_001);
    assert_eq!(third.reports_cleaned, 1);
    assert!(db.reports.is_empty());
    let _ = db.clean_up(&no_delay());
}

#[test]
fn results_within_their_delay_are_left_alone() {
    let mut db = DbExecutor::new();
    ingest(&mut db, vec![span("t", "s")]);
    db.save_test_result_with_ids(result("a", "t", 1_000_000, TestStatus::Failure), &vec!["ia".to_string()]);
    let config = CleanUpConfig { delay_test_results: 2, delay_spans: 1, delay_reports: 0, schedule: 1 };
    // one millisecond after the date the result is exactly at the limit: it stays
    let summary = db.clean_up_at(&config, 1_001_000);
    assert_eq!(summary.cleaned, 0);
    assert_eq!(db.spans.len(), 1);
    let summary = db.clean_up_at(&config, 1_001_001);
    assert_eq!(summary.cleaned, 1);
    assert!(db.spans.is_empty());
    assert_eq!(db.clean_up_at(&config, 1_002_000).deleted, 0);
    assert_eq!(db.clean_up_at(&config, 1_002_001).deleted, 1);
}

#[test]
fn the_horizon_is_the_delay_before_now() {
    assert_eq!(horizon_of(10_000, 3), 7_000);
    assert_eq!(horizon_of(0, 4_294_967_295), -4_294_967_295_000);
    assert_eq!(horizon_of(i64::MIN + 5, 1), i64::MIN);
    let default = CleanUpConfig::default();
    assert_eq!(default.delay_test_results, 3_456_000_000);
    assert_eq!(default.delay_spans, 604_800_000);
    assert_eq!(default.delay_reports, 1_209_600_000);
    assert_eq!(default.schedule, 3_600_000);
}

#[test]
fn cleanup_statuses_are_stored_as_numbers() {
    assert_eq!(ResultCleanupStatus::WithData.as_i32(), 0);
    assert_eq!(ResultCleanupStatus::Important.as_i32(), 1);
    assert_eq!(ResultCleanupStatus::Shell.as_i32(), 2);
    assert_eq!(ResultCleanupStatus::ToKeep.as_i32(), 3);
    assert_eq!(ResultCleanupStatus::from(1), ResultCleanupStatus::Important);
    assert_eq!(ResultCleanupStatus::from(2), ResultCleanupStatus::Shell);
    assert_eq!(ResultCleanupStatus::from(3), ResultCleanupStatus::ToKeep);
    assert_eq!(ResultCleanupStatus::from(0), ResultCleanupStatus::WithData);
    assert_eq!(ResultCleanupStatus::from(17), ResultCleanupStatus::WithData);
}
