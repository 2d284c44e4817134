use ikrelln::api::report::{decode_spaces, get_report, get_reports};
use ikrelln::api::errors::IkError;
use ikrelln::api::span::ingest;
use ikrelln::db::schema::DbExecutor;
use ikrelln::engine::report::{compute_reports, Reporter, ResultForReport};
use ikrelln::engine::streams::{results_for_targets, ReportTarget, Streamer};
use ikrelln::engine::test_result::{TestResult, TestStatus, TraceOutcome, TraceParser};
use ikrelln::opentracing::span::{Endpoint, Kind, Span};
use ikrelln::opentracing::tags::IkrellnTags;

const NOW: i64 = 1_000_000;

fn span(trace_id: &str, id: &str, name: &str, remote: Option<&str>) -> Span {
    Span {
        trace_id: trace_id.to_string(),
        id: id.to_string(),
        parent_id: if id == trace_id { None } else { Some(trace_id.to_string()) },
        name: Some(name.to_string()),
        kind: Some(Kind::CLIENT),
        duration: Some(25),
        timestamp: Some(50),
        debug: false,
        shared: false,
        local_endpoint: None,
        remote_endpoint: remote.map(|service| Endpoint {
            service_name: Some(service.to_string()),
            ..Default::default()
        }),
        annotations: vec![],
        tags: vec![],
        binary_annotations: vec![],
    }
}

fn test_root(trace_id: &str, extra: Vec<(String, String)>) -> Span {
    let mut root = span(trace_id, trace_id, "span_name", None);
    root.tags = vec![
        (IkrellnTags::Suite.as_str().to_string(), "test_suite".to_string()),
        (IkrellnTags::Class.as_str().to_string(), "test_class".to_string()),
        (IkrellnTags::Result.as_str().to_string(), "success".to_string()),
    ];
    root.tags.extend(extra);
    root
}

fn result(test_id: &str, trace_id: &str, status: TestStatus, environment: Option<&str>) -> TestResult {
    TestResult {
        test_id: test_id.to_string(),
        path: vec![],
        name: "name".to_string(),
        trace_id: trace_id.to_string(),
        date: 10,
        status,
        duration: 10,
        environment: environment.map(|e| e.to_string()),
        components_called: vec![],
        nb_spans: 1,
        main_span: None,
    }
}

fn order(group: &str, name: &str, category: Option<&str>, result: TestResult) -> ResultForReport {
    ResultForReport {
        report_group: group.to_string(),
        report_name: name.to_string(),
        category: category.map(|c| c.to_string()),
        result,
    }
}

#[test]
fn should_create_report() {
    let mut db = DbExecutor::new();
    let trace_id = uuid::Uuid::new_v4().to_string();
    let service_name1 = uuid::Uuid::new_v4().to_string();
    let service_name2 = uuid::Uuid::new_v4().to_string();
    let reported_span1 = uuid::Uuid::new_v4().to_string();
    let reported_span2 = uuid::Uuid::new_v4().to_string();

    let (response, done) = ingest(
        &mut db,
        vec![
            test_root(&trace_id, vec![]),
            span(&trace_id, "1", &reported_span1, Some(&service_name1)),
            span(&trace_id, "2", &reported_span1, Some(&service_name1)),
            span(&trace_id, "3", &reported_span1, Some(&service_name2)),
            span(&trace_id, "4", &reported_span2, Some(&service_name2)),
        ],
    );
    assert_eq!(response.nb_events, 5);
    assert_eq!(done, vec![trace_id.clone()]);

    let emitted = match TraceParser::trace_done_at(&mut db, &trace_id, NOW) {
        TraceOutcome::Emitted(result) => result,
        other => panic!("{:?}", other),
    };
    assert_eq!(
        emitted.components_called,
        vec![(service_name1.clone(), 2), (service_name2.clone(), 2)]
    );

    {
        let data_report =
            get_report(&db, Some("endpoints".to_string()), Some(service_name1.clone()), None)
                .unwrap();
        assert_eq!(data_report.group, "endpoints".to_string());
        assert_eq!(data_report.name, service_name1);
        let categories = data_report.categories.unwrap();
        assert!(categories.iter().any(|c| c.name == reported_span1));
        assert_eq!(categories.len(), 1);
        assert_eq!(categories[0].results.len(), 1);
        assert_eq!(categories[0].results[0].name, "span_name");
    }
    {
        let data_report =
            get_report(&db, Some("endpoints".to_string()), Some(service_name2.clone()), None)
                .unwrap();
        assert_eq!(data_report.group, "endpoints".to_string());
        assert_eq!(data_report.name, service_name2);
        let categories = data_report.categories.unwrap();
        assert!(categories.iter().any(|c| c.name == reported_span1));
        assert!(categories.iter().any(|c| c.name == reported_span2));
        assert_eq!(categories.len(), 2);
    }
    assert_eq!(db.reports.len(), 2);
    assert_eq!(db.placements.len(), 3);
}

#[test]
fn can_create_report_from_script() {
    let mut db = DbExecutor::new();
    let trace_id = uuid::Uuid::new_v4().to_string();
    let report_name = uuid::Uuid::new_v4().to_string();

    ingest(
        &mut db,
        vec![
            test_root(&trace_id, vec![("report".to_string(), report_name.clone())]),
            span(&trace_id, "1", "sub span", None),
        ],
    );
    let emitted = match TraceParser::trace_done_at(&mut db, &trace_id, NOW) {
        TraceOutcome::Emitted(result) => result,
        other => panic!("{:?}", other),
    };

    // what a report filter that files results by their `report` tag answers here
    let main_span = emitted.main_span.clone().unwrap();
    let from_tag = main_span.tags.iter().find(|t| t.0 == "report").unwrap().1.clone();
    let targets = vec![ReportTarget {
        group: "from_script".to_string(),
        name: from_tag,
        category: Some(emitted.path[1].clone()),
    }];
    let orders = results_for_targets(&targets, &emitted);
    assert_eq!(orders.len(), 1);
    Reporter::place_all(&mut db, &orders, NOW);

    let report =
        get_report(&db, Some("from_script".to_string()), Some(report_name.clone()), None).unwrap();
    assert_eq!(report.group, "from_script".to_string());
    assert_eq!(report.name, report_name);
    let categories = report.categories.unwrap();
    assert_eq!(categories.len(), 1);
    assert_eq!(categories[0].name, "test_class");
    assert_eq!(categories[0].results.len(), 1);
    assert_eq!(categories[0].results[0].name, "span_name");
    assert_eq!(categories[0].results[0].trace_id, trace_id);
    let _ = Streamer::default();
}

#[test]
fn reports_of_spans_are_deduplicated() {
    let spans = vec![
        span("t", "t", "root", None),
        span("t", "1", "x", Some("A")),
        span("t", "2", "x", Some("A")),
        span("t", "3", "y", Some("A")),
        span("t", "4", "x", Some("B")),
        span("t", "5", "x", Some("B")),
    ];
    let reports: Vec<(String, String, Option<String>)> = compute_reports(&spans)
        .into_iter()
        .map(|r| (r.group, r.name, r.category))
        .collect();
    assert_eq!(
        reports,
        vec![
            ("endpoints".to_string(), "A".to_string(), Some("x".to_string())),
            ("endpoints".to_string(), "A".to_string(), Some("y".to_string())),
            ("endpoints".to_string(), "B".to_string(), Some("x".to_string())),
        ]
    );
    let mut nameless = span("t", "6", "z", Some("ignored"));
    nameless.remote_endpoint = Some(Endpoint::default());
    nameless.name = None;
    let reports = compute_reports(&vec![nameless]);
    assert_eq!(reports[0].name, "service");
    assert_eq!(reports[0].category, None);
}

#[test]
fn one_placement_per_report_test_category_and_environment() {
    let mut db = DbExecutor::new();
    let place = |db: &mut DbExecutor, o: ResultForReport, now: i64, id: &str| {
        db.save_result_for_report_at(o, now, id.to_string())
    };
    place(&mut db, order("g", "r", Some("c"), result("test", "t1", TestStatus::Failure, None)), 10, "r1");
    place(&mut db, order("g", "r", Some("c"), result("test", "t2", TestStatus::Success, None)), 20, "r2");
    assert_eq!(db.reports.len(), 1);
    assert_eq!(db.reports[0].id, "r1");
    assert_eq!(db.reports[0].created_on, 10);
    assert_eq!(db.reports[0].last_update, 20);
    assert_eq!(db.placements.len(), 1);
    assert_eq!(db.placements[0].trace_id, "t2");
    assert_eq!(db.placements[0].status, 0);

    place(&mut db, order("g", "r", Some("c"), result("test", "t3", TestStatus::Success, Some("prod"))), 30, "r3");
    place(&mut db, order("g", "r", None, result("test", "t3", TestStatus::Success, Some("prod"))), 40, "r4");
    place(&mut db, order("g", "r", Some("c"), result("other", "t3", TestStatus::Skipped, None)), 50, "r5");
    place(&mut db, order("g", "r2", Some("c"), result("test", "t3", TestStatus::Success, None)), 60, "r1");
    assert_eq!(db.reports.len(), 1);
    assert_eq!(db.reports[0].last_update, 50);
    let rows: Vec<(String, String, Option<String>)> = db
        .placements
        .iter()
        .map(|p| (p.test_id.clone(), p.category.clone(), p.environment.clone()))
        .collect();
    assert_eq!(
        rows,
        vec![
            ("test".to_string(), "c".to_string(), None),
            ("test".to_string(), "c".to_string(), Some("prod".to_string())),
            ("test".to_string(), "r".to_string(), Some("prod".to_string())),
            ("other".to_string(), "c".to_string(), None),
        ]
    );
}

#[test]
fn placing_twice_gives_the_same_placements() {
    let mut db = DbExecutor::new();
    let orders = vec![
        order("g", "a", Some("c"), result("test", "t1", TestStatus::Failure, None)),
        order("g", "b", None, result("test", "t1", TestStatus::Failure, None)),
    ];
    Reporter::place_all(&mut db, &orders, 10);
    let once: Vec<String> = db.placements.iter().map(|p| format!("{:?}", p)).collect();
    Reporter::place_all(&mut db, &orders, 20);
    let twice: Vec<String> = db.placements.iter().map(|p| format!("{:?}", p)).collect();
    assert_eq!(once, twice);
    assert_eq!(twice.len(), 2);
}

#[test]
fn the_list_of_reports_has_a_summary() {
    let mut db = DbExecutor::new();
    let ids = vec!["i1".to_string()];
    let mut saved = vec![];
    for (name, trace, status, env) in [
        ("one", "t1", TestStatus::Success, None),
        ("two", "t2", TestStatus::Failure, Some("prod")),
        ("three", "t3", TestStatus::Failure, Some("dev")),
        ("four", "t4", TestStatus::Skipped, None),
    ] {
        let mut r = result("n/a", trace, status, env);
        r.name = name.to_string();
        let id = vec![format!("i-{}", name)];
        saved.push(db.save_test_result_with_ids(r, &id).unwrap());
    }
    let _ = ids;
    for (i, r) in saved.iter().enumerate() {
        db.save_result_for_report_at(order("g", "old", Some("c"), r.clone()), 10 + i as i64, "r1".to_string());
        db.save_result_for_report_at(order("g", "old", Some("d"), r.clone()), 20 + i as i64, "r1".to_string());
    }
    db.save_result_for_report_at(order("g", "new", None, saved[0].clone()), 100, "r2".to_string());

    let reports = get_reports(&db);
    let names: Vec<String> = reports.iter().map(|r| r.name.clone()).collect();
    assert_eq!(names, vec!["new".to_string(), "old".to_string()]);
    let old = &reports[1];
    assert_eq!(old.group, "g");
    assert_eq!(old.created_on, 10);
    assert_eq!(old.last_update, 23);
    assert!(old.categories.is_none());
    assert_eq!(
        old.environments,
        vec!["None".to_string(), "dev".to_string(), "prod".to_string()]
    );
    let summary = old.summary.unwrap();
    assert_eq!((summary.success, summary.failure, summary.skipped), (1, 2, 1));

    let prod = get_report(&db, Some("g".to_string()), Some("old".to_string()), Some("prod".to_string()))
        .unwrap();
    let categories = prod.categories.unwrap();
    let shape: Vec<(String, Vec<String>)> = categories
        .iter()
        .map(|c| (c.name.clone(), c.results.iter().map(|r| r.name.clone()).collect()))
        .collect();
    assert_eq!(
        shape,
        vec![
            ("c".to_string(), vec!["two".to_string()]),
            ("d".to_string(), vec!["two".to_string()]),
        ]
    );
    let none = get_report(&db, Some("g".to_string()), Some("old".to_string()), Some("None".to_string()))
        .unwrap();
    let names: Vec<String> =
        none.categories.unwrap()[0].results.iter().map(|r| r.name.clone()).collect();
    assert_eq!(names.len(), 2);
    assert!(names.contains(&"one".to_string()) && names.contains(&"four".to_string()));
}

#[test]
fn report_endpoints_answer_with_the_right_errors() {
    let mut db = DbExecutor::new();
    match get_report(&db, None, Some("x".to_string()), None) {
        Err(IkError::BadRequest(msg)) => assert_eq!(msg, "missing path parameter"),
        other => panic!("{:?}", other),
    }
    match get_report(&db, Some("g".to_string()), Some("x".to_string()), None) {
        Err(IkError::NotFound(msg)) => assert_eq!(msg, "report not found"),
        other => panic!("{:?}", other),
    }
    db.save_result_for_report_at(
        order("my group", "my report", None, result("t", "t", TestStatus::Success, None)),
        1,
        "r".to_string(),
    );
    let found =
        get_report(&db, Some("my%20group".to_string()), Some("my%20report".to_string()), None);
    assert_eq!(found.unwrap().name, "my report");
    assert_eq!(decode_spaces("%20a%2%20b%200%2"), " a%2 b 0%2");
    assert_eq!(decode_spaces(""), "");
}
