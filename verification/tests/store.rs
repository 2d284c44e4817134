use ikrelln::db::schema::{DbExecutor, EndpointDb, ReportDb, TestItemDb};
use ikrelln::db::update::span::{get_all_from_span, get_all_from_span_with_ids};
use ikrelln::engine::ingestor::Ingestor;
use ikrelln::engine::report::ResultForReport;
use ikrelln::engine::test_result::{TestResult, TestStatus};
use ikrelln::opentracing::span::{Annotation, Endpoint, Kind, Span};

fn span(id: &str) -> Span {
    Span {
        trace_id: "t".to_string(),
        id: id.to_string(),
        parent_id: None,
        name: Some("Name".to_string()),
        kind: Some(Kind::PRODUCER),
        duration: Some(1),
        timestamp: Some(2),
        debug: true,
        shared: false,
        local_endpoint: Some(Endpoint {
            service_name: Some("LOCAL".to_string()),
            ipv4: None,
            ipv6: None,
            port: Some(1),
        }),
        remote_endpoint: None,
        annotations: vec![
            Annotation { value: "a".to_string(), timestamp: 3 },
            Annotation { value: "b".to_string(), timestamp: 4 },
        ],
        tags: vec![("Key".to_string(), "Value".to_string())],
        binary_annotations: vec![],
    }
}

fn result(name: &str, trace_id: &str) -> TestResult {
    TestResult {
        test_id: "n/a".to_string(),
        path: vec!["suite".to_string()],
        name: name.to_string(),
        trace_id: trace_id.to_string(),
        date: 1,
        status: TestStatus::Success,
        duration: 1,
        environment: None,
        components_called: vec![("svc".to_string(), 2)],
        nb_spans: 1,
        main_span: None,
    }
}

#[test]
fn a_span_becomes_its_rows() {
    let ids = vec!["a1".to_string(), "a2".to_string()];
    let rows = get_all_from_span_with_ids(&span("s"), &ids);
    assert_eq!(rows.span_db.trace_id, "t");
    assert_eq!(rows.span_db.id, "s");
    assert_eq!(rows.span_db.name, Some("name".to_string()));
    assert_eq!(rows.span_db.kind, Some("PRODUCER".to_string()));
    assert_eq!(rows.span_db.ts, Some(2));
    assert_eq!(rows.span_db.duration, Some(1));
    assert!(rows.span_db.debug && !rows.span_db.shared);
    assert_eq!(rows.span_db.local_endpoint_id, None);
    let local = rows.local_endpoint.unwrap();
    assert_eq!(local.endpoint_id, "n/a");
    assert_eq!(local.service_name, Some("local".to_string()));
    assert_eq!(local.port, Some(1));
    assert!(rows.remote_endpoint.is_none());
    assert_eq!(rows.tags.len(), 1);
    assert_eq!(
        (rows.tags[0].span_id.as_str(), rows.tags[0].name.as_str(), rows.tags[0].value.as_str()),
        ("s", "key", "Value")
    );
    assert_eq!(rows.annotations.len(), 2);
    assert_eq!(rows.annotations[1].annotation_id, "a2");
    assert_eq!(rows.annotations[1].ts, 4);
    assert_eq!(rows.annotations[1].trace_id, "t");
    assert_eq!(rows.annotations[1].span_id, "s");

    let fresh = get_all_from_span(&span("s"));
    assert_eq!(fresh.annotations.len(), 2);
    assert_ne!(fresh.annotations[0].annotation_id, fresh.annotations[1].annotation_id);
}

#[test]
fn writes_with_fresh_identifiers() {
    let mut db = DbExecutor::new();
    let stored = db.upsert_span(span("s1"));
    assert_eq!(stored.id, "s1");
    assert_eq!(stored.name, Some("Name".to_string()));
    let done = Ingestor::ingest_spans(&mut db, vec![span("s2"), span("s1")]);
    assert_eq!(done, vec!["t".to_string(), "t".to_string()]);
    assert_eq!(db.spans.len(), 2);
    assert_eq!(db.endpoints.len(), 1);
    assert_eq!(db.annotations.len(), 6);
    assert_eq!(db.tags.len(), 2);
    assert_eq!(db.spans[0].local_endpoint_id, Some(db.endpoints[0].endpoint_id.clone()));

    let query = EndpointDb {
        endpoint_id: String::new(),
        service_name: Some("local".to_string()),
        ipv4: None,
        ipv6: None,
        port: None,
    };
    let found = db.find_endpoint(&query).unwrap();
    assert_eq!(found.port, Some(1));
    assert_eq!(db.upsert_endpoint(Some(query.clone())), Some(found.endpoint_id));
    let mut other = query.clone();
    other.port = Some(2);
    assert!(db.find_endpoint(&other).is_none());
    let added = db.upsert_endpoint(Some(other)).unwrap();
    assert_eq!(added.len(), 36);
    assert_eq!(db.endpoints.len(), 2);
    assert_eq!(db.upsert_endpoint(None), None);
}

#[test]
fn test_items_and_results_with_fresh_identifiers() {
    let mut db = DbExecutor::new();
    let suite = TestItemDb {
        id: "n/a".to_string(),
        parent_id: "root".to_string(),
        name: "suite".to_string(),
        source: 0,
    };
    assert!(db.find_test_item(&suite).is_none());
    let id = db.find_test_or_insert(&suite).unwrap();
    assert_eq!(db.find_test_or_insert(&suite), Some(id.clone()));
    assert_eq!(db.find_test_item(&suite).unwrap().id, id);
    let mut other_source = suite.clone();
    other_source.source = 1;
    assert_ne!(db.find_test_or_insert(&other_source), Some(id.clone()));

    let saved = db.save_test_result(result("test", "t1")).unwrap();
    assert_eq!(db.test_items.len(), 3);
    assert_eq!(db.test_items[2].parent_id, id);
    assert_eq!(saved.test_id, db.test_items[2].id);
    assert_eq!(saved.name, "test");
    assert_eq!(saved.components_called, vec![("svc".to_string(), 2)]);
    assert_eq!(db.test_results[0].components_called, vec![("svc".to_string(), 2)]);
    assert_eq!(db.test_results[0].test_id, saved.test_id);
}

#[test]
fn reports_with_fresh_identifiers() {
    let mut db = DbExecutor::new();
    let report = ReportDb {
        id: "n/a".to_string(),
        name: "r".to_string(),
        folder: "g".to_string(),
        created_on: 5,
        last_update: 5,
    };
    assert!(db.find_report(&report).is_none());
    let id = db.update_report_or_create(&report).unwrap();
    let mut later = report.clone();
    later.last_update = 9;
    later.created_on = 9;
    assert_eq!(db.update_report_or_create(&later), Some(id.clone()));
    let found = db.find_report(&report).unwrap();
    assert_eq!((found.id, found.created_on, found.last_update), (id.clone(), 5, 9));
    assert_eq!(db.update_report_or_create_with_id(&ReportDb { name: "x".to_string(), ..report.clone() }, id), None);

    let mut placed = result("test", "t1");
    placed.test_id = "test id".to_string();
    db.save_result_for_report(ResultForReport {
        report_group: "g".to_string(),
        report_name: "r".to_string(),
        category: None,
        result: placed,
    });
    assert_eq!(db.reports.len(), 1);
    assert!(db.reports[0].last_update > 1_600_000_000_000_000);
    assert_eq!(db.placements.len(), 1);
    assert_eq!(db.placements[0].category, "r");
    assert_eq!(db.placements[0].report_id, db.reports[0].id);
}
