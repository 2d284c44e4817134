use ikrelln::api::report::get_reports;
use ikrelln::api::span::{
    count_dependencies, get_services, get_spans_by_trace_id_at, ingest,
};
use ikrelln::api::test::get_tests_by_parent;
use ikrelln::db::round_trip::tags_differ_in_lower_case;
use ikrelln::db::schema::{DbExecutor, EndpointDb, ReportDb, TestItemDb};
use ikrelln::engine::ingestor::{Ingestor, SpanIds};
use ikrelln::engine::report::ResultForReport;
use ikrelln::engine::test_result::{
    count_components, TestResult, TestStatus, TraceOutcome, TraceParser,
};
use ikrelln::opentracing::span::{Annotation, Endpoint, Kind, Span};
use ikrelln::seqs::all_differ;
use ikrelln::text::find_pair;

const NOW: i64 = 1_000_000;

fn span(trace_id: &str, id: &str) -> Span {
    Span {
        trace_id: trace_id.to_string(),
        id: id.to_string(),
        parent_id: Some("root".to_string()),
        name: Some("call".to_string()),
        kind: Some(Kind::CLIENT),
        duration: Some(25),
        timestamp: Some(50),
        debug: false,
        shared: false,
        local_endpoint: None,
        remote_endpoint: None,
        annotations: vec![],
        tags: vec![],
        binary_annotations: vec![],
    }
}

fn test_root(trace_id: &str, name: &str) -> Span {
    let mut root = span(trace_id, trace_id);
    root.parent_id = None;
    root.name = Some(name.to_string());
    root.tags = vec![
        ("test.suite".to_string(), "suite".to_string()),
        ("test.class".to_string(), "class".to_string()),
        ("test.result".to_string(), "success".to_string()),
    ];
    root
}

fn params(pairs: &[(&str, &str)]) -> Vec<(String, String)> {
    pairs.iter().map(|(k, v)| (k.to_string(), v.to_string())).collect()
}

fn sorted_ids(spans: &[Span]) -> Vec<String> {
    let mut ids: Vec<String> = spans.iter().map(|s| s.id.clone()).collect();
    ids.sort();
    ids
}

fn numbered(prefix: &str, n: usize) -> Vec<String> {
    (0..n).map(|k| format!("{}{:04}", prefix, k)).collect()
}

#[test]
fn a_trace_lookup_returns_every_span_of_the_trace() {
    let mut db = DbExecutor::new();
    let mut open = span("t", "open");
    open.duration = None;
    let mut undated = span("t", "undated");
    undated.timestamp = None;
    let mut ahead = span("t", "ahead");
    ahead.timestamp = Some(NOW + 5_000);
    let done = span("t", "done");
    ingest(&mut db, vec![open, undated, ahead, done, span("u", "other")]);

    let all = get_spans_by_trace_id_at(&db, Some("t".to_string()), &vec![], NOW).unwrap();
    assert_eq!(sorted_ids(&all), vec!["ahead", "done", "open", "undated"]);
    assert_eq!(all.last().unwrap().id, "ahead");

    let all = get_spans_by_trace_id_at(
        &db,
        Some("t".to_string()),
        &params(&[("finished", "false")]),
        NOW,
    )
    .unwrap();
    assert_eq!(all.len(), 4);

    let finished = get_spans_by_trace_id_at(
        &db,
        Some("t".to_string()),
        &params(&[("finished", "true")]),
        NOW,
    )
    .unwrap();
    assert_eq!(sorted_ids(&finished), vec!["ahead", "done", "undated"]);

    let until = get_spans_by_trace_id_at(
        &db,
        Some("t".to_string()),
        &params(&[("endTs", "1000")]),
        NOW,
    )
    .unwrap();
    assert_eq!(sorted_ids(&until), vec!["done", "open"]);

    let lately = get_spans_by_trace_id_at(
        &db,
        Some("t".to_string()),
        &params(&[("lookback", "1000")]),
        NOW + 6_000,
    )
    .unwrap();
    assert_eq!(sorted_ids(&lately), vec!["ahead"]);

    let two = get_spans_by_trace_id_at(
        &db,
        Some("t".to_string()),
        &params(&[("limit", "2")]),
        NOW,
    )
    .unwrap();
    assert_eq!(two.len(), 2);
}

#[test]
fn a_posted_batch_is_found_whole_by_its_trace() {
    let mut db = DbExecutor::new();
    let mut batch = Vec::new();
    for k in 0..40 {
        let mut s = span("t", &format!("s{:02}", k));
        if k % 3 == 0 {
            s.duration = None;
        }
        if k % 4 == 0 {
            s.timestamp = None;
        }
        if k % 5 == 0 {
            s.timestamp = Some(NOW * 10);
        }
        batch.push(s);
    }
    ingest(&mut db, batch.clone());
    let found = get_spans_by_trace_id_at(&db, Some("t".to_string()), &vec![], NOW).unwrap();
    let mut posted: Vec<String> = batch.iter().map(|s| s.id.clone()).collect();
    posted.sort();
    assert_eq!(sorted_ids(&found), posted);
}

#[test]
fn many_tags_and_annotations_come_back() {
    let mut db = DbExecutor::new();
    let mut posted = span("t", "s");
    posted.tags = (0..150).map(|k| (format!("Tag{:03}", k), format!("v{}", k))).collect();
    posted.annotations =
        (0..120).map(|k| Annotation { value: format!("a{}", k), timestamp: k }).collect();
    let back = db
        .add_new_span_with_ids(
            posted.clone(),
            "e1".to_string(),
            "e2".to_string(),
            numbered("a", 120),
        )
        .unwrap();
    assert_eq!(back.tags.len(), 150);
    for k in 0..150 {
        assert_eq!(back.tags[k], (format!("tag{:03}", k), format!("v{}", k)));
    }
    assert_eq!(back.annotations.len(), 120);
    for k in 0..120 {
        assert_eq!(back.annotations[k].value, posted.annotations[k].value);
        assert_eq!(back.annotations[k].timestamp, posted.annotations[k].timestamp);
    }
    assert_eq!(back.binary_annotations.len(), 150);
    assert_eq!(back.trace_id, "t");
    assert_eq!(back.id, "s");
    assert_eq!(back.name, Some("call".to_string()));

    let found = get_spans_by_trace_id_at(&db, Some("t".to_string()), &vec![], NOW).unwrap();
    assert_eq!(found.len(), 1);
    assert_eq!(found[0].tags.len(), 150);
    assert_eq!(found[0].annotations.len(), 120);
}

#[test]
fn a_span_is_added_only_where_it_is_new() {
    let mut db = DbExecutor::new();
    let mut twice = span("t", "s");
    twice.tags = vec![
        ("Name".to_string(), "1".to_string()),
        ("name".to_string(), "2".to_string()),
    ];
    assert!(!db.can_add_span(&twice, &"e1".to_string(), &"e2".to_string(), &vec![]));
    assert!(db
        .add_new_span_with_ids(twice, "e1".to_string(), "e2".to_string(), vec![])
        .is_none());
    assert!(db.spans.is_empty() && db.tags.is_empty());

    let mut first = span("t", "s");
    first.local_endpoint =
        Some(Endpoint { service_name: Some("Front".to_string()), ..Default::default() });
    first.annotations = vec![Annotation { value: "x".to_string(), timestamp: 1 }];
    assert!(db
        .add_new_span_with_ids(first.clone(), "e".to_string(), "e".to_string(), numbered("a", 1))
        .is_none());
    assert!(db
        .add_new_span_with_ids(first.clone(), "e1".to_string(), "e2".to_string(), vec![])
        .is_none());
    let back = db
        .add_new_span_with_ids(first.clone(), "e1".to_string(), "e2".to_string(), numbered("a", 1))
        .unwrap();
    assert_eq!(back.local_endpoint.unwrap().service_name, Some("front".to_string()));
    assert_eq!(db.spans.len(), 1);

    assert!(db
        .add_new_span_with_ids(first, "e3".to_string(), "e4".to_string(), numbered("b", 1))
        .is_none());
    let mut second = span("t", "s2");
    second.annotations = vec![Annotation { value: "y".to_string(), timestamp: 2 }];
    assert!(db
        .add_new_span_with_ids(
            second.clone(),
            "e3".to_string(),
            "e4".to_string(),
            numbered("a", 1)
        )
        .is_none());
    assert!(db
        .add_new_span_with_ids(
            second.clone(),
            "e1".to_string(),
            "e4".to_string(),
            numbered("b", 1)
        )
        .is_none());
    assert!(db
        .add_new_span_with_ids(second, "e3".to_string(), "e4".to_string(), numbered("b", 1))
        .is_some());
    assert_eq!(db.spans.len(), 2);
    assert_eq!(db.annotations.len(), 2);
}

#[test]
fn tag_names_are_compared_in_lower_case() {
    assert!(tags_differ_in_lower_case(&params(&[])));
    assert!(tags_differ_in_lower_case(&params(&[("a", "1"), ("b", "1"), ("c", "1")])));
    assert!(!tags_differ_in_lower_case(&params(&[("a", "1"), ("b", "2"), ("A", "3")])));
    assert!(!tags_differ_in_lower_case(&params(&[("x", "1"), ("x", "1")])));
    assert!(all_differ(&vec![]));
    assert!(all_differ(&vec!["a".to_string(), "A".to_string()]));
    assert!(!all_differ(&vec!["a".to_string(), "b".to_string(), "a".to_string()]));
}

#[test]
fn the_last_pair_with_a_name_counts() {
    let pairs = params(&[("limit", "1"), ("other", "x"), ("limit", "2")]);
    assert_eq!(find_pair(&pairs, "limit"), Some("2".to_string()));
    assert_eq!(find_pair(&pairs, "other"), Some("x".to_string()));
    assert_eq!(find_pair(&pairs, "none"), None);
}

#[test]
fn each_service_is_counted_in_one_place() {
    let mut spans = Vec::new();
    for (k, name) in ["a", "b", "a", "c", "b", "a"].iter().enumerate() {
        let mut s = span("t", &format!("s{}", k));
        s.local_endpoint =
            Some(Endpoint { service_name: Some("front".to_string()), ..Default::default() });
        s.remote_endpoint =
            Some(Endpoint { service_name: Some(name.to_string()), ..Default::default() });
        spans.push(s);
    }
    let counts = count_components(&spans);
    assert_eq!(
        counts,
        vec![("a".to_string(), 3), ("b".to_string(), 2), ("c".to_string(), 1)]
    );
    let deps = count_dependencies(&spans);
    assert_eq!(deps.len(), 3);
    let calls: Vec<(String, u32)> = deps.iter().map(|d| (d.child.clone(), d.call_count)).collect();
    assert_eq!(
        calls,
        vec![("a".to_string(), 3), ("b".to_string(), 2), ("c".to_string(), 1)]
    );
}

#[test]
fn the_emitted_result_is_the_saved_one() {
    let mut db = DbExecutor::new();
    let mut call = span("t1", "call");
    call.remote_endpoint =
        Some(Endpoint { service_name: Some("back".to_string()), ..Default::default() });
    ingest(&mut db, vec![test_root("t1", "one"), call]);
    let items = vec!["i1".to_string(), "i2".to_string(), "i3".to_string()];
    let reports = numbered("r", 1000);
    let emitted: TestResult =
        match TraceParser::trace_done_with_ids(&mut db, &"t1".to_string(), NOW, &items, &reports) {
            TraceOutcome::Emitted(result) => result,
            other => panic!("{:?}", other),
        };
    assert_eq!(emitted.test_id, "i3");
    assert_eq!(emitted.trace_id, "t1");
    assert_eq!(emitted.name, "one");
    assert_eq!(emitted.path, vec!["suite".to_string(), "class".to_string()]);
    let item_ids: Vec<String> = db.test_items.iter().map(|i| i.id.clone()).collect();
    assert_eq!(item_ids, items);
    assert_eq!(db.test_results.len(), 1);
    assert_eq!(db.test_results[0].test_id, "i3");
    assert_eq!(db.reports.len(), 1);
    assert_eq!(db.reports[0].id, "r0000");
    assert_eq!(db.placements.len(), 1);
    assert_eq!(db.placements[0].test_id, "i3");

    // the same test in a second trace: the items are found, no identifier is used
    ingest(&mut db, vec![test_root("t2", "one")]);
    let others = vec!["j1".to_string(), "j2".to_string(), "j3".to_string()];
    match TraceParser::trace_done_with_ids(&mut db, &"t2".to_string(), NOW, &others, &reports) {
        TraceOutcome::Emitted(result) => assert_eq!(result.test_id, "i3"),
        other => panic!("{:?}", other),
    }
    assert_eq!(db.test_items.len(), 3);
    assert_eq!(db.test_results.len(), 2);

    // another test whose new item would take an identifier that is in use
    ingest(&mut db, vec![test_root("t3", "two")]);
    let taken = vec!["j1".to_string(), "j2".to_string(), "i1".to_string()];
    match TraceParser::trace_done_with_ids(&mut db, &"t3".to_string(), NOW, &taken, &reports) {
        TraceOutcome::Unsaved => {},
        other => panic!("{:?}", other),
    }
    assert_eq!(db.test_items.len(), 3);
    assert_eq!(db.test_results.len(), 2);

    // a trace that is no test
    ingest(&mut db, vec![{
        let mut plain = span("t4", "t4");
        plain.parent_id = None;
        plain
    }]);
    match TraceParser::trace_done_with_ids(&mut db, &"t4".to_string(), NOW, &others, &reports) {
        TraceOutcome::Dropped(tag) => assert_eq!(tag.tag, "test.suite"),
        other => panic!("{:?}", other),
    }
    assert_eq!(db.test_results.len(), 2);
}

#[test]
fn lists_are_not_cut_short() {
    let mut db = DbExecutor::new();
    for k in 0..1_100 {
        let ep = EndpointDb {
            endpoint_id: "n/a".to_string(),
            service_name: Some(format!("service{:04}", k)),
            ipv4: None,
            ipv6: None,
            port: None,
        };
        assert!(db.upsert_endpoint_with_id(Some(ep), format!("e{}", k)).is_some());
    }
    let services = get_services(&db);
    assert_eq!(services.len(), 1_100);
    assert_eq!(services[0], "service0000");
    assert_eq!(services[1_099], "service1099");

    for k in 0..250 {
        let report = ReportDb {
            id: "n/a".to_string(),
            name: format!("report{:03}", k),
            folder: "folder".to_string(),
            created_on: k,
            last_update: k,
        };
        assert!(db.update_report_or_create_with_id(&report, format!("r{}", k)).is_some());
    }
    assert_eq!(get_reports(&db).len(), 250);

    let parent = TestItemDb {
        id: "n/a".to_string(),
        parent_id: "root".to_string(),
        name: "suite".to_string(),
        source: 0,
    };
    let parent_id = db.find_test_or_insert_with_id(&parent, "p".to_string()).unwrap();
    for k in 0..230 {
        let item = TestItemDb {
            id: "n/a".to_string(),
            parent_id: parent_id.clone(),
            name: format!("test{:03}", k),
            source: 0,
        };
        assert!(db.find_test_or_insert_with_id(&item, format!("i{}", k)).is_some());
    }
    let found = get_tests_by_parent(&db, Some("root".to_string())).unwrap();
    assert_eq!(found.len(), 1);
    assert_eq!(found[0].children.len(), 230);
}

fn ids_for(spans: &[Span], round: &str) -> Vec<SpanIds> {
    spans
        .iter()
        .enumerate()
        .map(|(k, s)| SpanIds {
            local: format!("{}-local-{}", round, k),
            remote: format!("{}-remote-{}", round, k),
            annotations: (0..s.annotations.len())
                .map(|a| format!("{}-annotation-{}-{}", round, k, a))
                .collect(),
        })
        .collect()
}

#[test]
fn reposting_a_batch_keeps_endpoints_and_tags() {
    let mut db = DbExecutor::new();
    let mut batch = Vec::new();
    for k in 0..6 {
        let mut s = span("t", &format!("s{}", k % 4));
        s.local_endpoint = Some(Endpoint {
            service_name: Some(format!("Front{}", k % 2)),
            ipv4: Some("10.0.0.1".to_string()),
            ipv6: None,
            port: Some(80),
        });
        s.remote_endpoint =
            Some(Endpoint { service_name: Some(format!("back{}", k % 3)), ..Default::default() });
        s.tags = vec![
            ("Name".to_string(), format!("first {}", k)),
            ("name".to_string(), format!("second {}", k)),
            (format!("only{}", k), "x".to_string()),
        ];
        batch.push(s);
    }
    Ingestor::ingest_spans_with_ids(&mut db, &batch, &ids_for(&batch, "one"));
    let spans = format!("{:?}", db.spans);
    let endpoints = format!("{:?}", db.endpoints);
    let tags = format!("{:?}", db.tags);
    assert_eq!(db.spans.len(), 4);
    assert_eq!(db.endpoints.len(), 5);
    assert_eq!(db.tags.len(), 10);

    Ingestor::ingest_spans_with_ids(&mut db, &batch, &ids_for(&batch, "two"));
    assert_eq!(format!("{:?}", db.spans), spans);
    assert_eq!(format!("{:?}", db.endpoints), endpoints);
    assert_eq!(format!("{:?}", db.tags), tags);
}

#[test]
fn an_endpoint_resolved_three_times_has_one_row() {
    let mut db = DbExecutor::new();
    let other = EndpointDb {
        endpoint_id: "n/a".to_string(),
        service_name: Some("other".to_string()),
        ipv4: None,
        ipv6: None,
        port: None,
    };
    assert_eq!(db.upsert_endpoint_with_id(Some(other), "e0".to_string()), Some("e0".to_string()));
    let before = format!("{:?}", db.endpoints[0]);
    let endpoint = || EndpointDb {
        endpoint_id: "n/a".to_string(),
        service_name: Some("svc".to_string()),
        ipv4: Some("10.0.0.1".to_string()),
        ipv6: None,
        port: Some(80),
    };
    for id in ["e1", "e2", "e3"] {
        assert_eq!(
            db.upsert_endpoint_with_id(Some(endpoint()), id.to_string()),
            Some("e1".to_string())
        );
    }
    assert_eq!(db.endpoints.len(), 2);
    assert_eq!(format!("{:?}", db.endpoints[0]), before);
    assert_eq!(db.endpoints[1].endpoint_id, "e1");
    assert_eq!(db.endpoints[1].service_name, Some("svc".to_string()));
    assert_eq!(db.endpoints[1].ipv4, Some("10.0.0.1".to_string()));
    assert_eq!(db.endpoints[1].port, Some(80));
    let all = format!("{:?}", db.endpoints);
    assert_eq!(db.upsert_endpoint_with_id(None, "e4".to_string()), None);
    assert_eq!(format!("{:?}", db.endpoints), all);
    for _ in 0..3 {
        assert_eq!(db.upsert_endpoint(Some(endpoint())), Some("e1".to_string()));
    }
    assert_eq!(db.upsert_endpoint(None), None);
    assert_eq!(format!("{:?}", db.endpoints), all);
}

#[test]
fn a_placement_takes_the_new_trace_and_status() {
    let mut db = DbExecutor::new();
    let result = |trace_id: &str, status: TestStatus, environment: Option<&str>| TestResult {
        test_id: "test".to_string(),
        path: vec![],
        name: "name".to_string(),
        trace_id: trace_id.to_string(),
        date: 1,
        status,
        duration: 1,
        environment: environment.map(|e| e.to_string()),
        components_called: vec![],
        nb_spans: 1,
        main_span: None,
    };
    let order = |category: Option<&str>, result: TestResult| ResultForReport {
        report_group: "group".to_string(),
        report_name: "report".to_string(),
        category: category.map(|c| c.to_string()),
        result,
    };
    db.save_result_for_report_at(
        order(Some("cat"), result("t1", TestStatus::Success, None)),
        10,
        "r1".to_string(),
    );
    db.save_result_for_report_at(
        order(None, result("t1", TestStatus::Success, Some("env"))),
        11,
        "r2".to_string(),
    );
    assert_eq!(db.placements.len(), 2);
    let other = format!("{:?}", db.placements[1]);
    db.save_result_for_report_at(
        order(Some("cat"), result("t2", TestStatus::Failure, None)),
        12,
        "r3".to_string(),
    );
    assert_eq!(db.reports.len(), 1);
    assert_eq!(db.reports[0].id, "r1");
    assert_eq!(db.reports[0].last_update, 12);
    assert_eq!(db.placements.len(), 2);
    assert_eq!(db.placements[0].report_id, "r1");
    assert_eq!(db.placements[0].test_id, "test");
    assert_eq!(db.placements[0].category, "cat");
    assert_eq!(db.placements[0].environment, None);
    assert_eq!(db.placements[0].trace_id, "t2");
    assert_eq!(db.placements[0].status, TestStatus::Failure.as_i32());
    assert_eq!(format!("{:?}", db.placements[1]), other);
    assert_eq!(db.placements[1].category, "report");
}
