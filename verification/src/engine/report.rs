//! Report placements: where a test result is to be shown. Some are
//! computed from the remote endpoints that the spans of its trace
//! called, others are asked for by scripts.

use vstd::prelude::*;
use crate::db::read::span::{SpanQuery, SpanQueryView, default_span_query, spans_found};
use crate::db::invariants::well_formed;
use crate::db::laws::lemma_placed_all_well_formed;
use crate::db::schema::{DbExecutor, Store};
use crate::engine::all_uuids;
use crate::db::update::reports::placed;
use crate::engine::test_result::{TestResult, TestResultView};
use crate::opentracing::span::{Span, SpanView};
use crate::text::{clone_opt_string, opt_string_eq, opt_view, views};

verus! {

/// The order to place a test result in a report. Without a category the
/// report's own name is the category.
#[derive(Debug)]
pub struct ResultForReport {
    pub report_group: String,
    pub report_name: String,
    pub category: Option<String>,
    pub result: TestResult,
}

pub ghost struct ResultForReportView {
    pub report_group: Seq<char>,
    pub report_name: Seq<char>,
    pub category: Option<Seq<char>>,
    pub result: TestResultView,
}

impl View for ResultForReport {
    type V = ResultForReportView;

    open spec fn view(&self) -> ResultForReportView {
        ResultForReportView {
            report_group: self.report_group@,
            report_name: self.report_name@,
            category: opt_view(self.category),
            result: self.result@,
        }
    }
}

/// A place in a report: group, name and category.
#[derive(Debug)]
pub struct Report {
    pub group: String,
    pub name: String,
    pub category: Option<String>,
}

pub ghost struct ReportView {
    pub group: Seq<char>,
    pub name: Seq<char>,
    pub category: Option<Seq<char>>,
}

impl View for Report {
    type V = ReportView;

    open spec fn view(&self) -> ReportView {
        ReportView { group: self.group@, name: self.name@, category: opt_view(self.category) }
    }
}

impl Clone for Report {
    fn clone(&self) -> (r: Self)
        ensures
            r@ == self@,
    {
        Report {
            group: self.group.clone(),
            name: self.name.clone(),
            category: clone_opt_string(&self.category),
        }
    }
}

impl Report {
    /// Whether two places are the same place.
    pub fn same_as(&self, other: &Report) -> (r: bool)
        ensures
            r == (self@ == other@),
    {
        self.group == other.group && self.name == other.name && opt_string_eq(
            &self.category,
            &other.category,
        )
    }
}

/// The group of the reports that are computed from remote endpoints.
pub open spec fn endpoints_group() -> Seq<char> {
    "endpoints"@
}

/// The place that a span asks for: a span that called a remote endpoint
/// is shown in the report of that service (`service` when the endpoint
/// has no name), under the span's name.
pub open spec fn report_of_span(span: SpanView) -> Option<ReportView> {
    match span.remote_endpoint {
        Some(ep) => Some(
            ReportView {
                group: endpoints_group(),
                name: match ep.service_name {
                    Some(n) => n,
                    None => "service"@,
                },
                category: span.name,
            },
        ),
        None => None,
    }
}

/// A list of places with one more, unless the list holds it already.
pub open spec fn with_report(reports: Seq<ReportView>, report: ReportView) -> Seq<ReportView> {
    if reports.contains(report) {
        reports
    } else {
        reports.push(report)
    }
}

/// The places that the spans of a trace ask for, each once, in the order
/// in which they first occur.
pub open spec fn reports_of_spans(spans: Seq<SpanView>) -> Seq<ReportView>
    decreases spans.len(),
{
    if spans.len() == 0 {
        Seq::empty()
    } else {
        let before = reports_of_spans(spans.drop_last());
        match report_of_span(spans.last()) {
            Some(report) => with_report(before, report),
            None => before,
        }
    }
}

/// No place occurs twice among the places of a trace, and a place is
/// among them exactly when one of the spans asks for it.
pub proof fn lemma_reports_of_spans(spans: Seq<SpanView>)
    ensures
        reports_of_spans(spans).no_duplicates(),
        forall|report: ReportView|
            reports_of_spans(spans).contains(report) <==> exists|k: int|
                0 <= k < spans.len() && #[trigger] report_of_span(spans[k]) == Some(report),
    decreases spans.len(),
{
    if spans.len() > 0 {
        let rest = spans.drop_last();
        let before = reports_of_spans(rest);
        let after = reports_of_spans(spans);
        lemma_reports_of_spans(rest);
        assert forall|report: ReportView| after.contains(report) <==> exists|k: int|
            0 <= k < spans.len() && #[trigger] report_of_span(spans[k]) == Some(report) by {
            if after.contains(report) {
                if before.contains(report) {
                    let k = choose|k: int|
                        0 <= k < rest.len() && #[trigger] report_of_span(rest[k]) == Some(report);
                    assert(report_of_span(spans[k]) == Some(report));
                } else {
                    let i = choose|i: int| 0 <= i < after.len() && after[i] == report;
                    assert(report_of_span(spans[spans.len() - 1]) == Some(report));
                }
            }
            if exists|k: int|
                0 <= k < spans.len() && #[trigger] report_of_span(spans[k]) == Some(report) {
                let k = choose|k: int|
                    0 <= k < spans.len() && #[trigger] report_of_span(spans[k]) == Some(report);
                if k < rest.len() {
                    assert(report_of_span(rest[k]) == Some(report));
                    assert(before.contains(report));
                    let i = choose|i: int| 0 <= i < before.len() && before[i] == report;
                    assert(after[i] == report);
                } else {
                    if !before.contains(report) {
                        assert(after[before.len() as int] == report);
                    } else {
                        let i = choose|i: int| 0 <= i < before.len() && before[i] == report;
                        assert(after[i] == report);
                    }
                }
            }
        }
    }
}

fn holds_report(reports: &Vec<Report>, report: &Report) -> (r: bool)
    ensures
        r == views(reports@).contains(report@),
{
    let mut i: usize = 0;
    while i < reports.len()
        invariant
            i <= reports.len(),
            forall|k: int| 0 <= k < i ==> views(reports@)[k] != report@,
        decreases reports.len() - i,
    {
        if reports[i].same_as(report) {
            assert(views(reports@)[i as int] == report@);
            return true;
        }
        i += 1;
    }
    false
}

/// The places that the spans of a trace ask for, each once.
pub fn compute_reports(spans: &Vec<Span>) -> (reports: Vec<Report>)
    ensures
        views(reports@) == reports_of_spans(views(spans@)),
        views(reports@).no_duplicates(),
        reports.len() <= spans.len(),
{
    proof {
        lemma_reports_of_spans(views(spans@));
    }
    let ghost all = views(spans@);
    let mut reports: Vec<Report> = Vec::new();
    let mut i: usize = 0;
    assert(all.take(0) =~= Seq::<SpanView>::empty());
    assert(views(reports@) =~= Seq::<ReportView>::empty());
    while i < spans.len()
        invariant
            i <= spans.len(),
            all == views(spans@),
            reports.len() <= i,
            views(reports@) == reports_of_spans(all.take(i as int)),
        decreases spans.len() - i,
    {
        assert(all.take(i + 1).drop_last() =~= all.take(i as int));
        assert(all.take(i + 1).last() == spans[i as int]@);
        match &spans[i].remote_endpoint {
            Some(ep) => {
                let report = Report {
                    group: "endpoints".to_string(),
                    name: match &ep.service_name {
                        Some(n) => n.clone(),
                        None => "service".to_string(),
                    },
                    category: clone_opt_string(&spans[i].name),
                };
                if !holds_report(&reports, &report) {
                    proof {
                        crate::text::lemma_views_push(reports@, report);
                    }
                    reports.push(report);
                }
            },
            None => {},
        }
        i += 1;
    }
    assert(all.take(spans.len() as int) =~= all);
    reports
}

/// The orders that place `result` at each of the places.
pub open spec fn orders_for(reports: Seq<ReportView>, result: TestResultView) -> Seq<
    ResultForReportView,
> {
    Seq::new(
        reports.len(),
        |k: int|
            ResultForReportView {
                report_group: reports[k].group,
                report_name: reports[k].name,
                category: reports[k].category,
                result,
            },
    )
}

/// Turns places into orders for one test result.
pub fn results_for_reports(reports: &Vec<Report>, result: &TestResult) -> (orders: Vec<
    ResultForReport,
>)
    ensures
        views(orders@) == orders_for(views(reports@), result@),
        orders.len() == reports.len(),
{
    let mut orders: Vec<ResultForReport> = Vec::new();
    let mut i: usize = 0;
    while i < reports.len()
        invariant
            i <= reports.len(),
            orders.len() == i,
            forall|k: int| 0 <= k < i ==> orders[k]@ == orders_for(views(reports@), result@)[k],
        decreases reports.len() - i,
    {
        assert(views(reports@)[i as int] == reports[i as int]@);
        orders.push(
            ResultForReport {
                report_group: reports[i].group.clone(),
                report_name: reports[i].name.clone(),
                category: clone_opt_string(&reports[i].category),
                result: result.clone(),
            },
        );
        i += 1;
    }
    assert(views(orders@) =~= orders_for(views(reports@), result@));
    orders
}

/// The orders that a saved test result gives rise to by itself: one for
/// each remote endpoint and span name among the spans of its trace.
pub fn compute_reports_for_result(result: &TestResult, spans: &Vec<Span>) -> (orders: Vec<
    ResultForReport,
>)
    ensures
        views(orders@) == orders_for(reports_of_spans(views(spans@)), result@),
        orders.len() <= spans.len(),
{
    let reports = compute_reports(spans);
    results_for_reports(&reports, result)
}

/// The most spans of a trace that are looked at.
pub const TRACE_SPAN_LIMIT: i64 = 1000;

/// The query for the finished spans of a trace up to `now`.
pub open spec fn trace_query(trace_id: Seq<char>, now: i64) -> SpanQueryView {
    SpanQueryView { trace_id: Some(trace_id), limit: TRACE_SPAN_LIMIT, ..default_span_query(now) }
}

/// The spans of a trace as derivation and the reporter see them.
pub open spec fn trace_spans(s: Store, trace_id: Seq<char>, now: i64) -> Seq<SpanView> {
    spans_found(s, trace_query(trace_id, now))
}

/// The store after the orders were carried out in order, each with the
/// identifier given for the report it may have to add.
pub open spec fn placed_all(s: Store, orders: Seq<ResultForReportView>, now: i64, ids: Seq<Seq<char>>) -> Store
    decreases orders.len(),
{
    if orders.len() == 0 {
        s
    } else {
        placed(
            placed_all(s, orders.drop_last(), now, ids.drop_last()),
            orders.last(),
            now,
            ids.last(),
        )
    }
}

impl Clone for ResultForReport {
    fn clone(&self) -> (r: Self)
        ensures
            r@ == self@,
    {
        ResultForReport {
            report_group: self.report_group.clone(),
            report_name: self.report_name.clone(),
            category: clone_opt_string(&self.category),
            result: self.result.clone(),
        }
    }
}

/// The spans of a trace: the finished ones up to `now`, at most a thousand.
pub fn read_trace(db: &DbExecutor, trace_id: &String, now: i64) -> (spans: Vec<Span>)
    ensures
        views(spans@) == trace_spans(db@, trace_id@, now),
        spans.len() <= TRACE_SPAN_LIMIT,
{
    let query = SpanQuery::default_at(now).with_trace_id(trace_id.clone()).with_limit(
        TRACE_SPAN_LIMIT,
    );
    let spans = db.get_spans(&query);
    assert(views(spans@).len() == spans.len());
    spans
}

/// The actor that turns placements into rows of the store.
#[derive(Debug, Clone, Copy, PartialEq, Eq, Structural)]
pub struct Reporter;

impl Reporter {
    /// The orders that a saved test result gives rise to by itself, from
    /// the spans of its trace as the store holds them at the time `now`.
    pub fn compute_reports_for_result(db: &DbExecutor, result: &TestResult, now: i64) -> (orders:
        Vec<ResultForReport>)
        ensures
            views(orders@) == orders_for(
                reports_of_spans(trace_spans(db@, result@.trace_id, now)),
                result@,
            ),
            orders.len() <= TRACE_SPAN_LIMIT,
    {
        let spans = read_trace(db, &result.trace_id, now);
        compute_reports_for_result(result, &spans)
    }

    /// Carries the orders out in order at the time `now`; `ids` gives
    /// for each order the identifier of the report it may have to add.
    pub fn place_all_with_ids(db: &mut DbExecutor, orders: &Vec<ResultForReport>, now: i64, ids: &Vec<String>)
        requires
            ids.len() == orders.len(),
        ensures
            final(db)@ == placed_all(old(db)@, views(orders@), now, views(ids@)),
            well_formed(old(db)@) ==> well_formed(final(db)@),
    {
        proof {
            if well_formed(old(db)@) {
                lemma_placed_all_well_formed(old(db)@, views(orders@), now, views(ids@));
            }
        }
        let ghost all = views(orders@);
        let ghost all_ids = views(ids@);
        let mut i: usize = 0;
        proof {
            assert(all.take(0) =~= Seq::<ResultForReportView>::empty());
        }
        while i < orders.len()
            invariant
                i <= orders.len(),
                ids.len() == orders.len(),
                all == views(orders@),
                all_ids == views(ids@),
                db@ == placed_all(old(db)@, all.take(i as int), now, all_ids.take(i as int)),
            decreases orders.len() - i,
        {
            proof {
                assert(all.take(i + 1).drop_last() =~= all.take(i as int));
                assert(all_ids.take(i + 1).drop_last() =~= all_ids.take(i as int));
                assert(all.take(i + 1).last() == orders[i as int]@);
                assert(all_ids.take(i + 1).last() == ids[i as int]@);
            }
            db.save_result_for_report_at(orders[i].clone(), now, ids[i].clone());
            i += 1;
        }
        proof {
            assert(all.take(orders.len() as int) =~= all);
            assert(all_ids.take(orders.len() as int) =~= all_ids);
        }
    }

    /// Carries the orders out in order at the time `now`; reports that
    /// have to be added get fresh identifiers.
    pub fn place_all(db: &mut DbExecutor, orders: &Vec<ResultForReport>, now: i64)
        ensures
            exists|ids: Seq<Seq<char>>|
                ids.len() == orders.len() && all_uuids(ids) && final(db)@ == placed_all(
                    old(db)@,
                    views(orders@),
                    now,
                    ids,
                ),
            well_formed(old(db)@) ==> well_formed(final(db)@),
    {
        let ids = crate::db::update::span::fresh_ids(orders.len());
        Reporter::place_all_with_ids(db, orders, now, &ids);
        assert(views(ids@).len() == orders.len() && all_uuids(views(ids@)) && db@ == placed_all(
            old(db)@,
            views(orders@),
            now,
            views(ids@),
        ));
    }
}

} // verus!
