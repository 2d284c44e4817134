//! What holds of every store that the writes of this crate have built:
//! the keys of its tables are unique and its test tree has no cycle.

use vstd::prelude::*;
use crate::db::schema::{
    empty_store, AnnotationDbView, EndpointDbView, ReportDbView, SpanDbView, Store, TagDbView,
    TestItemDbView, TestResultDbView, TestResultInReportDbView,
};
use crate::db::update::span::{
    endpoint_matches, found_endpoint, has_annotation_id, has_endpoint_id, span_index, tag_index,
    with_annotation, with_annotations, with_endpoint, with_span_row, with_tag, with_tags,
};
use crate::db::update::reports::{
    has_report_id, placed, placement_index, placement_row, report_index, report_row,
    with_placement, with_touched_report,
};
use crate::db::update::test::{demoted, result_index, with_test_result, TO_KEEP, WITH_DATA};
use crate::engine::report::ResultForReportView;
use crate::db::update::cleanup::{
    cleaned_up, emptied, emptied_store, horizon, keeps_annotation, keeps_placement_of_report,
    keeps_placement_of_result, keeps_report, keeps_result, keeps_span, keeps_tag, purged,
    without_old_reports,
};
use crate::db::update::test::{
    has_item_id, item_index, result_row, root_id, saved_test_result, with_test_item,
    with_test_path,
};
use crate::config::CleanUpConfig;
use crate::engine::test_result::TestResultView;
use crate::seqs::{lemma_filter_keeps_distinct, lemma_first_where};

verus! {

/// No two span rows share `(trace_id, id)`.
pub open spec fn unique_spans(spans: Seq<SpanDbView>) -> bool {
    forall|i: int, j: int|
        0 <= i < j < spans.len() ==> !(#[trigger] spans[i].trace_id == #[trigger] spans[j].trace_id
            && spans[i].id == spans[j].id)
}

/// No two endpoint rows share an identifier, and no row answers the
/// lookup of a row that was added after it.
pub open spec fn distinct_endpoints(endpoints: Seq<EndpointDbView>) -> bool {
    forall|i: int, j: int|
        0 <= i < j < endpoints.len() ==> #[trigger] endpoints[i].endpoint_id
            != #[trigger] endpoints[j].endpoint_id && !endpoint_matches(endpoints[j], endpoints[i])
}

/// No two tag rows share `(span_id, name)`.
pub open spec fn unique_tags(tags: Seq<TagDbView>) -> bool {
    forall|i: int, j: int|
        0 <= i < j < tags.len() ==> !(#[trigger] tags[i].span_id == #[trigger] tags[j].span_id
            && tags[i].name == tags[j].name)
}

/// No two annotation rows share an identifier.
pub open spec fn unique_annotations(annotations: Seq<AnnotationDbView>) -> bool {
    forall|i: int, j: int|
        0 <= i < j < annotations.len() ==> #[trigger] annotations[i].annotation_id
            != #[trigger] annotations[j].annotation_id
}

/// Whether the span table holds a row with the key.
pub open spec fn has_span(spans: Seq<SpanDbView>, trace_id: Seq<char>, id: Seq<char>) -> bool {
    exists|k: int| 0 <= k < spans.len() && #[trigger] spans[k].trace_id == trace_id && spans[k].id == id
}

/// Two endpoint rows with the same service, addresses and port.
pub open spec fn same_endpoint(a: EndpointDbView, b: EndpointDbView) -> bool {
    a.service_name == b.service_name && a.ipv4 == b.ipv4 && a.ipv6 == b.ipv6 && a.port == b.port
}

/// In a table with distinct endpoints every combination of service,
/// addresses and port has at most one row.
pub proof fn lemma_one_row_per_endpoint(endpoints: Seq<EndpointDbView>, i: int, j: int)
    requires
        distinct_endpoints(endpoints),
        0 <= i < endpoints.len(),
        0 <= j < endpoints.len(),
        same_endpoint(endpoints[i], endpoints[j]),
    ensures
        i == j,
{
    if i < j {
        assert(endpoints[i].endpoint_id != endpoints[j].endpoint_id);
        assert(!endpoint_matches(endpoints[j], endpoints[i]));
    } else if j < i {
        assert(endpoints[j].endpoint_id != endpoints[i].endpoint_id);
        assert(!endpoint_matches(endpoints[i], endpoints[j]));
    }
}

/// Writing a span row keeps the keys unique. The table then holds the
/// keys it held and the key of the row, and it grew by one row exactly
/// when the key was new.
pub proof fn lemma_with_span_row(spans: Seq<SpanDbView>, row: SpanDbView)
    requires
        unique_spans(spans),
    ensures
        unique_spans(with_span_row(spans, row)),
        has_span(with_span_row(spans, row), row.trace_id, row.id),
        forall|t: Seq<char>, id: Seq<char>|
            #![trigger has_span(with_span_row(spans, row), t, id)]
            has_span(with_span_row(spans, row), t, id) <==> has_span(spans, t, id) || (t
                == row.trace_id && id == row.id),
        with_span_row(spans, row).len() == if has_span(spans, row.trace_id, row.id) {
            spans.len()
        } else {
            spans.len() + 1
        },
{
    let p = |r: SpanDbView| r.trace_id == row.trace_id && r.id == row.id;
    let after = with_span_row(spans, row);
    lemma_first_where(spans, p);
    match span_index(spans, row.trace_id, row.id) {
        Some(i) => {
            assert(spans[i].trace_id == row.trace_id && spans[i].id == row.id);
            assert(after[i].trace_id == row.trace_id && after[i].id == row.id);
            assert forall|t: Seq<char>, id: Seq<char>|
                has_span(after, t, id) <==> has_span(spans, t, id) || (t == row.trace_id && id
                    == row.id) by {
                if has_span(after, t, id) {
                    let k = choose|k: int|
                        0 <= k < after.len() && #[trigger] after[k].trace_id == t && after[k].id
                            == id;
                    assert(spans[k].trace_id == t && spans[k].id == id);
                }
                if has_span(spans, t, id) {
                    let k = choose|k: int|
                        0 <= k < spans.len() && #[trigger] spans[k].trace_id == t && spans[k].id
                            == id;
                    assert(after[k].trace_id == t && after[k].id == id);
                }
            }
        },
        None => {
            assert(after[spans.len() as int].trace_id == row.trace_id && after[spans.len() as int].id == row.id);
            assert(!has_span(spans, row.trace_id, row.id)) by {
                if has_span(spans, row.trace_id, row.id) {
                    let k = choose|k: int|
                        0 <= k < spans.len() && #[trigger] spans[k].trace_id == row.trace_id
                            && spans[k].id == row.id;
                    assert(p(spans[k]));
                }
            }
            assert(unique_spans(after)) by {
                assert forall|i: int, j: int| 0 <= i < j < after.len() implies !(
                #[trigger] after[i].trace_id == #[trigger] after[j].trace_id && after[i].id
                    == after[j].id) by {
                    if j == spans.len() {
                        assert(!p(spans[i]));
                    }
                }
            }
            assert forall|t: Seq<char>, id: Seq<char>|
                has_span(after, t, id) <==> has_span(spans, t, id) || (t == row.trace_id && id
                    == row.id) by {
                if has_span(after, t, id) {
                    let k = choose|k: int|
                        0 <= k < after.len() && #[trigger] after[k].trace_id == t && after[k].id
                            == id;
                    if k < spans.len() {
                        assert(spans[k].trace_id == t && spans[k].id == id);
                    }
                }
                if has_span(spans, t, id) {
                    let k = choose|k: int|
                        0 <= k < spans.len() && #[trigger] spans[k].trace_id == t && spans[k].id
                            == id;
                    assert(after[k].trace_id == t && after[k].id == id);
                }
            }
        },
    }
}

/// Resolving an endpoint keeps the endpoints distinct and only ever adds
/// a row at the end.
pub proof fn lemma_with_endpoint(
    endpoints: Seq<EndpointDbView>,
    ep: Option<EndpointDbView>,
    new_id: Seq<char>,
)
    requires
        distinct_endpoints(endpoints),
    ensures
        distinct_endpoints(with_endpoint(endpoints, ep, new_id).0),
        with_endpoint(endpoints, ep, new_id).0.len() >= endpoints.len(),
        with_endpoint(endpoints, ep, new_id).0.take(endpoints.len() as int) == endpoints,
{
    let after = with_endpoint(endpoints, ep, new_id).0;
    assert(after.take(endpoints.len() as int) =~= endpoints);
    match ep {
        None => {},
        Some(query) => {
            lemma_first_where(endpoints, |row: EndpointDbView| endpoint_matches(query, row));
            lemma_first_where(endpoints, |row: EndpointDbView| row.endpoint_id == new_id);
            if found_endpoint(endpoints, query) is None && !has_endpoint_id(endpoints, new_id) {
                let added = EndpointDbView { endpoint_id: new_id, ..query };
                assert forall|i: int, j: int| 0 <= i < j < after.len() implies #[trigger] after[i].endpoint_id
                    != #[trigger] after[j].endpoint_id && !endpoint_matches(after[j], after[i]) by {
                    if j == endpoints.len() {
                        assert(!endpoint_matches(query, endpoints[i]));
                        assert(endpoints[i].endpoint_id != new_id);
                    }
                }
            }
        },
    }
}

/// Once an endpoint resolves to a row, it resolves to the same row
/// whatever rows are added later, and resolving it adds nothing.
pub proof fn lemma_endpoint_resolves_once(
    endpoints: Seq<EndpointDbView>,
    later: Seq<EndpointDbView>,
    query: EndpointDbView,
    first_id: Seq<char>,
    second_id: Seq<char>,
)
    requires
        with_endpoint(endpoints, Some(query), first_id).1 is Some,
        later.len() >= with_endpoint(endpoints, Some(query), first_id).0.len(),
        later.take(with_endpoint(endpoints, Some(query), first_id).0.len() as int)
            == with_endpoint(endpoints, Some(query), first_id).0,
    ensures
        with_endpoint(later, Some(query), second_id).0 == later,
        with_endpoint(later, Some(query), second_id).1 == with_endpoint(
            endpoints,
            Some(query),
            first_id,
        ).1,
{
    let p = |row: EndpointDbView| endpoint_matches(query, row);
    let first = with_endpoint(endpoints, Some(query), first_id);
    lemma_first_where(endpoints, p);
    lemma_first_where(first.0, p);
    lemma_first_where(later, p);
    // the row that the first resolution found or added
    let at: int = match found_endpoint(endpoints, query) {
        Some(i) => i,
        None => endpoints.len() as int,
    };
    assert(0 <= at < first.0.len());
    assert(p(first.0[at]));
    assert(first.0[at].endpoint_id == first.1->0);
    assert forall|k: int| 0 <= k < at implies !p(first.0[k]) by {
        assert(first.0[k] == endpoints[k]);
    }
    assert(later[at] == first.0[at]) by {
        assert(later.take(first.0.len() as int)[at] == later[at]);
    }
    assert forall|k: int| 0 <= k < at implies !p(later[k]) by {
        assert(later.take(first.0.len() as int)[k] == later[k]);
    }
    crate::seqs::lemma_first_where_at(later, p, at);
}

/// Merging a tag keeps the tag keys unique.
pub proof fn lemma_with_tag(tags: Seq<TagDbView>, row: TagDbView)
    requires
        unique_tags(tags),
    ensures
        unique_tags(with_tag(tags, row)),
{
    let p = |r: TagDbView| r.span_id == row.span_id && r.name == row.name;
    let after = with_tag(tags, row);
    lemma_first_where(tags, p);
    match tag_index(tags, row.span_id, row.name) {
        Some(i) => {
            assert forall|a: int, b: int| 0 <= a < b < after.len() implies !(
            #[trigger] after[a].span_id == #[trigger] after[b].span_id && after[a].name
                == after[b].name) by {
                assert(after[a].span_id == tags[a].span_id && after[a].name == tags[a].name);
                assert(after[b].span_id == tags[b].span_id && after[b].name == tags[b].name);
            }
        },
        None => {
            assert forall|a: int, b: int| 0 <= a < b < after.len() implies !(
            #[trigger] after[a].span_id == #[trigger] after[b].span_id && after[a].name
                == after[b].name) by {
                if b == tags.len() {
                    assert(!p(tags[a]));
                }
            }
        },
    }
}

/// Merging tags in one after the other keeps the tag keys unique.
pub proof fn lemma_with_tags(tags: Seq<TagDbView>, rows: Seq<TagDbView>)
    requires
        unique_tags(tags),
    ensures
        unique_tags(with_tags(tags, rows)),
    decreases rows.len(),
{
    if rows.len() > 0 {
        lemma_with_tags(tags, rows.drop_last());
        lemma_with_tag(with_tags(tags, rows.drop_last()), rows.last());
    }
}

/// Appending an annotation keeps the identifiers unique.
pub proof fn lemma_with_annotation(annotations: Seq<AnnotationDbView>, row: AnnotationDbView)
    requires
        unique_annotations(annotations),
    ensures
        unique_annotations(with_annotation(annotations, row)),
{
    let p = |r: AnnotationDbView| r.annotation_id == row.annotation_id;
    let after = with_annotation(annotations, row);
    lemma_first_where(annotations, p);
    if !has_annotation_id(annotations, row.annotation_id) {
        assert forall|a: int, b: int| 0 <= a < b < after.len() implies #[trigger] after[a].annotation_id
            != #[trigger] after[b].annotation_id by {
            if b == annotations.len() {
                assert(!p(annotations[a]));
            }
        }
    }
}

/// Appending annotations one after the other keeps the identifiers unique.
pub proof fn lemma_with_annotations(annotations: Seq<AnnotationDbView>, rows: Seq<AnnotationDbView>)
    requires
        unique_annotations(annotations),
    ensures
        unique_annotations(with_annotations(annotations, rows)),
    decreases rows.len(),
{
    if rows.len() > 0 {
        lemma_with_annotations(annotations, rows.drop_last());
        lemma_with_annotation(with_annotations(annotations, rows.drop_last()), rows.last());
    }
}

/// No two test results share `(test_id, trace_id)`.
pub open spec fn unique_results(results: Seq<TestResultDbView>) -> bool {
    forall|i: int, j: int|
        0 <= i < j < results.len() ==> !(#[trigger] results[i].test_id
            == #[trigger] results[j].test_id && results[i].trace_id == results[j].trace_id)
}

/// No test has two results that are kept as its latest success.
pub open spec fn one_kept_per_test(results: Seq<TestResultDbView>) -> bool {
    forall|i: int, j: int|
        0 <= i < j < results.len() ==> !(#[trigger] results[i].test_id
            == #[trigger] results[j].test_id && results[i].cleanup_status == TO_KEEP
            && results[j].cleanup_status == TO_KEEP)
}

/// Whether a new result is later than every kept result of its test
/// that it does not replace.
pub open spec fn later_than_kept(results: Seq<TestResultDbView>, row: TestResultDbView) -> bool {
    forall|k: int|
        0 <= k < results.len() && (#[trigger] results[k]).test_id == row.test_id
            && results[k].cleanup_status == TO_KEEP && results[k].trace_id != row.trace_id
            ==> results[k].date < row.date
}

/// No two placements share report, test, category and environment.
pub open spec fn unique_placements(placements: Seq<TestResultInReportDbView>) -> bool {
    forall|i: int, j: int|
        0 <= i < j < placements.len() ==> !(#[trigger] placements[i].report_id
            == #[trigger] placements[j].report_id && placements[i].test_id == placements[j].test_id
            && placements[i].category == placements[j].category && placements[i].environment
            == placements[j].environment)
}

/// No two reports share an identifier or group and name.
pub open spec fn unique_reports(reports: Seq<ReportDbView>) -> bool {
    forall|i: int, j: int|
        0 <= i < j < reports.len() ==> #[trigger] reports[i].id != #[trigger] reports[j].id && !(
        reports[i].folder == reports[j].folder && reports[i].name == reports[j].name)
}

/// Writing a test result keeps `(test_id, trace_id)` unique.
pub proof fn lemma_with_test_result(results: Seq<TestResultDbView>, row: TestResultDbView)
    requires
        unique_results(results),
    ensures
        unique_results(with_test_result(results, row)),
{
    let p = |r: TestResultDbView| r.test_id == row.test_id && r.trace_id == row.trace_id;
    lemma_first_where(results, p);
    let written = match result_index(results, row.test_id, row.trace_id) {
        Some(i) => results.update(i, row),
        None => results.push(row),
    };
    let after = with_test_result(results, row);
    assert forall|a: int, b: int| 0 <= a < b < after.len() implies !(#[trigger] after[a].test_id
        == #[trigger] after[b].test_id && after[a].trace_id == after[b].trace_id) by {
        assert(after[a].test_id == written[a].test_id && after[a].trace_id == written[a].trace_id);
        assert(after[b].test_id == written[b].test_id && after[b].trace_id == written[b].trace_id);
        match result_index(results, row.test_id, row.trace_id) {
            Some(i) => {
                assert(written[a].test_id == results[a].test_id && written[a].trace_id
                    == results[a].trace_id);
                assert(written[b].test_id == results[b].test_id && written[b].trace_id
                    == results[b].trace_id);
            },
            None => {
                if b == results.len() {
                    assert(!p(results[a]));
                }
            },
        }
    }
}

/// Writing a row of test results leaves every test with at most one
/// kept result, provided a row that is to be kept is later than the
/// kept result of its test.
pub proof fn lemma_with_test_result_keeps_one(results: Seq<TestResultDbView>, row: TestResultDbView)
    requires
        unique_results(results),
        one_kept_per_test(results),
        row.cleanup_status == TO_KEEP ==> later_than_kept(results, row),
    ensures
        one_kept_per_test(with_test_result(results, row)),
{
    let p = |r: TestResultDbView| r.test_id == row.test_id && r.trace_id == row.trace_id;
    lemma_first_where(results, p);
    let hit = result_index(results, row.test_id, row.trace_id);
    let written = match hit {
        Some(i) => results.update(i, row),
        None => results.push(row),
    };
    let at: int = match hit {
        Some(i) => i,
        None => results.len() as int,
    };
    let after = with_test_result(results, row);
    assert forall|a: int, b: int| 0 <= a < b < after.len() implies !(#[trigger] after[a].test_id
        == #[trigger] after[b].test_id && after[a].cleanup_status == TO_KEEP
        && after[b].cleanup_status == TO_KEEP) by {
        assert(after[a] == demoted(written[a], row.test_id, row.date));
        assert(after[b] == demoted(written[b], row.test_id, row.date));
        if after[a].test_id == after[b].test_id && after[a].cleanup_status == TO_KEEP
            && after[b].cleanup_status == TO_KEEP {
            // both were kept before the demotion, too
            assert(written[a].cleanup_status == TO_KEEP && written[b].cleanup_status == TO_KEEP);
            if a != at && b != at {
                assert(written[a] == results[a] && written[b] == results[b]);
                assert(results[a].test_id == results[b].test_id);
            } else {
                // one of them is the new row, the other an old kept row of its test
                let other = if a == at { b } else { a };
                assert(written[other] == results[other]);
                assert(results[other].test_id == row.test_id);
                assert(row.cleanup_status == TO_KEEP);
                if hit is Some {
                    assert(results[at].test_id == row.test_id && results[at].trace_id
                        == row.trace_id);
                    if other < at {
                        assert(!(results[other].test_id == results[at].test_id
                            && results[other].trace_id == results[at].trace_id));
                    } else {
                        assert(!(results[at].test_id == results[other].test_id
                            && results[at].trace_id == results[other].trace_id));
                    }
                } else {
                    assert(!p(results[other]));
                }
                assert(results[other].trace_id != row.trace_id);
                assert(results[other].date < row.date);
                assert(after[other].cleanup_status == WITH_DATA);
            }
        }
    }
}

/// Writing a placement keeps report, test, category and environment
/// unique: a second emission changes the row it finds.
pub proof fn lemma_with_placement(placements: Seq<TestResultInReportDbView>, row: TestResultInReportDbView)
    requires
        unique_placements(placements),
    ensures
        unique_placements(with_placement(placements, row)),
{
    let p = |r: TestResultInReportDbView|
        r.report_id == row.report_id && r.test_id == row.test_id && r.category == row.category
            && r.environment == row.environment;
    lemma_first_where(placements, p);
    let after = with_placement(placements, row);
    assert forall|a: int, b: int| 0 <= a < b < after.len() implies !(
    #[trigger] after[a].report_id == #[trigger] after[b].report_id && after[a].test_id
        == after[b].test_id && after[a].category == after[b].category && after[a].environment
        == after[b].environment) by {
        match placement_index(
            placements,
            row.report_id,
            row.test_id,
            row.category,
            row.environment,
        ) {
            Some(i) => {
                assert(after[a].report_id == placements[a].report_id && after[a].test_id
                    == placements[a].test_id && after[a].category == placements[a].category
                    && after[a].environment == placements[a].environment);
                assert(after[b].report_id == placements[b].report_id && after[b].test_id
                    == placements[b].test_id && after[b].category == placements[b].category
                    && after[b].environment == placements[b].environment);
            },
            None => {
                if b == placements.len() {
                    assert(!p(placements[a]));
                }
            },
        }
    }
}

/// Touching or adding a report keeps identifier and group and name unique.
pub proof fn lemma_with_touched_report(reports: Seq<ReportDbView>, report: ReportDbView, new_id: Seq<char>)
    requires
        unique_reports(reports),
    ensures
        unique_reports(with_touched_report(reports, report, new_id).0),
{
    let p = |r: ReportDbView| r.folder == report.folder && r.name == report.name;
    let q = |r: ReportDbView| r.id == new_id;
    lemma_first_where(reports, p);
    lemma_first_where(reports, q);
    let after = with_touched_report(reports, report, new_id).0;
    assert forall|a: int, b: int| 0 <= a < b < after.len() implies #[trigger] after[a].id
        != #[trigger] after[b].id && !(after[a].folder == after[b].folder && after[a].name
        == after[b].name) by {
        match report_index(reports, report.folder, report.name) {
            Some(i) => {
                assert(after[a].id == reports[a].id && after[a].folder == reports[a].folder
                    && after[a].name == reports[a].name);
                assert(after[b].id == reports[b].id && after[b].folder == reports[b].folder
                    && after[b].name == reports[b].name);
            },
            None => {
                if !has_report_id(reports, new_id) && b == reports.len() {
                    assert(!p(reports[a]));
                    assert(!q(reports[a]));
                }
            },
        }
    }
}

/// Carrying an order out keeps the keys of reports and placements unique.
pub proof fn lemma_placed(s: Store, msg: ResultForReportView, now: i64, new_id: Seq<char>)
    requires
        unique_reports(s.reports),
        unique_placements(s.placements),
    ensures
        unique_reports(placed(s, msg, now, new_id).reports),
        unique_placements(placed(s, msg, now, new_id).placements),
{
    lemma_with_touched_report(s.reports, report_row(msg, now), new_id);
    match with_touched_report(s.reports, report_row(msg, now), new_id).1 {
        Some(report_id) => {
            lemma_with_placement(s.placements, placement_row(msg, report_id));
        },
        None => {},
    }
}

/// Carrying the same order out a second time leaves the placements as
/// the first time left them, provided the first time found its report
/// or could add it.
pub proof fn lemma_placing_twice(
    s: Store,
    msg: ResultForReportView,
    first_now: i64,
    first_id: Seq<char>,
    second_now: i64,
    second_id: Seq<char>,
)
    requires
        with_touched_report(s.reports, report_row(msg, first_now), first_id).1 is Some,
    ensures
        placed(placed(s, msg, first_now, first_id), msg, second_now, second_id).placements
            == placed(s, msg, first_now, first_id).placements,
{
    let p = |r: ReportDbView| r.folder == msg.report_group && r.name == msg.report_name;
    let first = with_touched_report(s.reports, report_row(msg, first_now), first_id);
    let once = placed(s, msg, first_now, first_id);
    lemma_first_where(s.reports, p);
    lemma_first_where(once.reports, p);
    match first.1 {
        Some(report_id) => {
            // where the report stands after the first time
            let at: int = match report_index(s.reports, msg.report_group, msg.report_name) {
                Some(i) => i,
                None => s.reports.len() as int,
            };
            assert(p(once.reports[at]));
            assert(once.reports[at].id == report_id);
            assert forall|k: int| 0 <= k < at implies !p(once.reports[k]) by {
                assert(once.reports[k].folder == s.reports[k].folder && once.reports[k].name
                    == s.reports[k].name);
            }
            crate::seqs::lemma_first_where_at(once.reports, p, at);
            let second = with_touched_report(
                once.reports,
                report_row(msg, second_now),
                second_id,
            );
            assert(second.1 == Some(report_id));
            // and where the placement stands
            let row = placement_row(msg, report_id);
            let q = |r: TestResultInReportDbView|
                r.report_id == row.report_id && r.test_id == row.test_id && r.category
                    == row.category && r.environment == row.environment;
            lemma_first_where(s.placements, q);
            let spot: int = match placement_index(
                s.placements,
                row.report_id,
                row.test_id,
                row.category,
                row.environment,
            ) {
                Some(i) => i,
                None => s.placements.len() as int,
            };
            assert(q(once.placements[spot]));
            assert forall|k: int| 0 <= k < spot implies !q(once.placements[k]) by {
                assert(once.placements[k] == s.placements[k]);
            }
            crate::seqs::lemma_first_where_at(once.placements, q, spot);
            assert(with_placement(once.placements, row) =~= once.placements);
        },
        None => {},
    }
}

/// No two test items share an identifier or parent, name and source,
/// and every item below the top stands behind its parent.
pub open spec fn ordered_items(items: Seq<TestItemDbView>) -> bool {
    &&& forall|i: int, j: int|
        0 <= i < j < items.len() ==> #[trigger] items[i].id != #[trigger] items[j].id && !(
        items[i].parent_id == items[j].parent_id && items[i].name == items[j].name
            && items[i].source == items[j].source)
    &&& forall|j: int|
        0 <= j < items.len() ==> (#[trigger] items[j]).parent_id == root_id() || exists|i: int|
            0 <= i < j && #[trigger] items[i].id == items[j].parent_id
}

/// Whether a parent can take a new item: it is the top or a known item.
pub open spec fn known_parent(items: Seq<TestItemDbView>, parent_id: Seq<char>) -> bool {
    parent_id == root_id() || exists|i: int| 0 <= i < items.len() && #[trigger] items[i].id == parent_id
}

/// Resolving a test item below a known parent keeps the tree in order;
/// what it resolves to is then a known item.
pub proof fn lemma_with_test_item(items: Seq<TestItemDbView>, item: TestItemDbView, new_id: Seq<char>)
    requires
        ordered_items(items),
        known_parent(items, item.parent_id),
    ensures
        ordered_items(with_test_item(items, item, new_id).0),
        with_test_item(items, item, new_id).1 is Some ==> exists|i: int|
            0 <= i < with_test_item(items, item, new_id).0.len() && #[trigger] with_test_item(
                items,
                item,
                new_id,
            ).0[i].id == with_test_item(items, item, new_id).1->0,
{
    let p = |row: TestItemDbView|
        row.name == item.name && row.source == item.source && row.parent_id == item.parent_id;
    let q = |row: TestItemDbView| row.id == new_id;
    lemma_first_where(items, p);
    lemma_first_where(items, q);
    let after = with_test_item(items, item, new_id).0;
    match item_index(items, item.parent_id, item.name, item.source) {
        Some(i) => {
            assert(after[i].id == items[i].id);
        },
        None => {
            if !has_item_id(items, new_id) {
                let n = items.len() as int;
                assert(after[n].id == new_id);
                assert forall|i: int, j: int| 0 <= i < j < after.len() implies #[trigger] after[i].id
                    != #[trigger] after[j].id && !(after[i].parent_id == after[j].parent_id
                    && after[i].name == after[j].name && after[i].source == after[j].source) by {
                    if j == n {
                        assert(!p(items[i]));
                        assert(!q(items[i]));
                    }
                }
                assert forall|j: int| 0 <= j < after.len() implies (#[trigger] after[j]).parent_id
                    == root_id() || exists|i: int|
                    0 <= i < j && #[trigger] after[i].id == after[j].parent_id by {
                    if j == n {
                        if item.parent_id != root_id() {
                            let i = choose|i: int|
                                0 <= i < items.len() && #[trigger] items[i].id == item.parent_id;
                            assert(after[i].id == after[j].parent_id);
                        }
                    } else if items[j].parent_id != root_id() {
                        let i = choose|i: int|
                            0 <= i < j && #[trigger] items[i].id == items[j].parent_id;
                        assert(after[i].id == after[j].parent_id);
                    }
                }
            }
        },
    }
}

/// Resolving the items of a path from the top keeps the tree in order.
pub proof fn lemma_with_test_path(
    items: Seq<TestItemDbView>,
    names: Seq<Seq<char>>,
    ids: Seq<Seq<char>>,
)
    requires
        ordered_items(items),
    ensures
        ordered_items(with_test_path(items, root_id(), names, ids).0),
        with_test_path(items, root_id(), names, ids).1 is Some ==> known_parent(
            with_test_path(items, root_id(), names, ids).0,
            with_test_path(items, root_id(), names, ids).1->0,
        ),
    decreases names.len(),
{
    if names.len() > 0 {
        lemma_with_test_path(items, names.drop_last(), ids.drop_last());
        let above = with_test_path(items, root_id(), names.drop_last(), ids.drop_last());
        match above.1 {
            Some(p) => {
                lemma_with_test_item(
                    above.0,
                    TestItemDbView { id: "n/a"@, parent_id: p, name: names.last(), source: 0 },
                    ids.last(),
                );
            },
            None => {},
        }
    }
}

/// Saving a test result keeps the test tree in order, the keys of the
/// results unique, and every test with at most one kept result: a
/// success that comes in no later than the kept result of its test is
/// not kept.
pub proof fn lemma_saved_test_result(s: Store, tr: TestResultView, ids: Seq<Seq<char>>)
    requires
        ordered_items(s.test_items),
        unique_results(s.test_results),
        one_kept_per_test(s.test_results),
    ensures
        ordered_items(saved_test_result(s, tr, ids).0.test_items),
        unique_results(saved_test_result(s, tr, ids).0.test_results),
        one_kept_per_test(saved_test_result(s, tr, ids).0.test_results),
{
    lemma_with_test_path(s.test_items, tr.path.push(tr.name), ids);
    match with_test_path(s.test_items, root_id(), tr.path.push(tr.name), ids).1 {
        Some(test_id) => {
            let row = result_row(s.test_results, tr, test_id);
            lemma_with_test_result(s.test_results, row);
            lemma_with_test_result_keeps_one(s.test_results, row);
        },
        None => {},
    }
}

/// The retention sweep keeps every key of the store unique, and never
/// turns a result into one that is kept.
pub proof fn lemma_cleaned_up(s: Store, config: CleanUpConfig, now: i64)
    requires
        unique_spans(s.spans),
        unique_tags(s.tags),
        unique_annotations(s.annotations),
        unique_results(s.test_results),
        unique_reports(s.reports),
        unique_placements(s.placements),
    ensures
        unique_spans(cleaned_up(s, config, now).spans),
        unique_tags(cleaned_up(s, config, now).tags),
        unique_annotations(cleaned_up(s, config, now).annotations),
        unique_results(cleaned_up(s, config, now).test_results),
        one_kept_per_test(s.test_results) ==> one_kept_per_test(
            cleaned_up(s, config, now).test_results,
        ),
        unique_reports(cleaned_up(s, config, now).reports),
        unique_placements(cleaned_up(s, config, now).placements),
        cleaned_up(s, config, now).endpoints == s.endpoints,
        cleaned_up(s, config, now).test_items == s.test_items,
{
    let first = horizon(now, config.delay_test_results);
    let second = horizon(now, config.delay_spans);
    let third = horizon(now, config.delay_reports);
    let a = purged(s, first);
    let b = emptied_store(a, second);
    let c = without_old_reports(b, third);
    assert(c == cleaned_up(s, config, now));
    let same_result = |x: TestResultDbView, y: TestResultDbView|
        x.test_id == y.test_id && x.trace_id == y.trace_id;
    let both_kept = |x: TestResultDbView, y: TestResultDbView|
        x.test_id == y.test_id && x.cleanup_status == TO_KEEP && y.cleanup_status == TO_KEEP;
    let same_placement = |x: TestResultInReportDbView, y: TestResultInReportDbView|
        x.report_id == y.report_id && x.test_id == y.test_id && x.category == y.category
            && x.environment == y.environment;
    let same_span = |x: SpanDbView, y: SpanDbView| x.trace_id == y.trace_id && x.id == y.id;
    let same_tag = |x: TagDbView, y: TagDbView| x.span_id == y.span_id && x.name == y.name;
    let same_annotation = |x: AnnotationDbView, y: AnnotationDbView|
        x.annotation_id == y.annotation_id;
    let same_report = |x: ReportDbView, y: ReportDbView|
        x.id == y.id || (x.folder == y.folder && x.name == y.name);
    // the shells go
    lemma_filter_keeps_distinct(s.test_results, keeps_result(first), same_result);
    if one_kept_per_test(s.test_results) {
        lemma_filter_keeps_distinct(s.test_results, keeps_result(first), both_kept);
        assert(one_kept_per_test(a.test_results));
    }
    lemma_filter_keeps_distinct(
        s.placements,
        keeps_placement_of_result(s.test_results, first),
        same_placement,
    );
    assert(unique_results(a.test_results));
    assert(unique_placements(a.placements));
    // the old results lose their spans
    lemma_filter_keeps_distinct(a.spans, keeps_span(a.test_results, second), same_span);
    lemma_filter_keeps_distinct(a.tags, keeps_tag(a.spans, a.test_results, second), same_tag);
    lemma_filter_keeps_distinct(
        a.annotations,
        keeps_annotation(a.spans, a.test_results, second),
        same_annotation,
    );
    assert(unique_spans(b.spans));
    assert(unique_tags(b.tags));
    assert(unique_annotations(b.annotations));
    assert forall|i: int, j: int| 0 <= i < j < b.test_results.len() implies !(
    #[trigger] b.test_results[i].test_id == #[trigger] b.test_results[j].test_id
        && b.test_results[i].trace_id == b.test_results[j].trace_id) by {
        assert(b.test_results[i] == emptied(a.test_results[i], second));
        assert(b.test_results[j] == emptied(a.test_results[j], second));
        assert(!(a.test_results[i].test_id == a.test_results[j].test_id
            && a.test_results[i].trace_id == a.test_results[j].trace_id));
    }
    if one_kept_per_test(s.test_results) {
        assert forall|i: int, j: int| 0 <= i < j < b.test_results.len() implies !(
        #[trigger] b.test_results[i].test_id == #[trigger] b.test_results[j].test_id
            && b.test_results[i].cleanup_status == TO_KEEP && b.test_results[j].cleanup_status
            == TO_KEEP) by {
            assert(b.test_results[i] == emptied(a.test_results[i], second));
            assert(b.test_results[j] == emptied(a.test_results[j], second));
            assert(!(a.test_results[i].test_id == a.test_results[j].test_id
                && a.test_results[i].cleanup_status == TO_KEEP
                && a.test_results[j].cleanup_status == TO_KEEP));
        }
    }
    // the old reports go
    lemma_filter_keeps_distinct(b.reports, keeps_report(third), same_report);
    lemma_filter_keeps_distinct(
        b.placements,
        keeps_placement_of_report(b.reports, third),
        same_placement,
    );
}

/// Everything that has to hold of a store for the guarantees of this
/// crate: the keys of its tables are unique, its test tree is in order,
/// and no test has two kept results.
pub open spec fn well_formed(s: Store) -> bool {
    &&& unique_spans(s.spans)
    &&& distinct_endpoints(s.endpoints)
    &&& unique_tags(s.tags)
    &&& unique_annotations(s.annotations)
    &&& ordered_items(s.test_items)
    &&& unique_results(s.test_results)
    &&& one_kept_per_test(s.test_results)
    &&& unique_reports(s.reports)
    &&& unique_placements(s.placements)
}

/// The empty store is well formed.
pub proof fn lemma_empty_store_is_well_formed()
    ensures
        well_formed(empty_store()),
{
}

} // verus!
