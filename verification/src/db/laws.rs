//! What the writes guarantee over whole batches and across calls.

use vstd::prelude::*;
use crate::config::CleanUpConfig;
use crate::db::invariants::{
    distinct_endpoints, has_span, lemma_cleaned_up, lemma_placed, lemma_saved_test_result,
    lemma_with_annotations, lemma_with_endpoint, lemma_with_span_row, lemma_with_tags,
    unique_annotations, unique_spans, unique_tags, well_formed,
};
use crate::db::read::span::{
    in_range, selected_spans, selects, span_of_row, spans_found, trace_lookup_of, SpanQueryView,
};
use crate::db::read::test::{selected_results, selects_result, TestResultQueryView};
use crate::db::schema::{SpanDb, SpanDbView, Store, TestResultDb};
use crate::db::update::cleanup::cleaned_up;
use crate::db::update::reports::placed;
use crate::db::update::span::{
    annotation_rows, opt_endpoint_row, span_index, span_row, tag_rows, upserted_span,
    with_endpoint, with_span_row, UpsertIds,
};
use crate::db::update::test::saved_test_result;
use crate::engine::ingestor::{batch_ingested, ingested};
use crate::engine::report::{placed_all, trace_spans, ResultForReportView};
use crate::engine::test_result::{
    after_trace_done, derived_result, missing_tag, orders_of_trace, TestResultView,
};
use crate::opentracing::span::SpanView;
use crate::seqs::{
    lemma_filter_keeps_distinct, lemma_filter_len_push, lemma_filter_len_update,
    lemma_filter_members, lemma_filter_none, lemma_first_where, lemma_sorted_is_ordered,
    lemma_sorted_keeps_distinct, lemma_sorted_len, lemma_sorted_members, order_of, sorted_by,
    Ordered,
};
use crate::text::prefix;

verus! {

/// Whether one of the spans of a batch has the key.
pub open spec fn batch_has(batch: Seq<SpanView>, trace_id: Seq<char>, id: Seq<char>) -> bool {
    exists|k: int| 0 <= k < batch.len() && #[trigger] batch[k].trace_id == trace_id && batch[k].id == id
}

/// Writing a span keeps the keys of all four tables it touches unique.
pub proof fn lemma_upserted_span_keeps_keys(s: Store, span: SpanView, ids: UpsertIds)
    requires
        unique_spans(s.spans),
        distinct_endpoints(s.endpoints),
        unique_tags(s.tags),
        unique_annotations(s.annotations),
    ensures
        unique_spans(upserted_span(s, span, ids).spans),
        distinct_endpoints(upserted_span(s, span, ids).endpoints),
        unique_tags(upserted_span(s, span, ids).tags),
        unique_annotations(upserted_span(s, span, ids).annotations),
{
    let local = with_endpoint(s.endpoints, opt_endpoint_row(span.local_endpoint), ids.local);
    lemma_with_endpoint(s.endpoints, opt_endpoint_row(span.local_endpoint), ids.local);
    lemma_with_endpoint(local.0, opt_endpoint_row(span.remote_endpoint), ids.remote);
    let remote = with_endpoint(local.0, opt_endpoint_row(span.remote_endpoint), ids.remote);
    let row = SpanDbView {
        local_endpoint_id: local.1,
        remote_endpoint_id: remote.1,
        ..span_row(span)
    };
    lemma_with_span_row(s.spans, row);
    lemma_with_tags(s.tags, tag_rows(span.id, span.tags));
    lemma_with_annotations(s.annotations, annotation_rows(span, ids.annotations));
}

/// After a batch was accepted the span table holds every span of the
/// batch, each key once, next to the spans it held before and no others.
pub proof fn lemma_ingested_spans(s: Store, batch: Seq<SpanView>, ids: Seq<UpsertIds>)
    requires
        unique_spans(s.spans),
        ids.len() == batch.len(),
    ensures
        unique_spans(ingested(s, batch, ids).spans),
        forall|t: Seq<char>, id: Seq<char>|
            #![trigger has_span(ingested(s, batch, ids).spans, t, id)]
            has_span(ingested(s, batch, ids).spans, t, id) <==> has_span(s.spans, t, id)
                || batch_has(batch, t, id),
    decreases batch.len(),
{
    if batch.len() > 0 {
        let rest = batch.drop_last();
        let before = ingested(s, rest, ids.drop_last());
        lemma_ingested_spans(s, rest, ids.drop_last());
        let span = batch.last();
        let local = with_endpoint(
            before.endpoints,
            opt_endpoint_row(span.local_endpoint),
            ids.last().local,
        );
        let remote = with_endpoint(
            local.0,
            opt_endpoint_row(span.remote_endpoint),
            ids.last().remote,
        );
        let row = SpanDbView {
            local_endpoint_id: local.1,
            remote_endpoint_id: remote.1,
            ..span_row(span)
        };
        lemma_with_span_row(before.spans, row);
        let after = ingested(s, batch, ids).spans;
        assert(after == with_span_row(before.spans, row));
        assert forall|t: Seq<char>, id: Seq<char>|
            has_span(after, t, id) <==> has_span(s.spans, t, id) || batch_has(batch, t, id) by {
            if batch_has(rest, t, id) {
                let k = choose|k: int|
                    0 <= k < rest.len() && #[trigger] rest[k].trace_id == t && rest[k].id == id;
                assert(batch[k].trace_id == t && batch[k].id == id);
            }
            if t == span.trace_id && id == span.id {
                assert(batch[batch.len() - 1].trace_id == t && batch[batch.len() - 1].id == id);
            }
            if batch_has(batch, t, id) {
                let k = choose|k: int|
                    0 <= k < batch.len() && #[trigger] batch[k].trace_id == t && batch[k].id == id;
                if k < rest.len() {
                    assert(rest[k].trace_id == t && rest[k].id == id);
                }
            }
        }
    } else {
        assert forall|t: Seq<char>, id: Seq<char>| !batch_has(batch, t, id) by {}
    }
}

/// Posting spans whose keys the store already holds adds no span.
pub proof fn lemma_known_spans_add_none(s: Store, batch: Seq<SpanView>, ids: Seq<UpsertIds>)
    requires
        unique_spans(s.spans),
        ids.len() == batch.len(),
        forall|k: int| 0 <= k < batch.len() ==> has_span(s.spans, (#[trigger] batch[k]).trace_id, batch[k].id),
    ensures
        ingested(s, batch, ids).spans.len() == s.spans.len(),
    decreases batch.len(),
{
    if batch.len() > 0 {
        let rest = batch.drop_last();
        let before = ingested(s, rest, ids.drop_last());
        assert forall|k: int| 0 <= k < rest.len() implies has_span(
            s.spans,
            (#[trigger] rest[k]).trace_id,
            rest[k].id,
        ) by {
            assert(rest[k] == batch[k]);
        }
        lemma_known_spans_add_none(s, rest, ids.drop_last());
        lemma_ingested_spans(s, rest, ids.drop_last());
        let span = batch.last();
        assert(span == batch[batch.len() - 1]);
        assert(has_span(s.spans, span.trace_id, span.id));
        assert(has_span(before.spans, span.trace_id, span.id));
        let local = with_endpoint(
            before.endpoints,
            opt_endpoint_row(span.local_endpoint),
            ids.last().local,
        );
        let remote = with_endpoint(
            local.0,
            opt_endpoint_row(span.remote_endpoint),
            ids.last().remote,
        );
        let row = SpanDbView {
            local_endpoint_id: local.1,
            remote_endpoint_id: remote.1,
            ..span_row(span)
        };
        lemma_with_span_row(before.spans, row);
    }
}

/// Posting a batch a second time adds no span.
pub proof fn lemma_reposting_adds_none(
    s: Store,
    batch: Seq<SpanView>,
    first_ids: Seq<UpsertIds>,
    second_ids: Seq<UpsertIds>,
)
    requires
        unique_spans(s.spans),
        first_ids.len() == batch.len(),
        second_ids.len() == batch.len(),
    ensures
        ingested(ingested(s, batch, first_ids), batch, second_ids).spans.len() == ingested(
            s,
            batch,
            first_ids,
        ).spans.len(),
{
    let once = ingested(s, batch, first_ids);
    lemma_ingested_spans(s, batch, first_ids);
    assert forall|k: int| 0 <= k < batch.len() implies has_span(
        once.spans,
        (#[trigger] batch[k]).trace_id,
        batch[k].id,
    ) by {
        assert(batch_has(batch, batch[k].trace_id, batch[k].id));
    }
    lemma_known_spans_add_none(once, batch, second_ids);
}

/// A span whose key the store holds changes nothing of its row but the
/// duration, and no other span row at all.
pub proof fn lemma_known_span_updates_duration_only(s: Store, span: SpanView, ids: UpsertIds)
    requires
        span_index(s.spans, span.trace_id, span.id) is Some,
    ensures
        ({
            let i = span_index(s.spans, span.trace_id, span.id)->0;
            let after = upserted_span(s, span, ids).spans;
            &&& 0 <= i < s.spans.len()
            &&& after.len() == s.spans.len()
            &&& after[i] == (SpanDbView { duration: span.duration, ..s.spans[i] })
            &&& forall|k: int| 0 <= k < after.len() && k != i ==> after[k] == s.spans[k]
        }),
{
    lemma_first_where(
        s.spans,
        |row: SpanDbView| row.trace_id == span.trace_id && row.id == span.id,
    );
}

/// Accepting a batch keeps the endpoints distinct: whatever the spans
/// of the batch share, no combination of service, addresses and port
/// gets a second row.
pub proof fn lemma_ingested_endpoints(s: Store, batch: Seq<SpanView>, ids: Seq<UpsertIds>)
    requires
        distinct_endpoints(s.endpoints),
        ids.len() == batch.len(),
    ensures
        distinct_endpoints(ingested(s, batch, ids).endpoints),
    decreases batch.len(),
{
    if batch.len() > 0 {
        let before = ingested(s, batch.drop_last(), ids.drop_last());
        lemma_ingested_endpoints(s, batch.drop_last(), ids.drop_last());
        let span = batch.last();
        lemma_with_endpoint(
            before.endpoints,
            opt_endpoint_row(span.local_endpoint),
            ids.last().local,
        );
        let local = with_endpoint(
            before.endpoints,
            opt_endpoint_row(span.local_endpoint),
            ids.last().local,
        );
        lemma_with_endpoint(local.0, opt_endpoint_row(span.remote_endpoint), ids.last().remote);
    }
}

/// Every span that a query returns has a timestamp in the range of the
/// query: at most `end_ts` and, with a lookback, at least
/// `end_ts - lookback`, both bounds included.
pub proof fn lemma_found_spans_in_range(s: Store, q: SpanQueryView, k: int)
    requires
        q.end_ts is Some,
        0 <= k < spans_found(s, q).len(),
    ensures
        spans_found(s, q)[k].timestamp is Some,
        in_range(spans_found(s, q)[k].timestamp->0, q.end_ts->0, q.lookback),
{
    let rows = selected_spans(s, q);
    let row = rows[k];
    assert(spans_found(s, q)[k] == span_of_row(s, row, q.only_endpoint));
    let endpoint: Option<Seq<char>> = match q.service_name {
        Some(name) => match crate::db::read::span::service_endpoint(
            s.endpoints,
            crate::text::lowercase_of(name),
        ) {
            Some(i) => Some(s.endpoints[i].endpoint_id),
            None => None,
        },
        None => None,
    };
    let p = selects(q, endpoint);
    let kept = s.spans.filter(p);
    let sorted = sorted_by(kept, order_of::<SpanDb>());
    assert(rows == prefix(sorted, crate::db::read::span::row_limit(q.limit)));
    assert(sorted.contains(row)) by {
        assert(sorted[k] == row);
    }
    lemma_sorted_members(kept, order_of::<SpanDb>());
    lemma_filter_members(s.spans, p);
    assert(kept.contains(row));
    assert(p(row));
}

/// Writing a span keeps the store well formed.
pub proof fn lemma_upserted_span_well_formed(s: Store, span: SpanView, ids: UpsertIds)
    requires
        well_formed(s),
    ensures
        well_formed(upserted_span(s, span, ids)),
{
    lemma_upserted_span_keeps_keys(s, span, ids);
}

/// Accepting a batch keeps the store well formed.
pub proof fn lemma_ingested_well_formed(s: Store, batch: Seq<SpanView>, ids: Seq<UpsertIds>)
    requires
        well_formed(s),
    ensures
        well_formed(ingested(s, batch, ids)),
    decreases batch.len(),
{
    if batch.len() > 0 {
        lemma_ingested_well_formed(s, batch.drop_last(), ids.drop_last());
        lemma_upserted_span_well_formed(
            ingested(s, batch.drop_last(), ids.drop_last()),
            batch.last(),
            ids.last(),
        );
    }
}

/// Saving a test result keeps the store well formed: there is one
/// result for a test and a trace, and at most one kept result for a
/// test, whatever was saved before and in whatever order.
pub proof fn lemma_saved_test_result_well_formed(s: Store, tr: TestResultView, ids: Seq<Seq<char>>)
    requires
        well_formed(s),
    ensures
        well_formed(saved_test_result(s, tr, ids).0),
{
    lemma_saved_test_result(s, tr, ids);
}

/// Carrying an order out keeps the store well formed: a test has one
/// placement in a report under a category and an environment.
pub proof fn lemma_placed_well_formed(s: Store, msg: ResultForReportView, now: i64, new_id: Seq<char>)
    requires
        well_formed(s),
    ensures
        well_formed(placed(s, msg, now, new_id)),
{
    lemma_placed(s, msg, now, new_id);
}

/// Carrying orders out one after the other keeps the store well formed.
pub proof fn lemma_placed_all_well_formed(
    s: Store,
    orders: Seq<ResultForReportView>,
    now: i64,
    ids: Seq<Seq<char>>,
)
    requires
        well_formed(s),
    ensures
        well_formed(placed_all(s, orders, now, ids)),
        placed_all(s, orders, now, ids).test_results == s.test_results,
    decreases orders.len(),
{
    if orders.len() > 0 {
        lemma_placed_all_well_formed(s, orders.drop_last(), now, ids.drop_last());
        lemma_placed_well_formed(
            placed_all(s, orders.drop_last(), now, ids.drop_last()),
            orders.last(),
            now,
            ids.last(),
        );
    }
}

/// The retention sweep keeps the store well formed.
pub proof fn lemma_cleaned_up_well_formed(s: Store, config: CleanUpConfig, now: i64)
    requires
        well_formed(s),
    ensures
        well_formed(cleaned_up(s, config, now)),
{
    lemma_cleaned_up(s, config, now);
}

/// Looking at a finished trace keeps the store well formed.
pub proof fn lemma_after_trace_done_well_formed(
    s: Store,
    trace_id: Seq<char>,
    now: i64,
    item_ids: Seq<Seq<char>>,
    report_ids: Seq<Seq<char>>,
)
    requires
        well_formed(s),
    ensures
        well_formed(after_trace_done(s, trace_id, now, item_ids, report_ids)),
{
    let spans = trace_spans(s, trace_id, now);
    if missing_tag(spans) is None {
        lemma_saved_test_result_well_formed(s, derived_result(spans), item_ids);
        let saved = saved_test_result(s, derived_result(spans), item_ids);
        match saved.1 {
            Some(test_id) => {
                let orders = orders_of_trace(
                    saved.0,
                    TestResultView { test_id, ..derived_result(spans) },
                    now,
                );
                lemma_placed_all_well_formed(
                    saved.0,
                    orders,
                    now,
                    crate::text::prefix(report_ids, orders.len()),
                );
            },
            None => {},
        }
    }
}

/// The endpoint that a query narrows the spans to, where it names a
/// service that has one.
pub open spec fn query_endpoint(s: Store, q: SpanQueryView) -> Option<Seq<char>> {
    match q.service_name {
        Some(name) => match crate::db::read::span::service_endpoint(
            s.endpoints,
            crate::text::lowercase_of(name),
        ) {
            Some(i) => Some(s.endpoints[i].endpoint_id),
            None => None,
        },
        None => None,
    }
}

/// A query that names no service and whose limit is not reached returns
/// exactly the rows that it selects: every span of the store that passes
/// its filters and no other row.
pub proof fn lemma_selected_spans_are_the_selected(s: Store, q: SpanQueryView, row: SpanDbView)
    requires
        q.service_name is None,
        s.spans.filter(selects(q, None)).len() <= crate::db::read::span::row_limit(q.limit),
    ensures
        selected_spans(s, q).contains(row) <==> s.spans.contains(row) && selects(q, None)(row),
{
    let kept = s.spans.filter(selects(q, None));
    lemma_sorted_len(kept, order_of::<SpanDb>());
    lemma_sorted_members(kept, order_of::<SpanDb>());
    lemma_filter_members(s.spans, selects(q, None));
    assert(selected_spans(s, q) == sorted_by(kept, order_of::<SpanDb>()));
}

/// No span is returned twice: the rows of an answer have keys that
/// differ, as the rows of the store have.
pub proof fn lemma_selected_spans_once(s: Store, q: SpanQueryView)
    requires
        unique_spans(s.spans),
    ensures
        unique_spans(selected_spans(s, q)),
{
    let same = |x: SpanDbView, y: SpanDbView| x.trace_id == y.trace_id && x.id == y.id;
    let p = selects(q, query_endpoint(s, q));
    let kept = s.spans.filter(p);
    lemma_filter_keeps_distinct(s.spans, p, same);
    lemma_sorted_keeps_distinct(kept, order_of::<SpanDb>(), same);
    let sorted = sorted_by(kept, order_of::<SpanDb>());
    let rows = selected_spans(s, q);
    assert forall|i: int, j: int| 0 <= i < j < rows.len() implies !(#[trigger] rows[i].trace_id
        == #[trigger] rows[j].trace_id && rows[i].id == rows[j].id) by {
        assert(rows[i] == sorted[i] && rows[j] == sorted[j]);
        assert(!same(sorted[i], sorted[j]));
    }
}

/// The spans of an answer come by timestamp: no span stands behind a
/// later one, and none with a timestamp before one without.
pub proof fn lemma_selected_spans_in_order(s: Store, q: SpanQueryView, i: int, j: int)
    requires
        0 <= i < j < selected_spans(s, q).len(),
    ensures
        selected_spans(s, q)[j].ts is None ==> selected_spans(s, q)[i].ts is None,
        selected_spans(s, q)[i].ts is Some && selected_spans(s, q)[j].ts is Some ==> selected_spans(
            s,
            q,
        )[i].ts->0 <= selected_spans(s, q)[j].ts->0,
{
    let p = selects(q, query_endpoint(s, q));
    let kept = s.spans.filter(p);
    let sorted = sorted_by(kept, order_of::<SpanDb>());
    let rows = selected_spans(s, q);
    assert(rows[i] == sorted[i] && rows[j] == sorted[j]);
    lemma_sorted_is_ordered(kept, order_of::<SpanDb>());
    assert(!SpanDb::goes_before(sorted[j], sorted[i]));
    lemma_sorted_members(kept, order_of::<SpanDb>());
    lemma_filter_members(s.spans, p);
    assert(sorted.contains(sorted[i]) && sorted.contains(sorted[j]));
    assert(p(sorted[i]) && p(sorted[j]));
}

/// The test results of an answer come by date, the latest first, and
/// every one of them is dated within the range of the query.
pub proof fn lemma_selected_results_in_order(s: Store, q: TestResultQueryView, i: int, j: int)
    requires
        0 <= i < j < selected_results(s, q).len(),
    ensures
        selected_results(s, q)[i].date >= selected_results(s, q)[j].date,
        in_range(selected_results(s, q)[i].date, q.ts, q.lookback),
        in_range(selected_results(s, q)[j].date, q.ts, q.lookback),
{
    let p = selects_result(q);
    let kept = s.test_results.filter(p);
    let sorted = sorted_by(kept, order_of::<TestResultDb>());
    let rows = selected_results(s, q);
    assert(rows[i] == sorted[i] && rows[j] == sorted[j]);
    lemma_sorted_is_ordered(kept, order_of::<TestResultDb>());
    assert(!TestResultDb::goes_before(sorted[j], sorted[i]));
    lemma_sorted_members(kept, order_of::<TestResultDb>());
    lemma_filter_members(s.test_results, p);
    assert(sorted.contains(sorted[i]) && sorted.contains(sorted[j]));
    assert(p(sorted[i]) && p(sorted[j]));
}

/// Taking a batch in, envelope and all, keeps the store well formed.
pub proof fn lemma_batch_ingested_well_formed(
    s: Store,
    id: Seq<char>,
    created_at: i64,
    batch: Seq<SpanView>,
    ids: Seq<UpsertIds>,
    processed_at: i64,
)
    requires
        well_formed(s),
    ensures
        well_formed(batch_ingested(s, id, created_at, batch, ids, processed_at)),
{
    let accepted = Store {
        ingests: crate::engine::ingestor::with_ingest(
            s.ingests,
            crate::db::schema::IngestEventDbView { id, created_at, processed_at: None },
        ),
        ..s
    };
    lemma_ingested_well_formed(accepted, batch, ids);
}

/// The lookup of a trace that the request narrows in no way.
pub open spec fn whole_trace(trace_id: Seq<char>, now: i64) -> SpanQueryView {
    trace_lookup_of(trace_id, Seq::empty(), now)
}

/// The lookup of a trace selects the rows of the trace and no others,
/// whether they have a duration or a timestamp or not.
pub proof fn lemma_whole_trace_selects(trace_id: Seq<char>, now: i64, row: SpanDbView)
    ensures
        selects(whole_trace(trace_id, now), None)(row) <==> row.trace_id == trace_id,
        whole_trace(trace_id, now).service_name is None,
        whole_trace(trace_id, now).limit == crate::db::read::span::SPAN_QUERY_LIMIT,
{
}

/// Accepting a batch adds at most one row of a trace for each of its spans.
pub proof fn lemma_trace_rows_bounded(
    s: Store,
    batch: Seq<SpanView>,
    ids: Seq<UpsertIds>,
    p: spec_fn(SpanDbView) -> bool,
    trace_id: Seq<char>,
)
    requires
        ids.len() == batch.len(),
        forall|row: SpanDbView| #[trigger] p(row) <==> row.trace_id == trace_id,
    ensures
        ingested(s, batch, ids).spans.filter(p).len() <= s.spans.filter(p).len() + batch.len(),
    decreases batch.len(),
{
    if batch.len() > 0 {
        let before = ingested(s, batch.drop_last(), ids.drop_last());
        lemma_trace_rows_bounded(s, batch.drop_last(), ids.drop_last(), p, trace_id);
        let span = batch.last();
        let local = with_endpoint(
            before.endpoints,
            opt_endpoint_row(span.local_endpoint),
            ids.last().local,
        );
        let remote = with_endpoint(
            local.0,
            opt_endpoint_row(span.remote_endpoint),
            ids.last().remote,
        );
        let row = SpanDbView {
            local_endpoint_id: local.1,
            remote_endpoint_id: remote.1,
            ..span_row(span)
        };
        assert(ingested(s, batch, ids).spans == with_span_row(before.spans, row));
        lemma_first_where(
            before.spans,
            |r: SpanDbView| r.trace_id == row.trace_id && r.id == row.id,
        );
        match span_index(before.spans, row.trace_id, row.id) {
            Some(i) => {
                let updated = SpanDbView { duration: row.duration, ..before.spans[i] };
                assert(p(updated) == p(before.spans[i]));
                lemma_filter_len_update(before.spans, p, i, updated);
            },
            None => {
                lemma_filter_len_push(before.spans, p, row);
            },
        }
    }
}

/// After a batch of at most five hundred spans was accepted by a store
/// that held no span of a trace, the lookup of the trace returns the
/// spans of the batch with that trace and no others, each once, whether
/// they have a duration or a timestamp or not.
pub proof fn lemma_trace_lookup_after_batch(
    s: Store,
    batch: Seq<SpanView>,
    ids: Seq<UpsertIds>,
    trace_id: Seq<char>,
    now: i64,
)
    requires
        unique_spans(s.spans),
        ids.len() == batch.len(),
        batch.len() <= crate::db::read::span::SPAN_QUERY_LIMIT,
        forall|k: int| 0 <= k < s.spans.len() ==> (#[trigger] s.spans[k]).trace_id != trace_id,
    ensures
        unique_spans(selected_spans(ingested(s, batch, ids), whole_trace(trace_id, now))),
        forall|t: Seq<char>, id: Seq<char>|
            #![trigger has_span(selected_spans(ingested(s, batch, ids), whole_trace(trace_id, now)), t, id)]
            has_span(selected_spans(ingested(s, batch, ids), whole_trace(trace_id, now)), t, id)
                <==> t == trace_id && batch_has(batch, trace_id, id),
{
    let after = ingested(s, batch, ids);
    let q = whole_trace(trace_id, now);
    let p = selects(q, None);
    assert forall|row: SpanDbView| #[trigger] p(row) <==> row.trace_id == trace_id by {
        lemma_whole_trace_selects(trace_id, now, row);
    }
    lemma_whole_trace_selects(trace_id, now, arbitrary());
    lemma_trace_rows_bounded(s, batch, ids, p, trace_id);
    assert forall|k: int| 0 <= k < s.spans.len() implies !p(#[trigger] s.spans[k]) by {}
    lemma_filter_none(s.spans, p);
    lemma_ingested_spans(s, batch, ids);
    lemma_selected_spans_once(after, q);
    let rows = selected_spans(after, q);
    assert forall|t: Seq<char>, id: Seq<char>|
        #![trigger has_span(rows, t, id)]
        has_span(rows, t, id) <==> t == trace_id && batch_has(batch, trace_id, id) by {
        if has_span(rows, t, id) {
            let k = choose|k: int|
                0 <= k < rows.len() && #[trigger] rows[k].trace_id == t && rows[k].id == id;
            assert(rows.contains(rows[k]));
            lemma_selected_spans_are_the_selected(after, q, rows[k]);
            assert(after.spans.contains(rows[k]) && p(rows[k]));
            let a = choose|a: int| 0 <= a < after.spans.len() && after.spans[a] == rows[k];
            assert(after.spans[a].trace_id == t && after.spans[a].id == id);
            assert(has_span(after.spans, t, id));
            if has_span(s.spans, t, id) {
                let b = choose|b: int|
                    0 <= b < s.spans.len() && #[trigger] s.spans[b].trace_id == t && s.spans[b].id
                        == id;
                assert(false);
            }
        }
        if t == trace_id && batch_has(batch, trace_id, id) {
            assert(has_span(after.spans, t, id));
            let a = choose|a: int|
                0 <= a < after.spans.len() && #[trigger] after.spans[a].trace_id == t
                    && after.spans[a].id == id;
            assert(after.spans.contains(after.spans[a]));
            lemma_selected_spans_are_the_selected(after, q, after.spans[a]);
            assert(rows.contains(after.spans[a]));
            let k = choose|k: int| 0 <= k < rows.len() && rows[k] == after.spans[a];
            assert(rows[k].trace_id == t && rows[k].id == id);
        }
    }
}

} // verus!
