//! What comes back of a span that was written: the span itself, with
//! its name and the names of its tags in lower case and its name cut
//! to the limit.

use vstd::prelude::*;
use crate::db::invariants::{
    distinct_endpoints, has_span, lemma_with_endpoint, unique_spans, well_formed,
};
use crate::db::laws::{
    batch_has, lemma_ingested_spans, lemma_trace_lookup_after_batch, lemma_whole_trace_selects,
    whole_trace,
};
use crate::db::read::span::{
    annotations_of, binary_tags_of, endpoint_by_id, endpoint_of_row, of_span, selected_spans,
    selects, span_of_row, spans_found, tag_of_span, tags_of,
};
use crate::db::schema::{
    AnnotationDb, AnnotationDbView, DbExecutor, EndpointDbView, SpanDb, SpanDbView, Store, TagDb,
    TagDbView,
};
use crate::db::update::span::{
    annotation_id_taken, annotation_rows, endpoint_id_taken, endpoint_matches, endpoint_row,
    find_span_index, found_endpoint, has_annotation_id, has_endpoint_id, opt_endpoint_row,
    span_index, span_row, stored_name, tag_rows, upserted_span, with_annotations, with_endpoint,
    with_tags, UpsertIds, SPAN_NAME_LIMIT,
};
use crate::engine::ingestor::ingested;
use crate::opentracing::span::{lemma_kind_text_round_trip, EndpointView, Span, SpanView};
use crate::seqs::{
    all_differ, lemma_filter_all, lemma_filter_members, lemma_filter_none, lemma_first_where,
    lemma_first_where_at, lemma_first_where_none, lemma_sorted_members, order_of, sorted_by,
};
use crate::text::{lemma_views_push, lowercase_of, prefix, to_lowercase, views};

verus! {

/// The tags of a span as they are stored: the names in lower case.
pub open spec fn stored_tags(tags: Seq<(Seq<char>, Seq<char>)>) -> Seq<(Seq<char>, Seq<char>)> {
    Seq::new(tags.len(), |k: int| (lowercase_of(tags[k].0), tags[k].1))
}

/// Whether the names of the tags still differ in lower case.
pub open spec fn differ_in_lower_case(tags: Seq<(Seq<char>, Seq<char>)>) -> bool {
    forall|i: int, j: int|
        0 <= i < j < tags.len() ==> lowercase_of(#[trigger] tags[i].0) != lowercase_of(
            #[trigger] tags[j].0,
        )
}

/// Whether the store holds nothing under the key of a span, the
/// identifiers for its annotations are new and differ from each other,
/// and the names of its tags still differ in lower case.
pub open spec fn is_new(s: Store, span: SpanView, ids: UpsertIds) -> bool {
    &&& !has_span(s.spans, span.trace_id, span.id)
    &&& forall|k: int|
        0 <= k < s.annotations.len() ==> !((#[trigger] s.annotations[k]).trace_id == span.trace_id
            && s.annotations[k].span_id == span.id)
    &&& forall|k: int| 0 <= k < s.tags.len() ==> (#[trigger] s.tags[k]).span_id != span.id
    &&& ids.annotations.len() == span.annotations.len()
    &&& forall|k: int|
        0 <= k < ids.annotations.len() ==> !has_annotation_id(
            s.annotations,
            #[trigger] ids.annotations[k],
        )
    &&& forall|i: int, j: int|
        0 <= i < j < ids.annotations.len() ==> #[trigger] ids.annotations[i]
            != #[trigger] ids.annotations[j]
    &&& differ_in_lower_case(span.tags)
}

proof fn lemma_new_annotations_are_appended(
    annotations: Seq<AnnotationDbView>,
    rows: Seq<AnnotationDbView>,
)
    requires
        forall|k: int|
            0 <= k < rows.len() ==> !has_annotation_id(
                annotations,
                (#[trigger] rows[k]).annotation_id,
            ),
        forall|i: int, j: int|
            0 <= i < j < rows.len() ==> #[trigger] rows[i].annotation_id
                != #[trigger] rows[j].annotation_id,
    ensures
        with_annotations(annotations, rows) == annotations + rows,
    decreases rows.len(),
{
    if rows.len() == 0 {
        assert(annotations + rows =~= annotations);
    } else {
        let rest = rows.drop_last();
        let last = rows.last();
        assert forall|k: int| 0 <= k < rest.len() implies !has_annotation_id(
            annotations,
            (#[trigger] rest[k]).annotation_id,
        ) by {
            assert(rest[k] == rows[k]);
        }
        assert forall|i: int, j: int| 0 <= i < j < rest.len() implies #[trigger] rest[i].annotation_id
            != #[trigger] rest[j].annotation_id by {
            assert(rest[i] == rows[i] && rest[j] == rows[j]);
        }
        lemma_new_annotations_are_appended(annotations, rest);
        let before = annotations + rest;
        let p = |row: AnnotationDbView| row.annotation_id == last.annotation_id;
        lemma_first_where(annotations, p);
        assert(!has_annotation_id(annotations, rows[rows.len() - 1].annotation_id));
        assert forall|k: int| 0 <= k < before.len() implies !p(before[k]) by {
            if k >= annotations.len() {
                assert(before[k] == rows[k - annotations.len()]);
                assert(rows[k - annotations.len()].annotation_id != rows[rows.len()
                    - 1].annotation_id);
            }
        }
        lemma_first_where_none(before, p);
        assert(before.push(last) =~= annotations + rows);
    }
}

proof fn lemma_new_tags_are_appended(tags: Seq<TagDbView>, rows: Seq<TagDbView>, span_id: Seq<char>)
    requires
        forall|k: int| 0 <= k < tags.len() ==> (#[trigger] tags[k]).span_id != span_id,
        forall|k: int| 0 <= k < rows.len() ==> (#[trigger] rows[k]).span_id == span_id,
        forall|i: int, j: int|
            0 <= i < j < rows.len() ==> #[trigger] rows[i].name != #[trigger] rows[j].name,
    ensures
        with_tags(tags, rows) == tags + rows,
    decreases rows.len(),
{
    if rows.len() == 0 {
        assert(tags + rows =~= tags);
    } else {
        let rest = rows.drop_last();
        let last = rows.last();
        assert forall|k: int| 0 <= k < rest.len() implies (#[trigger] rest[k]).span_id
            == span_id by {
            assert(rest[k] == rows[k]);
        }
        assert forall|i: int, j: int| 0 <= i < j < rest.len() implies #[trigger] rest[i].name
            != #[trigger] rest[j].name by {
            assert(rest[i] == rows[i] && rest[j] == rows[j]);
        }
        lemma_new_tags_are_appended(tags, rest, span_id);
        let before = tags + rest;
        let p = |row: TagDbView| row.span_id == last.span_id && row.name == last.name;
        assert(last == rows[rows.len() - 1]);
        assert forall|k: int| 0 <= k < before.len() implies !p(before[k]) by {
            if k >= tags.len() {
                assert(before[k] == rows[k - tags.len()]);
                assert(rows[k - tags.len()].name != rows[rows.len() - 1].name);
            } else {
                assert(before[k] == tags[k]);
            }
        }
        lemma_first_where_none(before, p);
        assert(before.push(last) =~= tags + rows);
    }
}

/// The annotations of a new span come back as they were posted.
pub proof fn lemma_annotations_come_back(s: Store, span: SpanView, ids: UpsertIds)
    requires
        is_new(s, span, ids),
    ensures
        annotations_of(upserted_span(s, span, ids).annotations, span.trace_id, span.id)
            == span.annotations,
{
    let rows = annotation_rows(span, ids.annotations);
    let after = with_annotations(s.annotations, rows);
    assert(upserted_span(s, span, ids).annotations == after);
    assert forall|k: int| 0 <= k < rows.len() implies !has_annotation_id(
        s.annotations,
        (#[trigger] rows[k]).annotation_id,
    ) by {
        assert(rows[k].annotation_id == ids.annotations[k]);
    }
    assert forall|i: int, j: int| 0 <= i < j < rows.len() implies #[trigger] rows[i].annotation_id
        != #[trigger] rows[j].annotation_id by {
        assert(rows[i].annotation_id == ids.annotations[i]);
        assert(rows[j].annotation_id == ids.annotations[j]);
    }
    lemma_new_annotations_are_appended(s.annotations, rows);
    let p = of_span(span.trace_id, span.id);
    Seq::filter_distributes_over_add(s.annotations, rows, p);
    lemma_filter_none(s.annotations, p);
    assert forall|k: int| 0 <= k < rows.len() implies p(#[trigger] rows[k]) by {}
    lemma_filter_all(rows, p);
    assert(Seq::<AnnotationDbView>::empty() + rows =~= rows);
    assert(after.filter(p) == rows);
    assert(annotations_of(after, span.trace_id, span.id) =~= span.annotations);
}

proof fn lemma_tag_rows_read_back(span_id: Seq<char>, posted: Seq<(Seq<char>, Seq<char>)>)
    ensures
        tags_of(tag_rows(span_id, posted), span_id) == stored_tags(posted),
{
    let rows = tag_rows(span_id, posted);
    let q = tag_of_span(span_id);
    assert forall|k: int| 0 <= k < rows.len() implies q(#[trigger] rows[k]) by {}
    lemma_filter_all(rows, q);
    assert(tags_of(rows, span_id) =~= stored_tags(posted));
}

proof fn lemma_new_tag_rows_are_appended(
    tags: Seq<TagDbView>,
    span_id: Seq<char>,
    posted: Seq<(Seq<char>, Seq<char>)>,
)
    requires
        forall|k: int| 0 <= k < tags.len() ==> (#[trigger] tags[k]).span_id != span_id,
        forall|i: int, j: int|
            0 <= i < j < posted.len() ==> lowercase_of(#[trigger] posted[i].0) != lowercase_of(
                #[trigger] posted[j].0,
            ),
    ensures
        with_tags(tags, tag_rows(span_id, posted)) == tags + tag_rows(span_id, posted),
        (tags + tag_rows(span_id, posted)).filter(tag_of_span(span_id)) == tag_rows(
            span_id,
            posted,
        ),
{
    let rows = tag_rows(span_id, posted);
    assert forall|i: int, j: int| 0 <= i < j < rows.len() implies #[trigger] rows[i].name
        != #[trigger] rows[j].name by {
        assert(rows[i].name == lowercase_of(posted[i].0));
        assert(rows[j].name == lowercase_of(posted[j].0));
    }
    lemma_new_tags_are_appended(tags, rows, span_id);
    let q = tag_of_span(span_id);
    Seq::filter_distributes_over_add(tags, rows, q);
    lemma_filter_none(tags, q);
    assert forall|k: int| 0 <= k < rows.len() implies q(#[trigger] rows[k]) by {}
    lemma_filter_all(rows, q);
    assert(Seq::<TagDbView>::empty() + rows =~= rows);
}

/// The tags of a new span come back as they were posted, with their
/// names in lower case.
pub proof fn lemma_tags_come_back(s: Store, span: SpanView, ids: UpsertIds)
    requires
        is_new(s, span, ids),
    ensures
        tags_of(upserted_span(s, span, ids).tags, span.id) == stored_tags(span.tags),
{
    let rows = tag_rows(span.id, span.tags);
    assert(upserted_span(s, span, ids).tags == with_tags(s.tags, rows));
    lemma_new_tag_rows_are_appended(s.tags, span.id, span.tags);
    lemma_tag_rows_read_back(span.id, span.tags);
    let after = s.tags + rows;
    assert(after.filter(tag_of_span(span.id)) == rows);
    assert(rows.filter(tag_of_span(span.id)) == rows) by {
        assert forall|k: int| 0 <= k < rows.len() implies tag_of_span(span.id)(
            #[trigger] rows[k],
        ) by {}
        lemma_filter_all(rows, tag_of_span(span.id));
    }
    assert(tags_of(after, span.id) == tags_of(rows, span.id));
}

/// Whether an endpoint that was read back is the one that was posted:
/// every field that the posted endpoint sets is the same, the service
/// in lower case. (What the posted endpoint leaves out it may have taken
/// from the row that it was resolved to.)
pub open spec fn answers(posted: EndpointView, back: EndpointView) -> bool {
    &&& posted.service_name is Some ==> back.service_name == Some(
        lowercase_of(posted.service_name->0),
    )
    &&& posted.ipv4 is Some ==> back.ipv4 == posted.ipv4
    &&& posted.ipv6 is Some ==> back.ipv6 == posted.ipv6
    &&& posted.port is Some ==> back.port == posted.port
}

/// `answers` for endpoints that may be missing: a missing one comes back missing.
pub open spec fn opt_answers(posted: Option<EndpointView>, back: Option<EndpointView>) -> bool {
    match posted {
        Some(ep) => back is Some && answers(ep, back->0),
        None => back is None,
    }
}

/// An endpoint that was resolved with a new identifier at hand is read
/// back, from the table then or any later, as the one that was posted.
pub proof fn lemma_resolved_endpoint_comes_back(
    endpoints: Seq<EndpointDbView>,
    later: Seq<EndpointDbView>,
    posted: Option<EndpointView>,
    new_id: Seq<char>,
)
    requires
        distinct_endpoints(later),
        !has_endpoint_id(endpoints, new_id),
        later.len() >= with_endpoint(endpoints, opt_endpoint_row(posted), new_id).0.len(),
        later.take(with_endpoint(endpoints, opt_endpoint_row(posted), new_id).0.len() as int)
            == with_endpoint(endpoints, opt_endpoint_row(posted), new_id).0,
    ensures
        opt_answers(
            posted,
            endpoint_by_id(later, with_endpoint(endpoints, opt_endpoint_row(posted), new_id).1),
        ),
{
    match posted {
        None => {},
        Some(ep) => {
            let query = endpoint_row(ep);
            let first = with_endpoint(endpoints, Some(query), new_id);
            let p = |row: EndpointDbView| endpoint_matches(query, row);
            lemma_first_where(endpoints, p);
            let at: int = match found_endpoint(endpoints, query) {
                Some(i) => i,
                None => endpoints.len() as int,
            };
            assert(0 <= at < first.0.len());
            assert(first.1 == Some(first.0[at].endpoint_id));
            assert(endpoint_matches(query, first.0[at]));
            assert(later[at] == first.0[at]) by {
                assert(later.take(first.0.len() as int)[at] == later[at]);
            }
            let id = first.0[at].endpoint_id;
            let q = |row: EndpointDbView| row.endpoint_id == id;
            assert forall|k: int| 0 <= k < at implies !q(later[k]) by {
                assert(later[k].endpoint_id != later[at].endpoint_id);
            }
            lemma_first_where_at(later, q, at);
            assert(endpoint_by_id(later, Some(id)) == Some(endpoint_of_row(later[at])));
        },
    }
}

/// The span that is read back for a span as it was posted: the name in
/// lower case and cut to the limit, the names of the tags in lower case,
/// the endpoints as they were resolved.
pub open spec fn as_stored(span: SpanView, local: Option<EndpointView>, remote: Option<EndpointView>) -> SpanView {
    SpanView {
        name: match span.name {
            Some(n) => Some(stored_name(n)),
            None => None,
        },
        local_endpoint: local,
        remote_endpoint: remote,
        tags: stored_tags(span.tags),
        binary_annotations: binary_tags_of(
            stored_tags(span.tags),
            if remote is Some {
                remote
            } else {
                local
            },
        ),
        ..span
    }
}

/// A new span that is written and read back comes back as it was
/// posted, but for the lower case of its name and of the names of its
/// tags and for the limit on the length of the name: trace, identifier,
/// parent, kind, duration, timestamp, the two flags, the annotations and
/// the tags are the same, and the endpoints are the posted ones.
pub proof fn lemma_round_trip(s: Store, span: SpanView, ids: UpsertIds)
    requires
        unique_spans(s.spans),
        distinct_endpoints(s.endpoints),
        is_new(s, span, ids),
        !has_endpoint_id(s.endpoints, ids.local),
        !has_endpoint_id(s.endpoints, ids.remote),
        ids.local != ids.remote,
    ensures
        span_index(upserted_span(s, span, ids).spans, span.trace_id, span.id) is Some,
        ({
            let after = upserted_span(s, span, ids);
            let row = after.spans[span_index(after.spans, span.trace_id, span.id)->0];
            let back = span_of_row(after, row, false);
            &&& back == as_stored(span, back.local_endpoint, back.remote_endpoint)
            &&& opt_answers(span.local_endpoint, back.local_endpoint)
            &&& opt_answers(span.remote_endpoint, back.remote_endpoint)
        }),
{
    let after = upserted_span(s, span, ids);
    let local = with_endpoint(s.endpoints, opt_endpoint_row(span.local_endpoint), ids.local);
    let remote = with_endpoint(local.0, opt_endpoint_row(span.remote_endpoint), ids.remote);
    let written = SpanDbView {
        local_endpoint_id: local.1,
        remote_endpoint_id: remote.1,
        ..span_row(span)
    };
    // the row is added at the end and found there
    let p = |row: SpanDbView| row.trace_id == span.trace_id && row.id == span.id;
    lemma_first_where(s.spans, p);
    assert(span_index(s.spans, span.trace_id, span.id) is None) by {
        if span_index(s.spans, span.trace_id, span.id) is Some {
            let i = span_index(s.spans, span.trace_id, span.id)->0;
            assert(s.spans[i].trace_id == span.trace_id && s.spans[i].id == span.id);
        }
    }
    assert(after.spans == s.spans.push(written));
    let at = s.spans.len() as int;
    assert forall|k: int| 0 <= k < at implies !p(after.spans[k]) by {
        assert(after.spans[k] == s.spans[k]);
    }
    lemma_first_where_at(after.spans, p, at);
    let row = after.spans[at];
    assert(row == written);
    let back = span_of_row(after, row, false);
    // the endpoints
    lemma_with_endpoint(s.endpoints, opt_endpoint_row(span.local_endpoint), ids.local);
    lemma_with_endpoint(local.0, opt_endpoint_row(span.remote_endpoint), ids.remote);
    assert(after.endpoints == remote.0);
    lemma_resolved_endpoint_comes_back(s.endpoints, remote.0, span.local_endpoint, ids.local);
    assert(!has_endpoint_id(local.0, ids.remote)) by {
        let q = |r: EndpointDbView| r.endpoint_id == ids.remote;
        lemma_first_where(s.endpoints, q);
        assert forall|k: int| 0 <= k < local.0.len() implies !q(local.0[k]) by {
            if k < s.endpoints.len() {
                assert(local.0.take(s.endpoints.len() as int)[k] == local.0[k]);
            } else {
                lemma_first_where(
                    s.endpoints,
                    |r: EndpointDbView|
                        endpoint_matches(opt_endpoint_row(span.local_endpoint)->0, r),
                );
            }
        }
        lemma_first_where_none(local.0, q);
    }
    assert(remote.0.take(remote.0.len() as int) =~= remote.0);
    lemma_resolved_endpoint_comes_back(local.0, remote.0, span.remote_endpoint, ids.remote);
    // the annotations, the tags, the name and the kind
    lemma_annotations_come_back(s, span, ids);
    lemma_tags_come_back(s, span, ids);
    match span.kind {
        Some(k) => {
            lemma_kind_text_round_trip(k);
        },
        None => {},
    }
    match span.name {
        Some(n) => {
            assert(prefix(stored_name(n), SPAN_NAME_LIMIT as nat) =~= stored_name(n));
        },
        None => {},
    }
    assert(back.annotations == span.annotations);
    assert(back.tags == stored_tags(span.tags));
}

/// Whether a span can be written as a new one with the identifiers at
/// hand: the store holds nothing of it, the names of its tags differ
/// in lower case, and no identifier is taken or given twice.
pub open spec fn can_add(s: Store, span: SpanView, ids: UpsertIds) -> bool {
    &&& is_new(s, span, ids)
    &&& !has_endpoint_id(s.endpoints, ids.local)
    &&& !has_endpoint_id(s.endpoints, ids.remote)
    &&& ids.local != ids.remote
}

/// A span that can be written as a new one, into a store that holds no
/// span of its trace, is what the lookup of its trace then returns, and
/// nothing else: the span as it was posted, but for the lower case of
/// its name and of the names of its tags and for the limit on the
/// length of the name, whether it has a duration or a timestamp or not.
pub proof fn lemma_posted_span_is_looked_up(s: Store, span: SpanView, ids: UpsertIds, now: i64)
    requires
        unique_spans(s.spans),
        distinct_endpoints(s.endpoints),
        can_add(s, span, ids),
        forall|k: int| 0 <= k < s.spans.len() ==> (#[trigger] s.spans[k]).trace_id != span.trace_id,
    ensures
        ({
            let found = spans_found(upserted_span(s, span, ids), whole_trace(span.trace_id, now));
            &&& found.len() == 1
            &&& found[0] == as_stored(span, found[0].local_endpoint, found[0].remote_endpoint)
            &&& opt_answers(span.local_endpoint, found[0].local_endpoint)
            &&& opt_answers(span.remote_endpoint, found[0].remote_endpoint)
        }),
{
    let after = upserted_span(s, span, ids);
    let q = whole_trace(span.trace_id, now);
    let batch = seq![span];
    let batch_ids = seq![ids];
    assert(batch.drop_last() =~= Seq::<SpanView>::empty());
    assert(batch_ids.drop_last() =~= Seq::<UpsertIds>::empty());
    assert(ingested(s, batch.drop_last(), batch_ids.drop_last()) == s);
    assert(batch.last() == span && batch_ids.last() == ids);
    assert(ingested(s, batch, batch_ids) == after);
    lemma_trace_lookup_after_batch(s, batch, batch_ids, span.trace_id, now);
    lemma_round_trip(s, span, ids);
    lemma_ingested_spans(s, batch, batch_ids);
    let rows = selected_spans(after, q);
    assert(batch[0] == span);
    assert(batch_has(batch, span.trace_id, span.id));
    assert(has_span(rows, span.trace_id, span.id));
    let k = choose|k: int|
        0 <= k < rows.len() && #[trigger] rows[k].trace_id == span.trace_id && rows[k].id == span.id;
    assert forall|j: int| 0 <= j < rows.len() implies (#[trigger] rows[j]) == rows[k] && j == k by {
        assert(has_span(rows, rows[j].trace_id, rows[j].id));
        assert(batch_has(batch, span.trace_id, rows[j].id));
        let b = choose|b: int|
            0 <= b < batch.len() && (#[trigger] batch[b]).trace_id == span.trace_id && batch[b].id
                == rows[j].id;
        assert(rows[j].id == span.id && rows[j].trace_id == span.trace_id);
        if j < k {
            assert(!(rows[j].trace_id == rows[k].trace_id && rows[j].id == rows[k].id));
        } else if k < j {
            assert(!(rows[k].trace_id == rows[j].trace_id && rows[k].id == rows[j].id));
        }
    }
    assert(rows.len() == 1 && k == 0) by {
        assert(rows[0] == rows[k]);
        if rows.len() > 1 {
            assert(rows[1] == rows[k]);
        }
    }
    // the one row is the row of the posted span
    lemma_first_where(
        after.spans,
        |row: SpanDbView| row.trace_id == span.trace_id && row.id == span.id,
    );
    let at = span_index(after.spans, span.trace_id, span.id)->0;
    lemma_whole_trace_rows(s, span, ids, now);
    assert(rows.contains(rows[0]));
    assert(after.spans.contains(rows[0]));
    let a = choose|a: int| 0 <= a < after.spans.len() && after.spans[a] == rows[0];
    if a < at {
        assert(!(after.spans[a].trace_id == after.spans[at].trace_id && after.spans[a].id
            == after.spans[at].id));
    } else if at < a {
        assert(!(after.spans[at].trace_id == after.spans[a].trace_id && after.spans[at].id
            == after.spans[a].id));
    }
    assert(rows[0] == after.spans[at]);
}

/// The rows that the lookup of the trace of a new span returns are rows
/// of the store.
proof fn lemma_whole_trace_rows(s: Store, span: SpanView, ids: UpsertIds, now: i64)
    requires
        unique_spans(s.spans),
        forall|k: int| 0 <= k < s.spans.len() ==> (#[trigger] s.spans[k]).trace_id != span.trace_id,
    ensures
        unique_spans(upserted_span(s, span, ids).spans),
        forall|row: SpanDbView|
            #[trigger] selected_spans(
                upserted_span(s, span, ids),
                whole_trace(span.trace_id, now),
            ).contains(row) ==> upserted_span(s, span, ids).spans.contains(row),
{
    let after = upserted_span(s, span, ids);
    let q = whole_trace(span.trace_id, now);
    let p = selects(q, None);
    let batch = seq![span];
    let batch_ids = seq![ids];
    assert(batch.drop_last() =~= Seq::<SpanView>::empty());
    assert(batch_ids.drop_last() =~= Seq::<UpsertIds>::empty());
    assert(ingested(s, batch.drop_last(), batch_ids.drop_last()) == s);
    assert(batch.last() == span && batch_ids.last() == ids);
    assert(ingested(s, batch, batch_ids) == after);
    lemma_ingested_spans(s, batch, batch_ids);
    lemma_whole_trace_selects(span.trace_id, now, arbitrary());
    let kept = after.spans.filter(p);
    lemma_filter_members(after.spans, p);
    lemma_sorted_members(kept, order_of::<SpanDb>());
    let sorted = sorted_by(kept, order_of::<SpanDb>());
    let rows = selected_spans(after, q);
    assert forall|row: SpanDbView| #[trigger] rows.contains(row) implies after.spans.contains(
        row,
    ) by {
        let k = choose|k: int| 0 <= k < rows.len() && rows[k] == row;
        assert(sorted[k] == row);
        assert(sorted.contains(row));
        assert(kept.contains(row));
    }
}

/// The names of the tags in lower case.
fn lowered_names(tags: &Vec<(String, String)>) -> (names: Vec<String>)
    ensures
        names.len() == tags.len(),
        forall|k: int|
            0 <= k < tags.len() ==> (#[trigger] views(names@)[k]) == lowercase_of(
                tags.deep_view()[k].0,
            ),
{
    let mut names: Vec<String> = Vec::new();
    let mut i: usize = 0;
    while i < tags.len()
        invariant
            i <= tags.len(),
            names.len() == i,
            forall|k: int|
                0 <= k < i ==> (#[trigger] views(names@)[k]) == lowercase_of(
                    tags.deep_view()[k].0,
                ),
        decreases tags.len() - i,
    {
        let ghost before = names@;
        let name = to_lowercase(tags[i].0.as_str());
        assert(name@ == lowercase_of(tags.deep_view()[i as int].0));
        names.push(name);
        proof {
            lemma_views_push(before, name);
        }
        i += 1;
    }
    names
}

/// Tests whether the names of the tags still differ in lower case.
pub fn tags_differ_in_lower_case(tags: &Vec<(String, String)>) -> (r: bool)
    ensures
        r == differ_in_lower_case(tags.deep_view()),
{
    let names = lowered_names(tags);
    let r = all_differ(&names);
    proof {
        let shown = views(names@);
        let pairs = tags.deep_view();
        if r {
            assert forall|i: int, j: int| 0 <= i < j < pairs.len() implies lowercase_of(
                #[trigger] pairs[i].0,
            ) != lowercase_of(#[trigger] pairs[j].0) by {
                assert(shown[i] != shown[j]);
            }
        } else {
            let (i, j) = choose|i: int, j: int| 0 <= i < j < shown.len() && shown[i] == shown[j];
            assert(lowercase_of(pairs[i].0) == lowercase_of(pairs[j].0));
        }
    }
    r
}

fn holds_annotation_of(annotations: &Vec<AnnotationDb>, trace_id: &String, span_id: &String) -> (r:
    bool)
    ensures
        r == exists|k: int|
            0 <= k < annotations.len() && (#[trigger] views(annotations@)[k]).trace_id
                == trace_id@ && views(annotations@)[k].span_id == span_id@,
{
    let mut i: usize = 0;
    while i < annotations.len()
        invariant
            i <= annotations.len(),
            forall|k: int|
                0 <= k < i ==> !((#[trigger] views(annotations@)[k]).trace_id == trace_id@
                    && views(annotations@)[k].span_id == span_id@),
        decreases annotations.len() - i,
    {
        if annotations[i].trace_id == *trace_id && annotations[i].span_id == *span_id {
            assert(views(annotations@)[i as int].trace_id == trace_id@);
            return true;
        }
        i += 1;
    }
    false
}

fn holds_tag_of(tags: &Vec<TagDb>, span_id: &String) -> (r: bool)
    ensures
        r == exists|k: int| 0 <= k < tags.len() && (#[trigger] views(tags@)[k]).span_id == span_id@,
{
    let mut i: usize = 0;
    while i < tags.len()
        invariant
            i <= tags.len(),
            forall|k: int| 0 <= k < i ==> (#[trigger] views(tags@)[k]).span_id != span_id@,
        decreases tags.len() - i,
    {
        if tags[i].span_id == *span_id {
            assert(views(tags@)[i as int].span_id == span_id@);
            return true;
        }
        i += 1;
    }
    false
}

fn holds_one_of(annotations: &Vec<AnnotationDb>, ids: &Vec<String>) -> (r: bool)
    ensures
        r == !(forall|k: int|
            0 <= k < ids.len() ==> !has_annotation_id(
                views(annotations@),
                #[trigger] views(ids@)[k],
            )),
{
    let mut i: usize = 0;
    while i < ids.len()
        invariant
            i <= ids.len(),
            forall|k: int|
                0 <= k < i ==> !has_annotation_id(views(annotations@), #[trigger] views(ids@)[k]),
        decreases ids.len() - i,
    {
        if annotation_id_taken(annotations, &ids[i]) {
            assert(has_annotation_id(views(annotations@), views(ids@)[i as int]));
            return true;
        }
        i += 1;
    }
    false
}

impl DbExecutor {
    /// Tests whether a span can be written as a new one with the
    /// identifiers at hand.
    pub fn can_add_span(
        &self,
        span: &Span,
        local_id: &String,
        remote_id: &String,
        annotation_ids: &Vec<String>,
    ) -> (r: bool)
        ensures
            r == can_add(
                self@,
                span@,
                UpsertIds {
                    local: local_id@,
                    remote: remote_id@,
                    annotations: views(annotation_ids@),
                },
            ),
    {
        let ghost ids = views(annotation_ids@);
        proof {
            lemma_first_where(
                self@.spans,
                |row: SpanDbView| row.trace_id == span@.trace_id && row.id == span@.id,
            );
            assert(views(span.annotations@).len() == span.annotations.len());
        }
        if find_span_index(&self.spans, &span.trace_id, &span.id).is_some() {
            return false;
        }
        if holds_annotation_of(&self.annotations, &span.trace_id, &span.id) {
            proof {
                let k = choose|k: int|
                    0 <= k < self.annotations.len() && (#[trigger] views(
                        self.annotations@,
                    )[k]).trace_id == span@.trace_id && views(self.annotations@)[k].span_id
                        == span@.id;
                assert(self@.annotations[k].trace_id == span@.trace_id
                    && self@.annotations[k].span_id == span@.id);
            }
            return false;
        }
        if holds_tag_of(&self.tags, &span.id) {
            proof {
                let k = choose|k: int|
                    0 <= k < self.tags.len() && (#[trigger] views(self.tags@)[k]).span_id
                        == span@.id;
                assert(self@.tags[k].span_id == span@.id);
            }
            return false;
        }
        if annotation_ids.len() != span.annotations.len() {
            return false;
        }
        if holds_one_of(&self.annotations, annotation_ids) {
            return false;
        }
        if !all_differ(annotation_ids) {
            return false;
        }
        if !tags_differ_in_lower_case(&span.tags) {
            return false;
        }
        if endpoint_id_taken(&self.endpoints, local_id) {
            return false;
        }
        if endpoint_id_taken(&self.endpoints, remote_id) {
            return false;
        }
        !(*local_id == *remote_id)
    }

    /// Writes a span that the store holds nothing of and reads it back:
    /// it comes back as it was posted, but for the lower case of its
    /// name and of the names of its tags and for the limit on the
    /// length of the name. A span that cannot be written as a new one
    /// with these identifiers is not written.
    pub fn add_new_span_with_ids(
        &mut self,
        span: Span,
        local_id: String,
        remote_id: String,
        annotation_ids: Vec<String>,
    ) -> (r: Option<Span>)
        requires
            well_formed(old(self)@),
        ensures
            well_formed(final(self)@),
            match r {
                Some(back) => {
                    let ids = UpsertIds {
                        local: local_id@,
                        remote: remote_id@,
                        annotations: views(annotation_ids@),
                    };
                    &&& can_add(old(self)@, span@, ids)
                    &&& final(self)@ == upserted_span(old(self)@, span@, ids)
                    &&& back@ == as_stored(span@, back@.local_endpoint, back@.remote_endpoint)
                    &&& opt_answers(span@.local_endpoint, back@.local_endpoint)
                    &&& opt_answers(span@.remote_endpoint, back@.remote_endpoint)
                },
                None => final(self)@ == old(self)@ && !can_add(
                    old(self)@,
                    span@,
                    UpsertIds {
                        local: local_id@,
                        remote: remote_id@,
                        annotations: views(annotation_ids@),
                    },
                ),
            },
    {
        if !self.can_add_span(&span, &local_id, &remote_id, &annotation_ids) {
            return None;
        }
        proof {
            lemma_round_trip(
                self@,
                span@,
                UpsertIds {
                    local: local_id@,
                    remote: remote_id@,
                    annotations: views(annotation_ids@),
                },
            );
        }
        let stored = self.upsert_span_with_ids(span, local_id, remote_id, annotation_ids);
        match find_span_index(&self.spans, &stored.trace_id, &stored.id) {
            Some(i) => {
                assert(views(self.spans@)[i as int] == self.spans[i as int]@);
                Some(self.span_from_row(&self.spans[i], false))
            },
            None => None,
        }
    }
}

} // verus!
