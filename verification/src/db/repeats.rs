//! What writing the same thing again changes: nothing that was settled
//! the first time.

use vstd::prelude::*;
use crate::db::invariants::{
    lemma_with_placement, lemma_with_tags, unique_placements, unique_tags,
};
use crate::db::schema::{EndpointDbView, Store, TagDbView, TestResultInReportDbView};
use crate::db::update::reports::{
    placed, placement_index, placement_row, report_row, with_placement, with_touched_report,
};
use crate::db::update::span::{
    endpoint_matches, found_endpoint, has_endpoint_id, opt_endpoint_row, tag_index, tag_rows,
    with_endpoint, with_tags, UpsertIds,
};
use crate::engine::ingestor::ingested;
use crate::engine::report::ResultForReportView;
use crate::opentracing::span::{EndpointView, SpanView};
use crate::seqs::{first_where, lemma_first_where, lemma_first_where_at};

verus! {

/// An endpoint that no row answers gets one row, under the first
/// identifier where that is not taken, and resolves to that identifier
/// however often it is resolved again; its row is the last, and the rows
/// before it stay as they are. No endpoint resolves to nothing and
/// changes nothing.
pub proof fn lemma_endpoint_resolved_again(
    endpoints: Seq<EndpointDbView>,
    ep: EndpointDbView,
    first_id: Seq<char>,
    second_id: Seq<char>,
    third_id: Seq<char>,
)
    requires
        found_endpoint(endpoints, ep) is None,
        !has_endpoint_id(endpoints, first_id),
    ensures
        ({
            let first = with_endpoint(endpoints, Some(ep), first_id);
            let second = with_endpoint(first.0, Some(ep), second_id);
            let third = with_endpoint(second.0, Some(ep), third_id);
            &&& first.0 == endpoints.push(EndpointDbView { endpoint_id: first_id, ..ep })
            &&& first.1 == Some(first_id)
            &&& second == first
            &&& third == first
            &&& found_endpoint(first.0, ep) == Some(endpoints.len() as int)
        }),
        with_endpoint(endpoints, None, first_id) == (endpoints, None::<Seq<char>>),
{
    let added = EndpointDbView { endpoint_id: first_id, ..ep };
    let after = endpoints.push(added);
    lemma_first_where(endpoints, |row: EndpointDbView| endpoint_matches(ep, row));
    assert(endpoint_matches(ep, after[endpoints.len() as int]));
    assert forall|k: int| 0 <= k < endpoints.len() implies !endpoint_matches(ep, after[k]) by {
        assert(after[k] == endpoints[k]);
    }
    lemma_first_where_at(
        after,
        |row: EndpointDbView| endpoint_matches(ep, row),
        endpoints.len() as int,
    );
}

/// Whether a placement row stands under the report, test, category and
/// environment of another.
pub open spec fn same_place(a: TestResultInReportDbView, b: TestResultInReportDbView) -> bool {
    a.report_id == b.report_id && a.test_id == b.test_id && a.category == b.category
        && a.environment == b.environment
}

/// After an order was carried out in a report that was found or could
/// be added, the table holds one row for the report, the test, the
/// category and the environment of the order, with the trace and the
/// status of its result. Every other row is as it was, and no row but
/// this one may have been added.
pub proof fn lemma_placed_row(s: Store, msg: ResultForReportView, now: i64, new_id: Seq<char>)
    requires
        unique_placements(s.placements),
        with_touched_report(s.reports, report_row(msg, now), new_id).1 is Some,
    ensures
        ({
            let report_id = with_touched_report(s.reports, report_row(msg, now), new_id).1->0;
            let row = placement_row(msg, report_id);
            let before = s.placements;
            let after = placed(s, msg, now, new_id).placements;
            let at = placement_index(
                after,
                row.report_id,
                row.test_id,
                row.category,
                row.environment,
            );
            &&& unique_placements(after)
            &&& at is Some
            &&& 0 <= at->0 < after.len()
            &&& same_place(after[at->0], row)
            &&& after[at->0].trace_id == msg.result.trace_id
            &&& after[at->0].status == row.status
            &&& forall|k: int| 0 <= k < after.len() && k != at->0 ==> !same_place(#[trigger] after[k], row)
            &&& forall|k: int|
                0 <= k < before.len() && k != at->0 ==> #[trigger] after[k] == before[k]
            &&& before.len() <= after.len() <= before.len() + 1
            &&& after.len() == before.len() + 1 ==> at->0 == before.len()
        }),
{
    let report_id = with_touched_report(s.reports, report_row(msg, now), new_id).1->0;
    let row = placement_row(msg, report_id);
    let before = s.placements;
    let after = with_placement(before, row);
    assert(placed(s, msg, now, new_id).placements == after);
    lemma_with_placement(before, row);
    let p = |r: TestResultInReportDbView|
        r.report_id == row.report_id && r.test_id == row.test_id && r.category == row.category
            && r.environment == row.environment;
    lemma_first_where(before, p);
    lemma_first_where(after, p);
    let i: int = match placement_index(
        before,
        row.report_id,
        row.test_id,
        row.category,
        row.environment,
    ) {
        Some(i) => i,
        None => before.len() as int,
    };
    assert(p(after[i]));
    assert forall|k: int| 0 <= k < after.len() && k != i implies !same_place(
        #[trigger] after[k],
        row,
    ) by {
        if same_place(after[k], row) {
            if k < i {
                assert(same_place(after[k], after[i]));
            } else {
                assert(same_place(after[i], after[k]));
            }
        }
    }
    assert(placement_index(after, row.report_id, row.test_id, row.category, row.environment)
        == Some(i)) by {
        assert forall|k: int| 0 <= k < i implies !p(after[k]) by {
            assert(!same_place(after[k], row));
        }
        lemma_first_where_at(after, p, i);
    }
}

/// Whether a row answers the endpoint of a span, if the span has one.
pub open spec fn is_answered(endpoints: Seq<EndpointDbView>, ep: Option<EndpointView>) -> bool {
    ep is Some ==> found_endpoint(endpoints, opt_endpoint_row(ep)->0) is Some
}

/// Whether rows answer the endpoints of every span of a batch.
pub open spec fn all_answered(endpoints: Seq<EndpointDbView>, batch: Seq<SpanView>) -> bool {
    forall|k: int|
        0 <= k < batch.len() ==> is_answered(endpoints, (#[trigger] batch[k]).local_endpoint)
            && is_answered(endpoints, batch[k].remote_endpoint)
}

/// A batch whose endpoints are all answered adds no endpoint row and
/// changes none.
pub proof fn lemma_answered_endpoints_stay(s: Store, batch: Seq<SpanView>, ids: Seq<UpsertIds>)
    requires
        ids.len() == batch.len(),
        all_answered(s.endpoints, batch),
    ensures
        ingested(s, batch, ids).endpoints == s.endpoints,
    decreases batch.len(),
{
    if batch.len() > 0 {
        let rest = batch.drop_last();
        assert forall|k: int| 0 <= k < rest.len() implies is_answered(
            s.endpoints,
            (#[trigger] rest[k]).local_endpoint,
        ) && is_answered(s.endpoints, rest[k].remote_endpoint) by {
            assert(rest[k] == batch[k]);
        }
        lemma_answered_endpoints_stay(s, rest, ids.drop_last());
        let span = batch.last();
        assert(span == batch[batch.len() - 1]);
        assert(is_answered(s.endpoints, span.local_endpoint));
        assert(is_answered(s.endpoints, span.remote_endpoint));
    }
}

/// Whether the identifiers at hand for endpoints are free in the table
/// and differ from each other.
pub open spec fn free_endpoint_ids(endpoints: Seq<EndpointDbView>, ids: Seq<UpsertIds>) -> bool {
    &&& forall|k: int|
        0 <= k < ids.len() ==> !has_endpoint_id(endpoints, (#[trigger] ids[k]).local)
            && !has_endpoint_id(endpoints, ids[k].remote) && ids[k].local != ids[k].remote
    &&& forall|a: int, b: int|
        0 <= a < b < ids.len() ==> (#[trigger] ids[a]).local != (#[trigger] ids[b]).local
            && ids[a].local != ids[b].remote && ids[a].remote != ids[b].local && ids[a].remote
            != ids[b].remote
}

/// Whether an identifier is one of those at hand for endpoints.
pub open spec fn is_among(ids: Seq<UpsertIds>, id: Seq<char>) -> bool {
    exists|k: int| 0 <= k < ids.len() && ((#[trigger] ids[k]).local == id || ids[k].remote == id)
}

/// An endpoint that a row answers is still answered after rows were added.
pub proof fn lemma_answer_stays(
    endpoints: Seq<EndpointDbView>,
    later: Seq<EndpointDbView>,
    ep: Option<EndpointView>,
)
    requires
        is_answered(endpoints, ep),
        later.len() >= endpoints.len(),
        later.take(endpoints.len() as int) == endpoints,
    ensures
        is_answered(later, ep),
{
    if ep is Some {
        let query = opt_endpoint_row(ep)->0;
        lemma_first_where(endpoints, |row: EndpointDbView| endpoint_matches(query, row));
        lemma_first_where(later, |row: EndpointDbView| endpoint_matches(query, row));
        let i = found_endpoint(endpoints, query)->0;
        assert(later.take(endpoints.len() as int)[i] == later[i]);
    }
}

/// An endpoint that is resolved with an identifier that is not taken is
/// answered by a row afterwards; the table grows by at most one row,
/// which has that identifier.
pub proof fn lemma_resolved_is_answered(
    endpoints: Seq<EndpointDbView>,
    ep: Option<EndpointView>,
    new_id: Seq<char>,
)
    requires
        !has_endpoint_id(endpoints, new_id),
    ensures
        ({
            let after = with_endpoint(endpoints, opt_endpoint_row(ep), new_id).0;
            &&& is_answered(after, ep)
            &&& after.len() >= endpoints.len()
            &&& after.take(endpoints.len() as int) == endpoints
            &&& forall|r: int|
                endpoints.len() <= r < after.len() ==> (#[trigger] after[r]).endpoint_id == new_id
        }),
{
    let after = with_endpoint(endpoints, opt_endpoint_row(ep), new_id).0;
    assert(after.take(endpoints.len() as int) =~= endpoints);
    if ep is Some {
        let query = opt_endpoint_row(ep)->0;
        lemma_first_where(endpoints, |row: EndpointDbView| endpoint_matches(query, row));
        lemma_first_where(after, |row: EndpointDbView| endpoint_matches(query, row));
        if found_endpoint(endpoints, query) is None {
            assert(endpoint_matches(query, after[endpoints.len() as int]));
        }
    }
}

/// An identifier that no row of a table has is not taken in it.
pub proof fn lemma_id_not_taken(endpoints: Seq<EndpointDbView>, id: Seq<char>)
    ensures
        has_endpoint_id(endpoints, id) <==> exists|k: int|
            0 <= k < endpoints.len() && (#[trigger] endpoints[k]).endpoint_id == id,
{
    lemma_first_where(endpoints, |row: EndpointDbView| row.endpoint_id == id);
    if has_endpoint_id(endpoints, id) {
        let i = first_where(endpoints, |row: EndpointDbView| row.endpoint_id == id)->0;
        assert(endpoints[i].endpoint_id == id);
    }
}

/// With identifiers that are free and differ from each other, every
/// endpoint of a batch is answered by a row once the batch is written;
/// the rows that were there stay, and each added row has one of the
/// identifiers.
pub proof fn lemma_free_ids_answer_all(s: Store, batch: Seq<SpanView>, ids: Seq<UpsertIds>)
    requires
        ids.len() == batch.len(),
        free_endpoint_ids(s.endpoints, ids),
    ensures
        ({
            let after = ingested(s, batch, ids).endpoints;
            &&& all_answered(after, batch)
            &&& after.len() >= s.endpoints.len()
            &&& after.take(s.endpoints.len() as int) == s.endpoints
            &&& forall|r: int|
                s.endpoints.len() <= r < after.len() ==> is_among(
                    ids,
                    (#[trigger] after[r]).endpoint_id,
                )
        }),
    decreases batch.len(),
{
    let after = ingested(s, batch, ids).endpoints;
    if batch.len() == 0 {
        assert(after.take(s.endpoints.len() as int) =~= s.endpoints);
    } else {
        let rest = batch.drop_last();
        let rest_ids = ids.drop_last();
        let span = batch.last();
        let last = ids.last();
        let n = ids.len() - 1;
        assert(last == ids[n]);
        assert forall|k: int| 0 <= k < rest_ids.len() implies !has_endpoint_id(
            s.endpoints,
            (#[trigger] rest_ids[k]).local,
        ) && !has_endpoint_id(s.endpoints, rest_ids[k].remote) && rest_ids[k].local
            != rest_ids[k].remote by {
            assert(rest_ids[k] == ids[k]);
        }
        assert forall|a: int, b: int| 0 <= a < b < rest_ids.len() implies (#[trigger] rest_ids[a]).local
            != (#[trigger] rest_ids[b]).local && rest_ids[a].local != rest_ids[b].remote
            && rest_ids[a].remote != rest_ids[b].local && rest_ids[a].remote
            != rest_ids[b].remote by {
            assert(rest_ids[a] == ids[a] && rest_ids[b] == ids[b]);
        }
        lemma_free_ids_answer_all(s, rest, rest_ids);
        let before = ingested(s, rest, rest_ids).endpoints;
        // the identifier for the local endpoint is not taken
        lemma_id_not_taken(before, last.local);
        lemma_id_not_taken(s.endpoints, last.local);
        if has_endpoint_id(before, last.local) {
            let r = choose|r: int|
                0 <= r < before.len() && (#[trigger] before[r]).endpoint_id == last.local;
            if r < s.endpoints.len() {
                assert(before.take(s.endpoints.len() as int)[r] == before[r]);
                assert(s.endpoints[r].endpoint_id == last.local);
            } else {
                assert(is_among(rest_ids, before[r].endpoint_id));
                let k = choose|k: int|
                    0 <= k < rest_ids.len() && ((#[trigger] rest_ids[k]).local == last.local
                        || rest_ids[k].remote == last.local);
                assert(rest_ids[k] == ids[k]);
            }
            assert(false);
        }
        lemma_resolved_is_answered(before, span.local_endpoint, last.local);
        let local = with_endpoint(before, opt_endpoint_row(span.local_endpoint), last.local).0;
        // nor is the one for the remote endpoint
        lemma_id_not_taken(local, last.remote);
        lemma_id_not_taken(s.endpoints, last.remote);
        if has_endpoint_id(local, last.remote) {
            let r = choose|r: int|
                0 <= r < local.len() && (#[trigger] local[r]).endpoint_id == last.remote;
            if r < s.endpoints.len() {
                assert(local.take(before.len() as int)[r] == local[r]);
                assert(before.take(s.endpoints.len() as int)[r] == before[r]);
                assert(s.endpoints[r].endpoint_id == last.remote);
            } else if r < before.len() {
                assert(local.take(before.len() as int)[r] == local[r]);
                assert(is_among(rest_ids, before[r].endpoint_id));
                let k = choose|k: int|
                    0 <= k < rest_ids.len() && ((#[trigger] rest_ids[k]).local == last.remote
                        || rest_ids[k].remote == last.remote);
                assert(rest_ids[k] == ids[k]);
            }
            assert(false);
        }
        lemma_resolved_is_answered(local, span.remote_endpoint, last.remote);
        assert(after == with_endpoint(local, opt_endpoint_row(span.remote_endpoint), last.remote).0);
        lemma_answer_stays(local, after, span.local_endpoint);
        assert(after.take(s.endpoints.len() as int) =~= s.endpoints) by {
            assert forall|r: int| 0 <= r < s.endpoints.len() implies after[r] == s.endpoints[r] by {
                assert(after.take(local.len() as int)[r] == after[r]);
                assert(local.take(before.len() as int)[r] == local[r]);
                assert(before.take(s.endpoints.len() as int)[r] == before[r]);
            }
        }
        assert forall|r: int| s.endpoints.len() <= r < after.len() implies is_among(
            ids,
            (#[trigger] after[r]).endpoint_id,
        ) by {
            if r < before.len() {
                assert(after.take(local.len() as int)[r] == after[r]);
                assert(local.take(before.len() as int)[r] == local[r]);
                assert(is_among(rest_ids, before[r].endpoint_id));
                let k = choose|k: int|
                    0 <= k < rest_ids.len() && ((#[trigger] rest_ids[k]).local
                        == before[r].endpoint_id || rest_ids[k].remote == before[r].endpoint_id);
                assert(rest_ids[k] == ids[k]);
            } else if r < local.len() {
                assert(after.take(local.len() as int)[r] == after[r]);
                assert(local[r].endpoint_id == last.local);
                assert(ids[n].local == after[r].endpoint_id);
            } else {
                assert(ids[n].remote == after[r].endpoint_id);
            }
        }
        assert forall|k: int| 0 <= k < batch.len() implies is_answered(
            after,
            (#[trigger] batch[k]).local_endpoint,
        ) && is_answered(after, batch[k].remote_endpoint) by {
            if k < rest.len() {
                assert(rest[k] == batch[k]);
                assert(after.take(before.len() as int) =~= before) by {
                    assert forall|r: int| 0 <= r < before.len() implies after[r] == before[r] by {
                        assert(after.take(local.len() as int)[r] == after[r]);
                        assert(local.take(before.len() as int)[r] == local[r]);
                    }
                }
                lemma_answer_stays(before, after, batch[k].local_endpoint);
                lemma_answer_stays(before, after, batch[k].remote_endpoint);
            } else {
                assert(batch[k] == span);
            }
        }
    }
}

/// Posting a batch a second time adds no endpoint row and changes none,
/// where the identifiers of the first time were free and differed from
/// each other.
pub proof fn lemma_reposting_keeps_endpoints(
    s: Store,
    batch: Seq<SpanView>,
    first_ids: Seq<UpsertIds>,
    second_ids: Seq<UpsertIds>,
)
    requires
        first_ids.len() == batch.len(),
        second_ids.len() == batch.len(),
        free_endpoint_ids(s.endpoints, first_ids),
    ensures
        ingested(ingested(s, batch, first_ids), batch, second_ids).endpoints == ingested(
            s,
            batch,
            first_ids,
        ).endpoints,
{
    lemma_free_ids_answer_all(s, batch, first_ids);
    lemma_answered_endpoints_stay(ingested(s, batch, first_ids), batch, second_ids);
}

/// The tag rows of the spans of a batch, in the order of the batch.
pub open spec fn batch_tag_rows(batch: Seq<SpanView>) -> Seq<TagDbView>
    decreases batch.len(),
{
    if batch.len() == 0 {
        Seq::empty()
    } else {
        batch_tag_rows(batch.drop_last()) + tag_rows(batch.last().id, batch.last().tags)
    }
}

/// The value of the last of the rows with the key `(span_id, name)`.
pub open spec fn last_value(rows: Seq<TagDbView>, span_id: Seq<char>, name: Seq<char>) -> Option<
    Seq<char>,
>
    decreases rows.len(),
{
    if rows.len() == 0 {
        None
    } else if rows.last().span_id == span_id && rows.last().name == name {
        Some(rows.last().value)
    } else {
        last_value(rows.drop_last(), span_id, name)
    }
}

/// Whether the table has a row under the key of each of the rows.
pub open spec fn covers(tags: Seq<TagDbView>, rows: Seq<TagDbView>) -> bool {
    forall|k: int|
        0 <= k < rows.len() ==> tag_index(tags, (#[trigger] rows[k]).span_id, rows[k].name) is Some
}

/// What `tag_index` returns, said without recursion.
pub proof fn lemma_tag_index(tags: Seq<TagDbView>, span_id: Seq<char>, name: Seq<char>)
    ensures
        match tag_index(tags, span_id, name) {
            Some(i) => 0 <= i < tags.len() && tags[i].span_id == span_id && tags[i].name == name
                && forall|k: int|
                0 <= k < i ==> !((#[trigger] tags[k]).span_id == span_id && tags[k].name == name),
            None => forall|k: int|
                0 <= k < tags.len() ==> !((#[trigger] tags[k]).span_id == span_id && tags[k].name
                    == name),
        },
{
    lemma_first_where(tags, |row: TagDbView| row.span_id == span_id && row.name == name);
}

/// Merging rows one list after another is merging them as one list.
pub proof fn lemma_with_tags_in_turn(tags: Seq<TagDbView>, first: Seq<TagDbView>, second: Seq<TagDbView>)
    ensures
        with_tags(tags, first + second) == with_tags(with_tags(tags, first), second),
    decreases second.len(),
{
    if second.len() == 0 {
        assert(first + second =~= first);
    } else {
        lemma_with_tags_in_turn(tags, first, second.drop_last());
        assert((first + second).drop_last() =~= first + second.drop_last());
        assert((first + second).last() == second.last());
    }
}

/// The tags after a batch are the tags of its spans merged in order.
pub proof fn lemma_ingested_tags(s: Store, batch: Seq<SpanView>, ids: Seq<UpsertIds>)
    ensures
        ingested(s, batch, ids).tags == with_tags(s.tags, batch_tag_rows(batch)),
    decreases batch.len(),
{
    if batch.len() > 0 {
        lemma_ingested_tags(s, batch.drop_last(), ids.drop_last());
        lemma_with_tags_in_turn(
            s.tags,
            batch_tag_rows(batch.drop_last()),
            tag_rows(batch.last().id, batch.last().tags),
        );
    }
}

/// Rows merged into a table that has a row under each of their keys
/// add no row and move none: each row of the table keeps its key and
/// takes the value of the last of the merged rows with its key, if
/// there is one.
pub proof fn lemma_covered_tags(tags: Seq<TagDbView>, rows: Seq<TagDbView>)
    requires
        unique_tags(tags),
        covers(tags, rows),
    ensures
        with_tags(tags, rows).len() == tags.len(),
        forall|i: int|
            0 <= i < tags.len() ==> {
                let after = #[trigger] with_tags(tags, rows)[i];
                &&& after.span_id == tags[i].span_id
                &&& after.name == tags[i].name
                &&& after.value == match last_value(rows, tags[i].span_id, tags[i].name) {
                    Some(v) => v,
                    None => tags[i].value,
                }
            },
    decreases rows.len(),
{
    if rows.len() > 0 {
        let rest = rows.drop_last();
        let row = rows.last();
        assert forall|k: int| 0 <= k < rest.len() implies tag_index(
            tags,
            (#[trigger] rest[k]).span_id,
            rest[k].name,
        ) is Some by {
            assert(rest[k] == rows[k]);
        }
        lemma_covered_tags(tags, rest);
        let before = with_tags(tags, rest);
        assert(rows[rows.len() - 1] == row);
        lemma_tag_index(tags, row.span_id, row.name);
        lemma_tag_index(before, row.span_id, row.name);
        let j = tag_index(tags, row.span_id, row.name)->0;
        assert(before[j].span_id == row.span_id && before[j].name == row.name);
        assert(tag_index(before, row.span_id, row.name) == Some(j)) by {
            let found = tag_index(before, row.span_id, row.name);
            assert(found is Some);
            if found->0 < j {
                assert(before[found->0].span_id == tags[found->0].span_id);
                assert(tags[found->0].span_id == row.span_id && tags[found->0].name == row.name);
            }
        }
        let after = with_tags(tags, rows);
        assert(after == before.update(j, TagDbView { value: row.value, ..before[j] }));
        assert forall|i: int| 0 <= i < tags.len() implies {
            let now = #[trigger] after[i];
            &&& now.span_id == tags[i].span_id
            &&& now.name == tags[i].name
            &&& now.value == match last_value(rows, tags[i].span_id, tags[i].name) {
                Some(v) => v,
                None => tags[i].value,
            }
        } by {
            let was = before[i];
            assert(was.span_id == tags[i].span_id && was.name == tags[i].name);
            if i != j {
                if tags[i].span_id == row.span_id && tags[i].name == row.name {
                    if i < j {
                        assert(!(tags[i].span_id == tags[j].span_id && tags[i].name == tags[j].name));
                    } else {
                        assert(!(tags[j].span_id == tags[i].span_id && tags[j].name == tags[i].name));
                    }
                }
            }
        }
    }
}

/// After rows were merged into a table, the table has a row under each
/// of their keys, and each such row has the value of the last of the
/// merged rows with its key.
pub proof fn lemma_merged_tags(tags: Seq<TagDbView>, rows: Seq<TagDbView>)
    requires
        unique_tags(tags),
    ensures
        unique_tags(with_tags(tags, rows)),
        covers(with_tags(tags, rows), rows),
        forall|i: int|
            0 <= i < with_tags(tags, rows).len() ==> {
                let after = #[trigger] with_tags(tags, rows)[i];
                last_value(rows, after.span_id, after.name) is Some ==> after.value == last_value(
                    rows,
                    after.span_id,
                    after.name,
                )->0
            },
    decreases rows.len(),
{
    lemma_with_tags(tags, rows);
    if rows.len() > 0 {
        let rest = rows.drop_last();
        let row = rows.last();
        lemma_merged_tags(tags, rest);
        lemma_with_tags(tags, rest);
        let before = with_tags(tags, rest);
        let after = with_tags(tags, rows);
        lemma_tag_index(before, row.span_id, row.name);
        let j: int = match tag_index(before, row.span_id, row.name) {
            Some(j) => j,
            None => before.len() as int,
        };
        assert(after.len() > j);
        assert(after[j].span_id == row.span_id && after[j].name == row.name && after[j].value
            == row.value);
        assert forall|i: int| 0 <= i < after.len() && i != j implies #[trigger] after[i]
            == before[i] && i < before.len() by {}
        assert forall|k: int| 0 <= k < rows.len() implies tag_index(
            after,
            (#[trigger] rows[k]).span_id,
            rows[k].name,
        ) is Some by {
            lemma_tag_index(after, rows[k].span_id, rows[k].name);
            if k < rest.len() {
                assert(rest[k] == rows[k]);
                lemma_tag_index(before, rest[k].span_id, rest[k].name);
                let a = tag_index(before, rest[k].span_id, rest[k].name)->0;
                assert(after[a].span_id == rows[k].span_id && after[a].name == rows[k].name);
            } else {
                assert(rows[k] == row);
            }
        }
        assert forall|i: int| 0 <= i < after.len() implies {
            let now = #[trigger] after[i];
            last_value(rows, now.span_id, now.name) is Some ==> now.value == last_value(
                rows,
                now.span_id,
                now.name,
            )->0
        } by {
            let now = after[i];
            if i != j {
                assert(now == before[i]);
                if now.span_id == row.span_id && now.name == row.name {
                    if i < j {
                        assert(!(after[i].span_id == after[j].span_id && after[i].name
                            == after[j].name));
                    } else {
                        assert(!(after[j].span_id == after[i].span_id && after[j].name
                            == after[i].name));
                    }
                }
            }
        }
    }
}

/// Rows that are merged into a table a second time change nothing.
pub proof fn lemma_merging_tags_again(tags: Seq<TagDbView>, rows: Seq<TagDbView>)
    requires
        unique_tags(tags),
    ensures
        with_tags(with_tags(tags, rows), rows) == with_tags(tags, rows),
{
    let once = with_tags(tags, rows);
    let twice = with_tags(once, rows);
    lemma_merged_tags(tags, rows);
    lemma_covered_tags(once, rows);
    assert forall|i: int| 0 <= i < once.len() implies twice[i] == once[i] by {
        let a = with_tags(tags, rows)[i];
        let b = with_tags(once, rows)[i];
        assert(b.span_id == a.span_id && b.name == a.name && b.value == a.value);
    }
    assert(twice =~= once);
}

/// Posting a batch a second time leaves the tags as the first time
/// left them, and the endpoints too where each endpoint of the batch
/// is answered by a row after the first time.
pub proof fn lemma_reposting_keeps_endpoints_and_tags(
    s: Store,
    batch: Seq<SpanView>,
    first_ids: Seq<UpsertIds>,
    second_ids: Seq<UpsertIds>,
)
    requires
        unique_tags(s.tags),
        first_ids.len() == batch.len(),
        second_ids.len() == batch.len(),
    ensures
        ingested(ingested(s, batch, first_ids), batch, second_ids).tags == ingested(
            s,
            batch,
            first_ids,
        ).tags,
        all_answered(ingested(s, batch, first_ids).endpoints, batch) ==> ingested(
            ingested(s, batch, first_ids),
            batch,
            second_ids,
        ).endpoints == ingested(s, batch, first_ids).endpoints,
{
    let once = ingested(s, batch, first_ids);
    lemma_ingested_tags(s, batch, first_ids);
    lemma_ingested_tags(once, batch, second_ids);
    lemma_merging_tags_again(s.tags, batch_tag_rows(batch));
    if all_answered(once.endpoints, batch) {
        lemma_answered_endpoints_stay(once, batch, second_ids);
    }
}

} // verus!
