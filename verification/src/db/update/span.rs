//! Writing a span: its endpoints are resolved to rows, the span row is
//! inserted or completed, annotations are appended and tags merged.

use vstd::prelude::*;
use crate::db::invariants::well_formed;
use crate::db::laws::lemma_upserted_span_well_formed;
use crate::db::schema::{
    AnnotationDb, AnnotationDbView, DbExecutor, EndpointDb, EndpointDbView, SpanDb, SpanDbView,
    Store, TagDb, TagDbView,
};
use crate::engine::{all_uuids, is_uuid_v4, new_uuid};
use crate::opentracing::span::{kind_text, Endpoint, EndpointView, Span, SpanView};
use crate::seqs::{first_where, lemma_first_where_at, lemma_first_where_none};
use crate::text::{
    clone_opt_string, lemma_views_push, lemma_views_update, lowercase_of, opt_string_eq, opt_view,
    prefix, to_lowercase, truncate_chars, views,
};

verus! {

/// The longest span name that is kept, in characters.
pub const SPAN_NAME_LIMIT: usize = 250;

/// A span name as it is stored: in lower case, cut to the limit.
pub open spec fn stored_name(name: Seq<char>) -> Seq<char> {
    prefix(lowercase_of(name), SPAN_NAME_LIMIT as nat)
}

/// The endpoint row of an endpoint of a span, before it has an identifier.
pub open spec fn endpoint_row(ep: EndpointView) -> EndpointDbView {
    EndpointDbView {
        endpoint_id: "n/a"@,
        service_name: match ep.service_name {
            Some(s) => Some(lowercase_of(s)),
            None => None,
        },
        ipv4: ep.ipv4,
        ipv6: ep.ipv6,
        port: ep.port,
    }
}

/// The endpoint row of an endpoint that may be missing.
pub open spec fn opt_endpoint_row(ep: Option<EndpointView>) -> Option<EndpointDbView> {
    match ep {
        Some(e) => Some(endpoint_row(e)),
        None => None,
    }
}

/// The span row of a span, before its endpoints are resolved.
pub open spec fn span_row(span: SpanView) -> SpanDbView {
    SpanDbView {
        trace_id: span.trace_id,
        id: span.id,
        parent_id: span.parent_id,
        name: match span.name {
            Some(n) => Some(stored_name(n)),
            None => None,
        },
        kind: match span.kind {
            Some(k) => Some(kind_text(k)),
            None => None,
        },
        duration: span.duration,
        ts: span.timestamp,
        debug: span.debug,
        shared: span.shared,
        local_endpoint_id: None,
        remote_endpoint_id: None,
    }
}

/// The tag rows of a span: one per pair, the name in lower case.
pub open spec fn tag_rows(span_id: Seq<char>, tags: Seq<(Seq<char>, Seq<char>)>) -> Seq<TagDbView> {
    Seq::new(
        tags.len(),
        |i: int| TagDbView { span_id, name: lowercase_of(tags[i].0), value: tags[i].1 },
    )
}

/// The annotation rows of a span, each under the identifier given for it.
pub open spec fn annotation_rows(span: SpanView, ids: Seq<Seq<char>>) -> Seq<AnnotationDbView> {
    Seq::new(
        span.annotations.len(),
        |i: int|
            AnnotationDbView {
                annotation_id: ids[i],
                trace_id: span.trace_id,
                span_id: span.id,
                ts: span.annotations[i].timestamp,
                value: span.annotations[i].value,
            },
    )
}

/// All the rows that one span turns into.
pub struct FromSpan {
    pub span_db: SpanDb,
    pub local_endpoint: Option<EndpointDb>,
    pub remote_endpoint: Option<EndpointDb>,
    pub tags: Vec<TagDb>,
    pub annotations: Vec<AnnotationDb>,
}

fn endpoint_to_row(ep: &Endpoint) -> (row: EndpointDb)
    ensures
        row@ == endpoint_row(ep@),
{
    EndpointDb {
        endpoint_id: "n/a".to_string(),
        service_name: match &ep.service_name {
            Some(s) => Some(to_lowercase(s.as_str())),
            None => None,
        },
        ipv4: clone_opt_string(&ep.ipv4),
        ipv6: clone_opt_string(&ep.ipv6),
        port: ep.port,
    }
}

/// Turns a span into its rows. `annotation_ids` gives the identifier of
/// each annotation, in order.
pub fn get_all_from_span_with_ids(span: &Span, annotation_ids: &Vec<String>) -> (rows: FromSpan)
    requires
        annotation_ids.len() == span.annotations.len(),
    ensures
        rows.span_db@ == span_row(span@),
        opt_view(rows.local_endpoint) == opt_endpoint_row(span@.local_endpoint),
        opt_view(rows.remote_endpoint) == opt_endpoint_row(span@.remote_endpoint),
        views(rows.tags@) == tag_rows(span@.id, span@.tags),
        views(rows.annotations@) == annotation_rows(span@, views(annotation_ids@)),
{
    let span_db = SpanDb {
        trace_id: span.trace_id.clone(),
        id: span.id.clone(),
        parent_id: clone_opt_string(&span.parent_id),
        name: match &span.name {
            Some(n) => {
                let lowered = to_lowercase(n.as_str());
                Some(truncate_chars(lowered.as_str(), SPAN_NAME_LIMIT))
            },
            None => None,
        },
        kind: match &span.kind {
            Some(k) => Some(k.to_string()),
            None => None,
        },
        duration: span.duration,
        ts: span.timestamp,
        debug: span.debug,
        shared: span.shared,
        local_endpoint_id: None,
        remote_endpoint_id: None,
    };
    let local_endpoint = match &span.local_endpoint {
        Some(ep) => Some(endpoint_to_row(ep)),
        None => None,
    };
    let remote_endpoint = match &span.remote_endpoint {
        Some(ep) => Some(endpoint_to_row(ep)),
        None => None,
    };
    let mut annotations: Vec<AnnotationDb> = Vec::new();
    let mut i: usize = 0;
    while i < span.annotations.len()
        invariant
            i <= span.annotations.len(),
            annotation_ids.len() == span.annotations.len(),
            annotations.len() == i,
            forall|k: int|
                0 <= k < i ==> annotations[k]@ == annotation_rows(span@, views(annotation_ids@))[k],
        decreases span.annotations.len() - i,
    {
        assert(span@.annotations[i as int] == span.annotations[i as int]@);
        assert(views(annotation_ids@)[i as int] == annotation_ids[i as int]@);
        annotations.push(
            AnnotationDb {
                annotation_id: annotation_ids[i].clone(),
                trace_id: span.trace_id.clone(),
                span_id: span.id.clone(),
                ts: span.annotations[i].timestamp,
                value: span.annotations[i].value.clone(),
            },
        );
        i += 1;
    }
    assert(views(annotations@) =~= annotation_rows(span@, views(annotation_ids@)));
    let mut tags: Vec<TagDb> = Vec::new();
    let mut j: usize = 0;
    while j < span.tags.len()
        invariant
            j <= span.tags.len(),
            tags.len() == j,
            forall|k: int| 0 <= k < j ==> tags[k]@ == tag_rows(span@.id, span@.tags)[k],
        decreases span.tags.len() - j,
    {
        assert(span@.tags[j as int] == (span.tags[j as int].0@, span.tags[j as int].1@));
        tags.push(
            TagDb {
                span_id: span.id.clone(),
                name: to_lowercase(span.tags[j].0.as_str()),
                value: span.tags[j].1.clone(),
            },
        );
        j += 1;
    }
    assert(views(tags@) =~= tag_rows(span@.id, span@.tags));
    FromSpan { span_db, local_endpoint, remote_endpoint, annotations, tags }
}

/// As many fresh identifiers as asked for.
pub(crate) fn fresh_ids(n: usize) -> (ids: Vec<String>)
    ensures
        ids.len() == n,
        all_uuids(views(ids@)),
{
    let mut ids: Vec<String> = Vec::new();
    let mut i: usize = 0;
    while i < n
        invariant
            i <= n,
            ids.len() == i,
            forall|k: int| 0 <= k < i ==> is_uuid_v4(#[trigger] ids[k]@),
        decreases n - i,
    {
        ids.push(new_uuid());
        i += 1;
    }
    assert forall|k: int| 0 <= k < views(ids@).len() implies is_uuid_v4(
        #[trigger] views(ids@)[k],
    ) by {
        assert(views(ids@)[k] == ids[k]@);
    }
    ids
}

/// Turns a span into its rows, with a fresh identifier for each annotation.
pub fn get_all_from_span(span: &Span) -> (rows: FromSpan)
    ensures
        rows.span_db@ == span_row(span@),
        opt_view(rows.local_endpoint) == opt_endpoint_row(span@.local_endpoint),
        opt_view(rows.remote_endpoint) == opt_endpoint_row(span@.remote_endpoint),
        views(rows.tags@) == tag_rows(span@.id, span@.tags),
        exists|ids: Seq<Seq<char>>|
            ids.len() == span@.annotations.len() && all_uuids(ids) && views(rows.annotations@)
                == annotation_rows(span@, ids),
{
    let ids = fresh_ids(span.annotations.len());
    get_all_from_span_with_ids(span, &ids)
}

/// Whether a row answers a lookup: every field that the lookup sets must
/// be equal in the row; what the lookup leaves out matches anything.
pub open spec fn endpoint_matches(query: EndpointDbView, row: EndpointDbView) -> bool {
    &&& query.service_name is Some ==> row.service_name == query.service_name
    &&& query.ipv4 is Some ==> row.ipv4 == query.ipv4
    &&& query.ipv6 is Some ==> row.ipv6 == query.ipv6
    &&& query.port is Some ==> row.port == query.port
}

/// The first row that answers the lookup.
pub open spec fn found_endpoint(endpoints: Seq<EndpointDbView>, query: EndpointDbView) -> Option<
    int,
> {
    first_where(endpoints, |row: EndpointDbView| endpoint_matches(query, row))
}

/// Whether an endpoint has the identifier.
pub open spec fn has_endpoint_id(endpoints: Seq<EndpointDbView>, id: Seq<char>) -> bool {
    first_where(endpoints, |row: EndpointDbView| row.endpoint_id == id) is Some
}

/// The endpoint table after an endpoint was resolved, and the identifier
/// it resolved to. A row that answers the lookup is reused. Otherwise a
/// row is added under `new_id`; if that identifier is taken, nothing is
/// added and the endpoint stays unresolved.
pub open spec fn with_endpoint(
    endpoints: Seq<EndpointDbView>,
    ep: Option<EndpointDbView>,
    new_id: Seq<char>,
) -> (Seq<EndpointDbView>, Option<Seq<char>>) {
    match ep {
        None => (endpoints, None),
        Some(query) => match found_endpoint(endpoints, query) {
            Some(i) => (endpoints, Some(endpoints[i].endpoint_id)),
            None => if has_endpoint_id(endpoints, new_id) {
                (endpoints, None)
            } else {
                (endpoints.push(EndpointDbView { endpoint_id: new_id, ..query }), Some(new_id))
            },
        },
    }
}

fn endpoint_row_matches(query: &EndpointDb, row: &EndpointDb) -> (r: bool)
    ensures
        r == endpoint_matches(query@, row@),
{
    (query.service_name.is_none() || opt_string_eq(&row.service_name, &query.service_name)) && (
    query.ipv4.is_none() || opt_string_eq(&row.ipv4, &query.ipv4)) && (query.ipv6.is_none()
        || opt_string_eq(&row.ipv6, &query.ipv6)) && (match query.port {
        Some(p) => match row.port {
            Some(q) => p == q,
            None => false,
        },
        None => true,
    })
}

fn find_endpoint_index(endpoints: &Vec<EndpointDb>, query: &EndpointDb) -> (r: Option<usize>)
    ensures
        match r {
            Some(i) => found_endpoint(views(endpoints@), query@) == Some(i as int) && i
                < endpoints.len(),
            None => found_endpoint(views(endpoints@), query@) is None,
        },
{
    let mut i: usize = 0;
    while i < endpoints.len()
        invariant
            i <= endpoints.len(),
            forall|k: int| 0 <= k < i ==> !endpoint_matches(query@, views(endpoints@)[k]),
        decreases endpoints.len() - i,
    {
        if endpoint_row_matches(query, &endpoints[i]) {
            proof {
                lemma_first_where_at(
                    views(endpoints@),
                    |row: EndpointDbView| endpoint_matches(query@, row),
                    i as int,
                );
            }
            return Some(i);
        }
        i += 1;
    }
    proof {
        lemma_first_where_none(
            views(endpoints@),
            |row: EndpointDbView| endpoint_matches(query@, row),
        );
    }
    None
}

pub(crate) fn endpoint_id_taken(endpoints: &Vec<EndpointDb>, id: &String) -> (r: bool)
    ensures
        r == has_endpoint_id(views(endpoints@), id@),
{
    let mut i: usize = 0;
    while i < endpoints.len()
        invariant
            i <= endpoints.len(),
            forall|k: int| 0 <= k < i ==> views(endpoints@)[k].endpoint_id != id@,
        decreases endpoints.len() - i,
    {
        if endpoints[i].endpoint_id == *id {
            proof {
                lemma_first_where_at(
                    views(endpoints@),
                    |row: EndpointDbView| row.endpoint_id == id@,
                    i as int,
                );
            }
            return true;
        }
        i += 1;
    }
    proof {
        lemma_first_where_none(views(endpoints@), |row: EndpointDbView| row.endpoint_id == id@);
    }
    false
}

impl DbExecutor {
    /// The first endpoint row that answers the lookup.
    pub fn find_endpoint(&self, ep: &EndpointDb) -> (r: Option<EndpointDb>)
        ensures
            opt_view(r) == match found_endpoint(self@.endpoints, ep@) {
                Some(i) => Some(self@.endpoints[i]),
                None => None,
            },
    {
        match find_endpoint_index(&self.endpoints, ep) {
            Some(i) => Some(self.endpoints[i].clone()),
            None => None,
        }
    }

    /// Resolves an endpoint to the identifier of its row, adding the row
    /// under `new_id` when no row answers the lookup.
    pub fn upsert_endpoint_with_id(&mut self, ep: Option<EndpointDb>, new_id: String) -> (r:
        Option<String>)
        ensures
            final(self)@ == (Store {
                endpoints: with_endpoint(old(self)@.endpoints, opt_view(ep), new_id@).0,
                ..old(self)@
            }),
            opt_view(r) == with_endpoint(old(self)@.endpoints, opt_view(ep), new_id@).1,
    {
        match ep {
            None => None,
            Some(le) => match find_endpoint_index(&self.endpoints, &le) {
                Some(i) => Some(self.endpoints[i].endpoint_id.clone()),
                None => {
                    if endpoint_id_taken(&self.endpoints, &new_id) {
                        None
                    } else {
                        let row = EndpointDb {
                            endpoint_id: new_id.clone(),
                            service_name: le.service_name,
                            ipv4: le.ipv4,
                            ipv6: le.ipv6,
                            port: le.port,
                        };
                        proof {
                            lemma_views_push(self.endpoints@, row);
                        }
                        self.endpoints.push(row);
                        Some(new_id)
                    }
                },
            },
        }
    }

    /// Resolves an endpoint to the identifier of its row; a row that has
    /// to be added gets a fresh identifier.
    pub fn upsert_endpoint(&mut self, ep: Option<EndpointDb>) -> (r: Option<String>)
        ensures
            exists|new_id: Seq<char>|
                {
                    &&& is_uuid_v4(new_id)
                    &&& final(self)@ == (Store {
                        endpoints: with_endpoint(old(self)@.endpoints, opt_view(ep), new_id).0,
                        ..old(self)@
                    })
                    &&& opt_view(r) == with_endpoint(old(self)@.endpoints, opt_view(ep), new_id).1
                },
    {
        let new_id = new_uuid();
        self.upsert_endpoint_with_id(ep, new_id)
    }
}

/// The row with the key `(trace_id, id)`.
pub open spec fn span_index(spans: Seq<SpanDbView>, trace_id: Seq<char>, id: Seq<char>) -> Option<
    int,
> {
    first_where(spans, |row: SpanDbView| row.trace_id == trace_id && row.id == id)
}

/// The span table after a span row was written: a row with the same key
/// only takes over the duration; otherwise the row is added.
pub open spec fn with_span_row(spans: Seq<SpanDbView>, row: SpanDbView) -> Seq<SpanDbView> {
    match span_index(spans, row.trace_id, row.id) {
        Some(i) => spans.update(i, SpanDbView { duration: row.duration, ..spans[i] }),
        None => spans.push(row),
    }
}

/// Whether an annotation has the identifier.
pub open spec fn has_annotation_id(annotations: Seq<AnnotationDbView>, id: Seq<char>) -> bool {
    first_where(annotations, |row: AnnotationDbView| row.annotation_id == id) is Some
}

/// The annotation table after one row was appended; a row whose
/// identifier is taken is left out.
pub open spec fn with_annotation(annotations: Seq<AnnotationDbView>, row: AnnotationDbView) -> Seq<
    AnnotationDbView,
> {
    if has_annotation_id(annotations, row.annotation_id) {
        annotations
    } else {
        annotations.push(row)
    }
}

/// The annotation table after the rows were appended in order.
pub open spec fn with_annotations(
    annotations: Seq<AnnotationDbView>,
    rows: Seq<AnnotationDbView>,
) -> Seq<AnnotationDbView>
    decreases rows.len(),
{
    if rows.len() == 0 {
        annotations
    } else {
        with_annotation(with_annotations(annotations, rows.drop_last()), rows.last())
    }
}

/// The row with the key `(span_id, name)`.
pub open spec fn tag_index(tags: Seq<TagDbView>, span_id: Seq<char>, name: Seq<char>) -> Option<
    int,
> {
    first_where(tags, |row: TagDbView| row.span_id == span_id && row.name == name)
}

/// The tag table after one tag was merged in: a row with the same key
/// takes over the value; otherwise the row is added.
pub open spec fn with_tag(tags: Seq<TagDbView>, row: TagDbView) -> Seq<TagDbView> {
    match tag_index(tags, row.span_id, row.name) {
        Some(i) => tags.update(i, TagDbView { value: row.value, ..tags[i] }),
        None => tags.push(row),
    }
}

/// The tag table after the tags were merged in, in order.
pub open spec fn with_tags(tags: Seq<TagDbView>, rows: Seq<TagDbView>) -> Seq<TagDbView>
    decreases rows.len(),
{
    if rows.len() == 0 {
        tags
    } else {
        with_tag(with_tags(tags, rows.drop_last()), rows.last())
    }
}

/// The identifiers that writing one span may use up: one for each
/// endpoint, should it need a new row, and one for each annotation.
pub ghost struct UpsertIds {
    pub local: Seq<char>,
    pub remote: Seq<char>,
    pub annotations: Seq<Seq<char>>,
}

/// Whether all the identifiers have the shape of a version 4 UUID.
pub open spec fn uuid_ids(ids: UpsertIds) -> bool {
    is_uuid_v4(ids.local) && is_uuid_v4(ids.remote) && all_uuids(ids.annotations)
}

/// The store after a span was written.
pub open spec fn upserted_span(s: Store, span: SpanView, ids: UpsertIds) -> Store {
    let local = with_endpoint(s.endpoints, opt_endpoint_row(span.local_endpoint), ids.local);
    let remote = with_endpoint(local.0, opt_endpoint_row(span.remote_endpoint), ids.remote);
    let row = SpanDbView {
        local_endpoint_id: local.1,
        remote_endpoint_id: remote.1,
        ..span_row(span)
    };
    Store {
        endpoints: remote.0,
        spans: with_span_row(s.spans, row),
        annotations: with_annotations(s.annotations, annotation_rows(span, ids.annotations)),
        tags: with_tags(s.tags, tag_rows(span.id, span.tags)),
        ..s
    }
}

pub(crate) fn find_span_index(spans: &Vec<SpanDb>, trace_id: &String, id: &String) -> (r: Option<usize>)
    ensures
        match r {
            Some(i) => span_index(views(spans@), trace_id@, id@) == Some(i as int) && i
                < spans.len(),
            None => span_index(views(spans@), trace_id@, id@) is None,
        },
{
    let mut i: usize = 0;
    while i < spans.len()
        invariant
            i <= spans.len(),
            forall|k: int|
                0 <= k < i ==> !(views(spans@)[k].trace_id == trace_id@ && views(spans@)[k].id
                    == id@),
        decreases spans.len() - i,
    {
        if spans[i].id == *id && spans[i].trace_id == *trace_id {
            proof {
                lemma_first_where_at(
                    views(spans@),
                    |row: SpanDbView| row.trace_id == trace_id@ && row.id == id@,
                    i as int,
                );
            }
            return Some(i);
        }
        i += 1;
    }
    proof {
        lemma_first_where_none(
            views(spans@),
            |row: SpanDbView| row.trace_id == trace_id@ && row.id == id@,
        );
    }
    None
}

fn write_span_row(spans: &mut Vec<SpanDb>, row: SpanDb)
    ensures
        views(final(spans)@) == with_span_row(views(old(spans)@), row@),
{
    match find_span_index(spans, &row.trace_id, &row.id) {
        Some(i) => {
            let mut updated = spans[i].clone();
            updated.duration = row.duration;
            proof {
                lemma_views_update(spans@, i as int, updated);
            }
            spans.set(i, updated);
        },
        None => {
            proof {
                lemma_views_push(spans@, row);
            }
            spans.push(row);
        },
    }
}

pub(crate) fn annotation_id_taken(annotations: &Vec<AnnotationDb>, id: &String) -> (r: bool)
    ensures
        r == has_annotation_id(views(annotations@), id@),
{
    let mut i: usize = 0;
    while i < annotations.len()
        invariant
            i <= annotations.len(),
            forall|k: int| 0 <= k < i ==> views(annotations@)[k].annotation_id != id@,
        decreases annotations.len() - i,
    {
        if annotations[i].annotation_id == *id {
            proof {
                lemma_first_where_at(
                    views(annotations@),
                    |row: AnnotationDbView| row.annotation_id == id@,
                    i as int,
                );
            }
            return true;
        }
        i += 1;
    }
    proof {
        lemma_first_where_none(
            views(annotations@),
            |row: AnnotationDbView| row.annotation_id == id@,
        );
    }
    false
}

fn append_annotations(annotations: &mut Vec<AnnotationDb>, rows: &Vec<AnnotationDb>)
    ensures
        views(final(annotations)@) == with_annotations(views(old(annotations)@), views(rows@)),
{
    let ghost start = views(annotations@);
    let ghost all = views(rows@);
    let mut i: usize = 0;
    assert(all.take(0) =~= Seq::<AnnotationDbView>::empty());
    while i < rows.len()
        invariant
            i <= rows.len(),
            all == views(rows@),
            views(annotations@) == with_annotations(start, all.take(i as int)),
        decreases rows.len() - i,
    {
        assert(all.take(i + 1).drop_last() =~= all.take(i as int));
        assert(all.take(i + 1).last() == rows[i as int]@);
        if !annotation_id_taken(annotations, &rows[i].annotation_id) {
            let row = rows[i].clone();
            proof {
                lemma_views_push(annotations@, row);
            }
            annotations.push(row);
        }
        i += 1;
    }
    assert(all.take(rows.len() as int) =~= all);
}

fn find_tag_index(tags: &Vec<TagDb>, span_id: &String, name: &String) -> (r: Option<usize>)
    ensures
        match r {
            Some(i) => tag_index(views(tags@), span_id@, name@) == Some(i as int) && i
                < tags.len(),
            None => tag_index(views(tags@), span_id@, name@) is None,
        },
{
    let mut i: usize = 0;
    while i < tags.len()
        invariant
            i <= tags.len(),
            forall|k: int|
                0 <= k < i ==> !(views(tags@)[k].span_id == span_id@ && views(tags@)[k].name
                    == name@),
        decreases tags.len() - i,
    {
        if tags[i].span_id == *span_id && tags[i].name == *name {
            proof {
                lemma_first_where_at(
                    views(tags@),
                    |row: TagDbView| row.span_id == span_id@ && row.name == name@,
                    i as int,
                );
            }
            return Some(i);
        }
        i += 1;
    }
    proof {
        lemma_first_where_none(
            views(tags@),
            |row: TagDbView| row.span_id == span_id@ && row.name == name@,
        );
    }
    None
}

fn merge_tags(tags: &mut Vec<TagDb>, rows: &Vec<TagDb>)
    ensures
        views(final(tags)@) == with_tags(views(old(tags)@), views(rows@)),
{
    let ghost start = views(tags@);
    let ghost all = views(rows@);
    let mut i: usize = 0;
    assert(all.take(0) =~= Seq::<TagDbView>::empty());
    while i < rows.len()
        invariant
            i <= rows.len(),
            all == views(rows@),
            views(tags@) == with_tags(start, all.take(i as int)),
        decreases rows.len() - i,
    {
        assert(all.take(i + 1).drop_last() =~= all.take(i as int));
        assert(all.take(i + 1).last() == rows[i as int]@);
        match find_tag_index(tags, &rows[i].span_id, &rows[i].name) {
            Some(k) => {
                let mut updated = tags[k].clone();
                updated.value = rows[i].value.clone();
                proof {
                    lemma_views_update(tags@, k as int, updated);
                }
                tags.set(k, updated);
            },
            None => {
                let row = rows[i].clone();
                proof {
                    lemma_views_push(tags@, row);
                }
                tags.push(row);
            },
        }
        i += 1;
    }
    assert(all.take(rows.len() as int) =~= all);
}

impl DbExecutor {
    /// Writes a span with the identifiers given for the rows it may add,
    /// and hands the span back.
    pub fn upsert_span_with_ids(
        &mut self,
        msg: Span,
        local_id: String,
        remote_id: String,
        annotation_ids: Vec<String>,
    ) -> (stored: Span)
        requires
            annotation_ids.len() == msg.annotations.len(),
        ensures
            stored == msg,
            final(self)@ == upserted_span(
                old(self)@,
                msg@,
                UpsertIds {
                    local: local_id@,
                    remote: remote_id@,
                    annotations: views(annotation_ids@),
                },
            ),
            well_formed(old(self)@) ==> well_formed(final(self)@),
    {
        proof {
            if well_formed(old(self)@) {
                lemma_upserted_span_well_formed(
                    old(self)@,
                    msg@,
                    UpsertIds {
                        local: local_id@,
                        remote: remote_id@,
                        annotations: views(annotation_ids@),
                    },
                );
            }
        }
        let to_upsert = get_all_from_span_with_ids(&msg, &annotation_ids);
        let mut span_db = to_upsert.span_db;
        span_db.local_endpoint_id = self.upsert_endpoint_with_id(to_upsert.local_endpoint, local_id);
        span_db.remote_endpoint_id = self.upsert_endpoint_with_id(
            to_upsert.remote_endpoint,
            remote_id,
        );
        write_span_row(&mut self.spans, span_db);
        append_annotations(&mut self.annotations, &to_upsert.annotations);
        merge_tags(&mut self.tags, &to_upsert.tags);
        msg
    }

    /// Writes a span and hands it back. The rows it adds get fresh
    /// identifiers.
    pub fn upsert_span(&mut self, msg: Span) -> (stored: Span)
        ensures
            stored == msg,
            exists|ids: UpsertIds|
                ids.annotations.len() == msg@.annotations.len() && uuid_ids(ids) && final(self)@
                    == upserted_span(old(self)@, msg@, ids),
            well_formed(old(self)@) ==> well_formed(final(self)@),
    {
        let local_id = new_uuid();
        let remote_id = new_uuid();
        let annotation_ids = fresh_ids(msg.annotations.len());
        let ghost ids = UpsertIds {
            local: local_id@,
            remote: remote_id@,
            annotations: views(annotation_ids@),
        };
        let stored = self.upsert_span_with_ids(msg, local_id, remote_id, annotation_ids);
        assert(ids.annotations.len() == msg@.annotations.len() && uuid_ids(ids) && self@
            == upserted_span(old(self)@, msg@, ids));
        stored
    }
}

} // verus!
