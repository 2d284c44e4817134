//! Reading spans: the query, the selection of rows, and the way a row
//! becomes a span again, with its endpoints, annotations and tags.

use vstd::prelude::*;
use crate::db::schema::{
    AnnotationDb, AnnotationDbView, DbExecutor, EndpointDb, EndpointDbView, SpanDb, SpanDbView,
    Store, TagDb, TagDbView,
};
use crate::db::update::span::SPAN_NAME_LIMIT;
use crate::engine::now_micros;
use crate::opentracing::span::{
    clone_opt_endpoint, kind_of_text, Annotation, AnnotationView, BinaryTag, BinaryTagView,
    Endpoint, EndpointView, Kind, Span, SpanView,
};
use crate::db::invariants::unique_tags;
use crate::seqs::{
    distinct, distinct_texts, first_rows, first_where, keep_where, lemma_filter_keeps_distinct,
    lemma_filter_members, lemma_first_where_at, lemma_first_where_none, order_of, sort_rows,
    sorted_by,
};
use crate::text::{
    clone_opt_string, find_pair, i64_of_text, lowercase_of, names_once, opt_string_eq,
    opt_string_is, opt_view, pair_value, parse_i64, prefix, to_lowercase, truncate_chars, views,
};

verus! {

/// The most spans a query of the HTTP surface returns.
pub const SPAN_QUERY_LIMIT: i64 = 500;

/// A query for spans. `end_ts` and `lookback` are in microseconds: with
/// an `end_ts` a span is in range when it has a timestamp that is at most
/// `end_ts` and, with a lookback, at least `end_ts - lookback`. Without
/// an `end_ts` the query bounds no time, and spans without a timestamp
/// are selected like any other.
#[derive(Debug)]
pub struct SpanQuery {
    pub filter_finish: bool,
    pub service_name: Option<String>,
    pub span_name: Option<String>,
    pub trace_id: Option<String>,
    pub min_duration: Option<i64>,
    pub max_duration: Option<i64>,
    pub end_ts: Option<i64>,
    pub lookback: Option<i64>,
    pub limit: i64,
    pub only_endpoint: bool,
}

pub ghost struct SpanQueryView {
    pub filter_finish: bool,
    pub service_name: Option<Seq<char>>,
    pub span_name: Option<Seq<char>>,
    pub trace_id: Option<Seq<char>>,
    pub min_duration: Option<i64>,
    pub max_duration: Option<i64>,
    pub end_ts: Option<i64>,
    pub lookback: Option<i64>,
    pub limit: i64,
    pub only_endpoint: bool,
}

impl View for SpanQuery {
    type V = SpanQueryView;

    open spec fn view(&self) -> SpanQueryView {
        SpanQueryView {
            filter_finish: self.filter_finish,
            service_name: opt_view(self.service_name),
            span_name: opt_view(self.span_name),
            trace_id: opt_view(self.trace_id),
            min_duration: self.min_duration,
            max_duration: self.max_duration,
            end_ts: self.end_ts,
            lookback: self.lookback,
            limit: self.limit,
            only_endpoint: self.only_endpoint,
        }
    }
}

/// The query for all finished spans up to `now`, at most the limit of them.
pub open spec fn default_span_query(now: i64) -> SpanQueryView {
    SpanQueryView {
        filter_finish: true,
        service_name: None,
        span_name: None,
        trace_id: None,
        min_duration: None,
        max_duration: None,
        end_ts: Some(now),
        lookback: None,
        limit: SPAN_QUERY_LIMIT,
        only_endpoint: false,
    }
}

/// Milliseconds as microseconds, held to the range of 64 bits.
pub open spec fn micros_of_millis(v: i64) -> i64 {
    if v * 1000 > i64::MAX {
        i64::MAX
    } else if v * 1000 < i64::MIN {
        i64::MIN
    } else {
        (v * 1000) as i64
    }
}

/// Milliseconds as microseconds, held to the range of 64 bits.
pub fn millis_to_micros(v: i64) -> (r: i64)
    ensures
        r == micros_of_millis(v),
{
    if v > i64::MAX / 1000 {
        i64::MAX
    } else if v < i64::MIN / 1000 {
        i64::MIN
    } else {
        v * 1000
    }
}

/// The number that a query parameter writes, if it is there and is one.
pub open spec fn number_param(params: Seq<(Seq<char>, Seq<char>)>, name: Seq<char>) -> Option<i64> {
    match pair_value(params, name) {
        Some(text) => i64_of_text(text),
        None => None,
    }
}

/// A limit held to at most `most`; `most` itself where none is asked for.
pub open spec fn clamped_limit(asked: Option<i64>, most: i64) -> i64 {
    match asked {
        Some(v) => if v > most {
            most
        } else {
            v
        },
        None => most,
    }
}

/// The `finished` parameter: `false` only where it says so.
pub open spec fn finished_param(params: Seq<(Seq<char>, Seq<char>)>) -> bool {
    pair_value(params, "finished"@) != Some("false"@)
}

/// The query that the parameters of a request ask for, at the time `now`.
pub open spec fn span_query_of(params: Seq<(Seq<char>, Seq<char>)>, now: i64) -> SpanQueryView {
    SpanQueryView {
        filter_finish: finished_param(params),
        service_name: pair_value(params, "serviceName"@),
        span_name: pair_value(params, "spanName"@),
        trace_id: pair_value(params, "traceId"@),
        min_duration: number_param(params, "minDuration"@),
        max_duration: number_param(params, "maxDuration"@),
        end_ts: match number_param(params, "endTs"@) {
            Some(v) => Some(micros_of_millis(v)),
            None => Some(now),
        },
        lookback: match number_param(params, "lookback"@) {
            Some(v) => Some(micros_of_millis(v)),
            None => None,
        },
        limit: clamped_limit(number_param(params, "limit"@), SPAN_QUERY_LIMIT),
        only_endpoint: false,
    }
}

/// The query behind the lookup of a trace: all the spans of the trace,
/// whether they have a duration and a timestamp or not. It leaves out
/// the spans without a duration only where the request says
/// `finished=true`, and bounds the time only where the request gives an
/// end or a lookback (which then counts back from `now`).
pub open spec fn trace_lookup_of(trace_id: Seq<char>, params: Seq<(Seq<char>, Seq<char>)>, now: i64) -> SpanQueryView {
    SpanQueryView {
        filter_finish: pair_value(params, "finished"@) == Some("true"@),
        trace_id: Some(trace_id),
        end_ts: match number_param(params, "endTs"@) {
            Some(v) => Some(micros_of_millis(v)),
            None => match number_param(params, "lookback"@) {
                Some(_) => Some(now),
                None => None,
            },
        },
        ..span_query_of(params, now)
    }
}

/// Reads the number that a query parameter writes.
pub fn find_number(params: &Vec<(String, String)>, name: &str) -> (r: Option<i64>)
    ensures
        r == number_param(params.deep_view(), name@),
{
    match find_pair(params, name) {
        Some(text) => parse_i64(text.as_str()),
        None => None,
    }
}

/// A limit held to at most `most`; `most` itself where none is asked for.
pub fn clamp_limit(asked: Option<i64>, most: i64) -> (r: i64)
    ensures
        r == clamped_limit(asked, most),
        r <= most,
{
    match asked {
        Some(v) => if v > most {
            most
        } else {
            v
        },
        None => most,
    }
}

impl SpanQuery {
    /// The query for all finished spans up to `now`.
    pub fn default_at(now: i64) -> (q: SpanQuery)
        ensures
            q@ == default_span_query(now),
    {
        SpanQuery {
            filter_finish: true,
            service_name: None,
            span_name: None,
            trace_id: None,
            min_duration: None,
            max_duration: None,
            end_ts: Some(now),
            lookback: None,
            limit: SPAN_QUERY_LIMIT,
            only_endpoint: false,
        }
    }

    /// The query that the parameters of a request ask for, at the time
    /// `now`. Times in the parameters are in milliseconds. The limit is at
    /// most 500 whatever is asked for.
    pub fn from_req_at(params: &Vec<(String, String)>, now: i64) -> (q: SpanQuery)
        ensures
            q@ == span_query_of(params.deep_view(), now),
            q.limit <= SPAN_QUERY_LIMIT,
    {
        let finished = match find_pair(params, "finished") {
            Some(text) => !text.as_str().eq("false"),
            None => true,
        };
        SpanQuery {
            filter_finish: finished,
            service_name: find_pair(params, "serviceName"),
            span_name: find_pair(params, "spanName"),
            trace_id: find_pair(params, "traceId"),
            min_duration: find_number(params, "minDuration"),
            max_duration: find_number(params, "maxDuration"),
            end_ts: match find_number(params, "endTs") {
                Some(v) => Some(millis_to_micros(v)),
                None => Some(now),
            },
            lookback: match find_number(params, "lookback") {
                Some(v) => Some(millis_to_micros(v)),
                None => None,
            },
            limit: clamp_limit(find_number(params, "limit"), SPAN_QUERY_LIMIT),
            only_endpoint: false,
        }
    }

    /// The query that the parameters of a request ask for, now.
    pub fn from_req(params: &Vec<(String, String)>) -> (q: SpanQuery)
        ensures
            exists|now: i64| q@ == span_query_of(params.deep_view(), now),
            q.limit <= SPAN_QUERY_LIMIT,
    {
        let now = now_micros();
        let q = SpanQuery::from_req_at(params, now);
        assert(q@ == span_query_of(params.deep_view(), now));
        q
    }

    /// The same query for the spans of one trace.
    /// The query behind the lookup of a trace, at the time `now`.
    pub fn for_trace_at(trace_id: String, params: &Vec<(String, String)>, now: i64) -> (q:
        SpanQuery)
        ensures
            q@ == trace_lookup_of(trace_id@, params.deep_view(), now),
            q.limit <= SPAN_QUERY_LIMIT,
    {
        let asked = SpanQuery::from_req_at(params, now);
        let finished = match find_pair(params, "finished") {
            Some(text) => text.as_str().eq("true"),
            None => false,
        };
        let end_ts = match find_number(params, "endTs") {
            Some(v) => Some(millis_to_micros(v)),
            None => match asked.lookback {
                Some(_) => Some(now),
                None => None,
            },
        };
        SpanQuery {
            filter_finish: finished,
            service_name: asked.service_name,
            span_name: asked.span_name,
            trace_id: Some(trace_id),
            min_duration: asked.min_duration,
            max_duration: asked.max_duration,
            end_ts,
            lookback: asked.lookback,
            limit: asked.limit,
            only_endpoint: false,
        }
    }

    pub fn with_trace_id(self, trace_id: String) -> (q: SpanQuery)
        ensures
            q@ == (SpanQueryView { trace_id: Some(trace_id@), ..self@ }),
    {
        let mut q = self;
        q.trace_id = Some(trace_id);
        q
    }

    /// The same query with another limit.
    pub fn with_limit(self, limit: i64) -> (q: SpanQuery)
        ensures
            q@ == (SpanQueryView { limit, ..self@ }),
    {
        let mut q = self;
        q.limit = limit;
        q
    }

    /// The same query for spans with a remote endpoint only, read without
    /// their annotations and tags.
    pub fn only_endpoint(self) -> (q: SpanQuery)
        ensures
            q@ == (SpanQueryView { only_endpoint: true, ..self@ }),
    {
        let mut q = self;
        q.only_endpoint = true;
        q
    }
}

impl Default for SpanQuery {
    /// The query for all finished spans up to now.
    fn default() -> (q: Self)
        ensures
            exists|now: i64| q@ == default_span_query(now),
    {
        let now = now_micros();
        let q = SpanQuery::default_at(now);
        assert(q@ == default_span_query(now));
        q
    }
}

/// The first endpoint of a service.
pub open spec fn service_endpoint(endpoints: Seq<EndpointDbView>, service: Seq<char>) -> Option<
    int,
> {
    first_where(endpoints, |row: EndpointDbView| row.service_name == Some(service))
}

/// Whether the duration of a row is known and within the bounds.
pub open spec fn duration_in(row: SpanDbView, min: Option<i64>, max: Option<i64>) -> bool {
    &&& max is Some ==> row.duration is Some && row.duration->0 <= max->0
    &&& min is Some ==> row.duration is Some && row.duration->0 >= min->0
}

/// Whether a timestamp is in the range of a query: at most `end_ts`
/// and, with a lookback, at least `end_ts - lookback`.
pub open spec fn in_range(ts: i64, end_ts: i64, lookback: Option<i64>) -> bool {
    ts <= end_ts && (lookback is Some ==> ts >= end_ts - lookback->0)
}

/// Whether a row is selected by a query. `endpoint` is the endpoint of
/// the service that the query names, where it names one. A query with
/// an `end_ts` selects no row without a timestamp.
pub open spec fn selects(q: SpanQueryView, endpoint: Option<Seq<char>>) -> spec_fn(
    SpanDbView,
) -> bool {
    |row: SpanDbView|
        {
            &&& q.filter_finish ==> row.duration is Some
            &&& endpoint is Some ==> row.remote_endpoint_id == endpoint || row.local_endpoint_id
                == endpoint
            &&& q.span_name is Some ==> row.name == q.span_name
            &&& q.trace_id is Some ==> Some(row.trace_id) == q.trace_id
            &&& duration_in(row, q.min_duration, q.max_duration)
            &&& q.end_ts is Some ==> row.ts is Some && in_range(
                row.ts->0,
                q.end_ts->0,
                q.lookback,
            )
            &&& q.only_endpoint ==> row.remote_endpoint_id is Some
        }
}

/// How many rows a limit lets through: none where it is negative.
pub open spec fn row_limit(limit: i64) -> nat {
    if limit < 0 {
        0
    } else {
        limit as nat
    }
}

/// The rows that a query returns: the selected rows by timestamp, at
/// most the limit. Where the query names a service that has no endpoint
/// there are none.
pub open spec fn selected_spans(s: Store, q: SpanQueryView) -> Seq<SpanDbView> {
    match q.service_name {
        Some(name) => match service_endpoint(s.endpoints, lowercase_of(name)) {
            Some(i) => prefix(
                sorted_by(
                    s.spans.filter(selects(q, Some(s.endpoints[i].endpoint_id))),
                    order_of::<SpanDb>(),
                ),
                row_limit(q.limit),
            ),
            None => Seq::empty(),
        },
        None => prefix(
            sorted_by(s.spans.filter(selects(q, None)), order_of::<SpanDb>()),
            row_limit(q.limit),
        ),
    }
}

/// The endpoint that a row stands for.
pub open spec fn endpoint_of_row(row: EndpointDbView) -> EndpointView {
    EndpointView {
        service_name: row.service_name,
        ipv4: row.ipv4,
        ipv6: row.ipv6,
        port: row.port,
    }
}

/// The endpoint with the identifier, if the identifier is one and has a row.
pub open spec fn endpoint_by_id(endpoints: Seq<EndpointDbView>, id: Option<Seq<char>>) -> Option<
    EndpointView,
> {
    match id {
        Some(wanted) => match first_where(
            endpoints,
            |row: EndpointDbView| row.endpoint_id == wanted,
        ) {
            Some(i) => Some(endpoint_of_row(endpoints[i])),
            None => None,
        },
        None => None,
    }
}

/// The annotations of one span.
pub open spec fn of_span(trace_id: Seq<char>, span_id: Seq<char>) -> spec_fn(
    AnnotationDbView,
) -> bool {
    |row: AnnotationDbView| row.trace_id == trace_id && row.span_id == span_id
}

/// The tags of one span.
pub open spec fn tag_of_span(span_id: Seq<char>) -> spec_fn(TagDbView) -> bool {
    |row: TagDbView| row.span_id == span_id
}

/// The annotations of a span, in the order in which they came.
pub open spec fn annotations_of(
    annotations: Seq<AnnotationDbView>,
    trace_id: Seq<char>,
    span_id: Seq<char>,
) -> Seq<AnnotationView> {
    let rows = annotations.filter(of_span(trace_id, span_id));
    Seq::new(rows.len(), |k: int| AnnotationView { value: rows[k].value, timestamp: rows[k].ts })
}

/// The tags of a span, in the order in which their names first came.
pub open spec fn tags_of(tags: Seq<TagDbView>, span_id: Seq<char>) -> Seq<(Seq<char>, Seq<char>)> {
    let rows = tags.filter(tag_of_span(span_id));
    Seq::new(rows.len(), |k: int| (rows[k].name, rows[k].value))
}

/// Where the tag table holds each key once, each name heads one of the
/// tags of a span.
pub proof fn lemma_tags_of_once(tags: Seq<TagDbView>, span_id: Seq<char>)
    requires
        unique_tags(tags),
    ensures
        names_once(tags_of(tags, span_id)),
{
    let p = tag_of_span(span_id);
    let rows = tags.filter(p);
    lemma_filter_keeps_distinct(
        tags,
        p,
        |a: TagDbView, b: TagDbView| a.span_id == b.span_id && a.name == b.name,
    );
    lemma_filter_members(tags, p);
    let out = tags_of(tags, span_id);
    assert forall|i: int, j: int| 0 <= i < j < out.len() implies out[i].0 != out[j].0 by {
        assert(rows.contains(rows[i]) && rows.contains(rows[j]));
        assert(p(rows[i]) && p(rows[j]));
        assert(!(rows[i].span_id == rows[j].span_id && rows[i].name == rows[j].name));
    }
}

/// The tags in the older shape, each with the endpoint of the span.
pub open spec fn binary_tags_of(tags: Seq<(Seq<char>, Seq<char>)>, endpoint: Option<EndpointView>) -> Seq<
    BinaryTagView,
> {
    Seq::new(
        tags.len(),
        |k: int| BinaryTagView { key: tags[k].0, value: tags[k].1, endpoint },
    )
}

/// The span that a row stands for. With `bare` set the annotations and
/// tags are left out.
pub open spec fn span_of_row(s: Store, row: SpanDbView, bare: bool) -> SpanView {
    let local = endpoint_by_id(s.endpoints, row.local_endpoint_id);
    let remote = endpoint_by_id(s.endpoints, row.remote_endpoint_id);
    let tags = if bare {
        Seq::empty()
    } else {
        tags_of(s.tags, row.id)
    };
    SpanView {
        trace_id: row.trace_id,
        id: row.id,
        parent_id: row.parent_id,
        name: match row.name {
            Some(n) => Some(prefix(n, SPAN_NAME_LIMIT as nat)),
            None => None,
        },
        kind: match row.kind {
            Some(k) => Some(kind_of_text(k)),
            None => None,
        },
        duration: row.duration,
        timestamp: row.ts,
        debug: row.debug,
        shared: row.shared,
        local_endpoint: local,
        remote_endpoint: remote,
        annotations: if bare {
            Seq::empty()
        } else {
            annotations_of(s.annotations, row.trace_id, row.id)
        },
        tags,
        binary_annotations: binary_tags_of(
            tags,
            if remote is Some {
                remote
            } else {
                local
            },
        ),
    }
}

/// The spans that a query returns.
pub open spec fn spans_found(s: Store, q: SpanQueryView) -> Seq<SpanView> {
    let rows = selected_spans(s, q);
    Seq::new(rows.len(), |k: int| span_of_row(s, rows[k], q.only_endpoint))
}

/// The names of the services of the endpoints, one for each endpoint;
/// an endpoint without a service counts as the service with the empty
/// name.
pub open spec fn endpoint_services(endpoints: Seq<EndpointDbView>) -> Seq<Seq<char>> {
    Seq::new(
        endpoints.len(),
        |k: int|
            match endpoints[k].service_name {
                Some(n) => n,
                None => Seq::empty(),
            },
    )
}

/// The names of the known services in the order of texts, each once.
pub open spec fn service_names(endpoints: Seq<EndpointDbView>) -> Seq<Seq<char>> {
    distinct(sorted_by(endpoint_services(endpoints), order_of::<String>()))
}

fn row_limit_of(limit: i64) -> (n: usize)
    ensures
        n <= row_limit(limit),
        n < row_limit(limit) ==> n == usize::MAX,
{
    if limit <= 0 {
        0
    } else if limit as u64 > usize::MAX as u64 {
        usize::MAX
    } else {
        limit as usize
    }
}

fn row_selected(q: &SpanQuery, endpoint: &Option<String>, row: &SpanDb) -> (r: bool)
    ensures
        r == selects(q@, opt_view(*endpoint))(row@),
{
    let finished = !q.filter_finish || row.duration.is_some();
    let at_endpoint = endpoint.is_none() || opt_string_eq(&row.remote_endpoint_id, endpoint)
        || opt_string_eq(&row.local_endpoint_id, endpoint);
    let named = q.span_name.is_none() || opt_string_eq(&row.name, &q.span_name);
    let in_trace = match &q.trace_id {
        Some(t) => row.trace_id == *t,
        None => true,
    };
    let short_enough = match q.max_duration {
        Some(max) => match row.duration {
            Some(d) => d <= max,
            None => false,
        },
        None => true,
    };
    let long_enough = match q.min_duration {
        Some(min) => match row.duration {
            Some(d) => d >= min,
            None => false,
        },
        None => true,
    };
    let timely = match q.end_ts {
        Some(end) => match row.ts {
            Some(ts) => ts <= end && (match q.lookback {
                Some(l) => ts as i128 >= end as i128 - l as i128,
                None => true,
            }),
            None => false,
        },
        None => true,
    };
    let remote = !q.only_endpoint || row.remote_endpoint_id.is_some();
    finished && at_endpoint && named && in_trace && short_enough && long_enough && timely && remote
}

fn find_service_endpoint(endpoints: &Vec<EndpointDb>, service: &String) -> (r: Option<usize>)
    ensures
        match r {
            Some(i) => service_endpoint(views(endpoints@), service@) == Some(i as int) && i
                < endpoints.len(),
            None => service_endpoint(views(endpoints@), service@) is None,
        },
{
    let mut i: usize = 0;
    while i < endpoints.len()
        invariant
            i <= endpoints.len(),
            forall|k: int| 0 <= k < i ==> views(endpoints@)[k].service_name != Some(service@),
        decreases endpoints.len() - i,
    {
        if opt_string_is(&endpoints[i].service_name, service) {
            proof {
                lemma_first_where_at(
                    views(endpoints@),
                    |row: EndpointDbView| row.service_name == Some(service@),
                    i as int,
                );
            }
            return Some(i);
        }
        i += 1;
    }
    proof {
        lemma_first_where_none(
            views(endpoints@),
            |row: EndpointDbView| row.service_name == Some(service@),
        );
    }
    None
}

/// The endpoint with the identifier.
pub fn find_endpoint_by_id(endpoints: &Vec<EndpointDb>, id: &str) -> (r: Option<Endpoint>)
    ensures
        opt_view(r) == endpoint_by_id(views(endpoints@), Some(id@)),
{
    let mut i: usize = 0;
    while i < endpoints.len()
        invariant
            i <= endpoints.len(),
            forall|k: int| 0 <= k < i ==> views(endpoints@)[k].endpoint_id != id@,
        decreases endpoints.len() - i,
    {
        if endpoints[i].endpoint_id.as_str().eq(id) {
            proof {
                lemma_first_where_at(
                    views(endpoints@),
                    |row: EndpointDbView| row.endpoint_id == id@,
                    i as int,
                );
            }
            return Some(
                Endpoint {
                    service_name: clone_opt_string(&endpoints[i].service_name),
                    ipv4: clone_opt_string(&endpoints[i].ipv4),
                    ipv6: clone_opt_string(&endpoints[i].ipv6),
                    port: endpoints[i].port,
                },
            );
        }
        i += 1;
    }
    proof {
        lemma_first_where_none(views(endpoints@), |row: EndpointDbView| row.endpoint_id == id@);
    }
    None
}

fn read_annotations(annotations: &Vec<AnnotationDb>, trace_id: &String, span_id: &String) -> (r:
    Vec<Annotation>)
    ensures
        views(r@) == annotations_of(views(annotations@), trace_id@, span_id@),
{
    let mut keep: Vec<bool> = Vec::new();
    let mut i: usize = 0;
    while i < annotations.len()
        invariant
            i <= annotations.len(),
            keep.len() == i,
            forall|k: int|
                0 <= k < i ==> keep[k] == of_span(trace_id@, span_id@)(#[trigger] annotations[k]@),
        decreases annotations.len() - i,
    {
        keep.push(annotations[i].trace_id == *trace_id && annotations[i].span_id == *span_id);
        i += 1;
    }
    let rows = keep_where(annotations, &keep, Ghost(of_span(trace_id@, span_id@)));
    let mut out: Vec<Annotation> = Vec::new();
    let mut j: usize = 0;
    while j < rows.len()
        invariant
            j <= rows.len(),
            out.len() == j,
            forall|k: int|
                0 <= k < j ==> out[k]@ == (AnnotationView {
                    value: rows[k]@.value,
                    timestamp: rows[k]@.ts,
                }),
        decreases rows.len() - j,
    {
        out.push(Annotation { value: rows[j].value.clone(), timestamp: rows[j].ts });
        j += 1;
    }
    assert(views(out@) =~= annotations_of(views(annotations@), trace_id@, span_id@));
    out
}

fn read_tags(tags: &Vec<TagDb>, span_id: &String) -> (r: Vec<(String, String)>)
    ensures
        r.deep_view() == tags_of(views(tags@), span_id@),
        unique_tags(views(tags@)) ==> names_once(r.deep_view()),
{
    proof {
        if unique_tags(views(tags@)) {
            lemma_tags_of_once(views(tags@), span_id@);
        }
    }
    let mut keep: Vec<bool> = Vec::new();
    let mut i: usize = 0;
    while i < tags.len()
        invariant
            i <= tags.len(),
            keep.len() == i,
            forall|k: int| 0 <= k < i ==> keep[k] == tag_of_span(span_id@)(#[trigger] tags[k]@),
        decreases tags.len() - i,
    {
        keep.push(tags[i].span_id == *span_id);
        i += 1;
    }
    let rows = keep_where(tags, &keep, Ghost(tag_of_span(span_id@)));
    let mut out: Vec<(String, String)> = Vec::new();
    let mut j: usize = 0;
    while j < rows.len()
        invariant
            j <= rows.len(),
            out.len() == j,
            forall|k: int|
                0 <= k < j ==> (#[trigger] out[k]).0@ == rows[k]@.name && out[k].1@
                    == rows[k]@.value,
        decreases rows.len() - j,
    {
        out.push((rows[j].name.clone(), rows[j].value.clone()));
        j += 1;
    }
    assert forall|k: int| 0 <= k < out.len() implies out.deep_view()[k] == (
        rows[k]@.name,
        rows[k]@.value,
    ) by {
        assert(out.deep_view()[k] == (out[k].0@, out[k].1@));
    }
    assert(out.deep_view() =~= tags_of(views(tags@), span_id@));
    out
}

fn binary_tags(tags: &Vec<(String, String)>, endpoint: &Option<Endpoint>) -> (r: Vec<BinaryTag>)
    ensures
        views(r@) == binary_tags_of(tags.deep_view(), opt_view(*endpoint)),
{
    let mut out: Vec<BinaryTag> = Vec::new();
    let mut j: usize = 0;
    while j < tags.len()
        invariant
            j <= tags.len(),
            out.len() == j,
            forall|k: int|
                0 <= k < j ==> out[k]@ == binary_tags_of(tags.deep_view(), opt_view(*endpoint))[k],
        decreases tags.len() - j,
    {
        assert(tags.deep_view()[j as int] == (tags[j as int].0@, tags[j as int].1@));
        out.push(
            BinaryTag {
                key: tags[j].0.clone(),
                value: tags[j].1.clone(),
                endpoint: clone_opt_endpoint(endpoint),
            },
        );
        j += 1;
    }
    assert(views(out@) =~= binary_tags_of(tags.deep_view(), opt_view(*endpoint)));
    out
}

impl DbExecutor {
    /// The names of the known services in the order of texts, each once.
    pub fn get_services(&self) -> (names: Vec<String>)
        ensures
            views(names@) == service_names(self@.endpoints),
    {
        let mut services: Vec<String> = Vec::new();
        let mut i: usize = 0;
        while i < self.endpoints.len()
            invariant
                i <= self.endpoints.len(),
                services.len() == i,
                forall|k: int|
                    0 <= k < i ==> services[k]@ == endpoint_services(self@.endpoints)[k],
            decreases self.endpoints.len() - i,
        {
            assert(self@.endpoints[i as int] == self.endpoints[i as int]@);
            services.push(
                match &self.endpoints[i].service_name {
                    Some(n) => n.clone(),
                    None => String::new(),
                },
            );
            i += 1;
        }
        assert(views(services@) =~= endpoint_services(self@.endpoints));
        let sorted = sort_rows(&services);
        distinct_texts(&sorted)
    }

    /// The span that a row stands for.
    pub fn span_from_row(&self, row: &SpanDb, bare: bool) -> (span: Span)
        ensures
            span@ == span_of_row(self@, row@, bare),
            unique_tags(self@.tags) ==> names_once(span@.tags),
    {
        let local_endpoint = match &row.local_endpoint_id {
            Some(id) => find_endpoint_by_id(&self.endpoints, id.as_str()),
            None => None,
        };
        let remote_endpoint = match &row.remote_endpoint_id {
            Some(id) => find_endpoint_by_id(&self.endpoints, id.as_str()),
            None => None,
        };
        let annotations = if bare {
            let none: Vec<Annotation> = Vec::new();
            assert(views(none@) =~= Seq::<AnnotationView>::empty());
            none
        } else {
            read_annotations(&self.annotations, &row.trace_id, &row.id)
        };
        let tags = if bare {
            let none: Vec<(String, String)> = Vec::new();
            assert(none.deep_view() =~= Seq::<(Seq<char>, Seq<char>)>::empty());
            none
        } else {
            read_tags(&self.tags, &row.id)
        };
        let binary_annotations = if remote_endpoint.is_some() {
            binary_tags(&tags, &remote_endpoint)
        } else {
            binary_tags(&tags, &local_endpoint)
        };
        Span {
            trace_id: row.trace_id.clone(),
            id: row.id.clone(),
            parent_id: clone_opt_string(&row.parent_id),
            name: match &row.name {
                Some(n) => Some(truncate_chars(n.as_str(), SPAN_NAME_LIMIT)),
                None => None,
            },
            kind: match &row.kind {
                Some(k) => Some(Kind::from_text(k.as_str())),
                None => None,
            },
            timestamp: row.ts,
            duration: row.duration,
            debug: row.debug,
            shared: row.shared,
            local_endpoint,
            remote_endpoint,
            annotations,
            tags,
            binary_annotations,
        }
    }

    /// The rows that a query selects, in order and within its limit.
    pub fn select_spans(&self, query: &SpanQuery) -> (rows: Vec<SpanDb>)
        ensures
            views(rows@) == selected_spans(self@, query@),
    {
        let endpoint: Option<String> = match &query.service_name {
            Some(name) => {
                let lowered = to_lowercase(name.as_str());
                match find_service_endpoint(&self.endpoints, &lowered) {
                    Some(i) => {
                        assert(self@.endpoints[i as int] == self.endpoints[i as int]@);
                        Some(self.endpoints[i].endpoint_id.clone())
                    },
                    None => {
                        let none: Vec<SpanDb> = Vec::new();
                        assert(views(none@) =~= Seq::<SpanDbView>::empty());
                        return none;
                    },
                }
            },
            None => None,
        };
        let mut keep: Vec<bool> = Vec::new();
        let mut i: usize = 0;
        while i < self.spans.len()
            invariant
                i <= self.spans.len(),
                keep.len() == i,
                forall|k: int|
                    0 <= k < i ==> keep[k] == selects(query@, opt_view(endpoint))(
                        #[trigger] self.spans[k]@,
                    ),
            decreases self.spans.len() - i,
        {
            keep.push(row_selected(query, &endpoint, &self.spans[i]));
            i += 1;
        }
        let kept = keep_where(&self.spans, &keep, Ghost(selects(query@, opt_view(endpoint))));
        let sorted = sort_rows(&kept);
        let n = row_limit_of(query.limit);
        let rows = first_rows(&sorted, n);
        proof {
            assert(views(sorted@).len() == sorted.len());
            assert(prefix(views(sorted@), n as nat) == prefix(
                views(sorted@),
                row_limit(query.limit),
            ));
        }
        rows
    }

    /// The spans that a query asks for.
    pub fn get_spans(&self, query: &SpanQuery) -> (spans: Vec<Span>)
        ensures
            views(spans@) == spans_found(self@, query@),
    {
        let rows = self.select_spans(query);
        let mut spans: Vec<Span> = Vec::new();
        let mut i: usize = 0;
        while i < rows.len()
            invariant
                i <= rows.len(),
                spans.len() == i,
                views(rows@) == selected_spans(self@, query@),
                forall|k: int|
                    0 <= k < i ==> spans[k]@ == span_of_row(
                        self@,
                        views(rows@)[k],
                        query.only_endpoint,
                    ),
            decreases rows.len() - i,
        {
            assert(views(rows@)[i as int] == rows[i as int]@);
            spans.push(self.span_from_row(&rows[i], query.only_endpoint));
            i += 1;
        }
        assert(views(spans@) =~= spans_found(self@, query@));
        spans
    }
}

} // verus!
