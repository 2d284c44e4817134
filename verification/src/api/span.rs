//! The span endpoints: ingestion, the list of services, the span names
//! of a service, the spans of a trace, the traces, and who calls whom.

use vstd::prelude::*;
use crate::api::errors::IkError;
use crate::db::read::span::{
    service_names, span_query_of, spans_found, trace_lookup_of, SpanQuery, SpanQueryView,
};
use crate::db::schema::DbExecutor;
use crate::engine::ingestor::{
    all_uuid_ids, batch_ingested, ids_fit, traces_done, IngestEvents, Ingestor, SpanIds,
};
use crate::engine::{is_uuid_v4, now_micros, IngestId};
use crate::db::update::span::{uuid_ids, UpsertIds};
use crate::engine::test_result::{local_service, remote_service};
use crate::opentracing::span::{Span, SpanView};
use crate::seqs::{
    first_where, lemma_first_where, lemma_first_where_at, lemma_first_where_none, order_of,
    sort_rows, sorted_by,
};
use crate::text::{find_pair, lemma_views_push, lemma_views_update, pair_value, views};

verus! {

/// The answer to an ingestion: the identifier of the batch and the
/// number of spans that were accepted.
#[derive(Debug)]
pub struct IngestResponse {
    pub ingest_id: IngestId,
    pub nb_events: usize,
}

/// Takes a batch of spans in, now. Gives the answer for the client and
/// the traces to look at for a test result once the delay has passed.
pub fn ingest(db: &mut DbExecutor, spans: Vec<Span>) -> (r: (IngestResponse, Vec<String>))
    ensures
        r.0.nb_events == spans.len(),
        is_uuid_v4(r.0.ingest_id@),
        views(r.1@) == traces_done(views(spans@)),
        crate::db::invariants::well_formed(old(db)@) ==> crate::db::invariants::well_formed(
            final(db)@,
        ),
        exists|ids: Seq<UpsertIds>, created_at: i64, processed_at: i64|
            #![trigger batch_ingested(old(db)@, r.0.ingest_id@, created_at, views(spans@), ids, processed_at)]
            ids_fit(views(spans@), ids) && all_uuid_ids(ids) && final(db)@ == batch_ingested(
                old(db)@,
                r.0.ingest_id@,
                created_at,
                views(spans@),
                ids,
                processed_at,
            ),
{
    let nb_events: usize = spans.len();
    let mut ids: Vec<SpanIds> = Vec::new();
    let mut i: usize = 0;
    while i < spans.len()
        invariant
            i <= spans.len(),
            ids.len() == i,
            forall|k: int|
                0 <= k < i ==> (#[trigger] views(ids@)[k]).annotations.len() == views(
                    spans@,
                )[k].annotations.len(),
            forall|k: int| 0 <= k < i ==> uuid_ids(#[trigger] views(ids@)[k]),
        decreases spans.len() - i,
    {
        let span_ids = SpanIds::fresh_for(&spans[i]);
        proof {
            lemma_views_push(ids@, span_ids);
            assert(views(spans@)[i as int] == spans[i as int]@);
        }
        ids.push(span_ids);
        i += 1;
    }
    let ghost shown = views(ids@);
    let ghost batch = views(spans@);
    let msg = IngestEvents::new(spans);
    let ingest_id = msg.ingest_id.clone();
    let ghost created_at = msg.created_at;
    let processed_at = now_micros();
    let done = Ingestor::ingest_with_ids(db, msg, ids, processed_at);
    let response = IngestResponse { ingest_id, nb_events };
    assert(ids_fit(views(spans@), shown));
    assert(all_uuid_ids(shown));
    assert(db@ == batch_ingested(
        old(db)@,
        response.ingest_id@,
        created_at,
        views(spans@),
        shown,
        processed_at,
    ));
    assert(exists|ids: Seq<UpsertIds>, created_at: i64, processed_at: i64|
        #![trigger batch_ingested(old(db)@, response.ingest_id@, created_at, views(spans@), ids, processed_at)]
        ids_fit(views(spans@), ids) && all_uuid_ids(ids) && db@ == batch_ingested(
            old(db)@,
            response.ingest_id@,
            created_at,
            views(spans@),
            ids,
            processed_at,
        ));
    (response, done)
}

/// The names of the known services, each once.
pub fn get_services(db: &DbExecutor) -> (names: Vec<String>)
    ensures
        views(names@) == service_names(db@.endpoints),
{
    db.get_services()
}

/// The name a span is listed under: `n/a` where it has none.
pub open spec fn listed_name(span: SpanView) -> Seq<char> {
    match span.name {
        Some(n) => n,
        None => "n/a"@,
    }
}

/// The names of the spans, each once, in the order in which they were
/// first seen.
pub open spec fn seen_names(spans: Seq<SpanView>) -> Seq<Seq<char>>
    decreases spans.len(),
{
    if spans.len() == 0 {
        Seq::empty()
    } else {
        let before = seen_names(spans.drop_last());
        if before.contains(listed_name(spans.last())) {
            before
        } else {
            before.push(listed_name(spans.last()))
        }
    }
}

/// The names of the spans, each once, in the order of texts.
pub open spec fn span_names(spans: Seq<SpanView>) -> Seq<Seq<char>> {
    sorted_by(seen_names(spans), order_of::<String>())
}

/// What is said where the request names no service.
pub open spec fn missing_service_name() -> Seq<char> {
    "missing serviceName query parameter"@
}

/// What is said where the path names no trace.
pub open spec fn missing_trace_id() -> Seq<char> {
    "missing traceId path parameter"@
}

/// The names of the spans, each once, in the order of texts.
pub fn names_of_spans(spans: &Vec<Span>) -> (names: Vec<String>)
    ensures
        views(names@) == span_names(views(spans@)),
{
    let ghost all = views(spans@);
    let mut seen: Vec<String> = Vec::new();
    let mut i: usize = 0;
    assert(all.take(0) =~= Seq::<SpanView>::empty());
    assert(views(seen@) =~= Seq::<Seq<char>>::empty());
    while i < spans.len()
        invariant
            i <= spans.len(),
            all == views(spans@),
            views(seen@) == seen_names(all.take(i as int)),
        decreases spans.len() - i,
    {
        assert(all.take(i + 1).drop_last() =~= all.take(i as int));
        assert(all.take(i + 1).last() == spans[i as int]@);
        let name = match &spans[i].name {
            Some(n) => n.clone(),
            None => "n/a".to_string(),
        };
        if !crate::seqs::holds_text(&seen, &name) {
            proof {
                lemma_views_push(seen@, name);
            }
            seen.push(name);
        }
        i += 1;
    }
    assert(all.take(i as int) =~= all);
    sort_rows(&seen)
}

/// The names of the spans of a service. The request has to name the
/// service; it fails as a bad request exactly where it does not.
pub fn get_spans_by_service_at(db: &DbExecutor, params: &Vec<(String, String)>, now: i64) -> (r:
    Result<Vec<String>, IkError>)
    ensures
        match r {
            Ok(names) => pair_value(params.deep_view(), "serviceName"@) is Some && views(names@)
                == span_names(spans_found(db@, span_query_of(params.deep_view(), now))),
            Err(IkError::BadRequest(msg)) => pair_value(params.deep_view(), "serviceName"@) is None
                && msg@ == missing_service_name(),
            Err(_) => false,
        },
{
    match find_pair(params, "serviceName") {
        Some(_) => {
            let spans = db.get_spans(&SpanQuery::from_req_at(params, now));
            Ok(names_of_spans(&spans))
        },
        None => Err(IkError::BadRequest("missing serviceName query parameter".to_string())),
    }
}

/// The names of the spans of a service, as of now.
pub fn get_spans_by_service(db: &DbExecutor, params: &Vec<(String, String)>) -> (r: Result<
    Vec<String>,
    IkError,
>)
    ensures
        match r {
            Ok(names) => pair_value(params.deep_view(), "serviceName"@) is Some && exists|
                now: i64,
            |
                views(names@) == span_names(
                    spans_found(db@, #[trigger] span_query_of(params.deep_view(), now)),
                ),
            Err(IkError::BadRequest(msg)) => pair_value(params.deep_view(), "serviceName"@) is None
                && msg@ == missing_service_name(),
            Err(_) => false,
        },
{
    let now = now_micros();
    let r = get_spans_by_service_at(db, params, now);
    proof {
        if r is Ok {
            assert(views(r->Ok_0@) == span_names(
                spans_found(db@, span_query_of(params.deep_view(), now)),
            ));
        }
    }
    r
}

/// The spans of a trace: all that the store holds of it, up to the
/// limit, by timestamp. The request can narrow them down: `finished=true`
/// leaves out the spans without a duration, an end or a lookback bounds
/// the time. The request has to name the trace; it fails as a bad request
/// exactly where it does not.
pub fn get_spans_by_trace_id_at(
    db: &DbExecutor,
    trace_id: Option<String>,
    params: &Vec<(String, String)>,
    now: i64,
) -> (r: Result<Vec<Span>, IkError>)
    ensures
        match r {
            Ok(spans) => trace_id is Some && views(spans@) == spans_found(
                db@,
                trace_lookup_of(trace_id->0@, params.deep_view(), now),
            ),
            Err(IkError::BadRequest(msg)) => trace_id is None && msg@ == missing_trace_id(),
            Err(_) => false,
        },
{
    match trace_id {
        Some(id) => Ok(db.get_spans(&SpanQuery::for_trace_at(id, params, now))),
        None => Err(IkError::BadRequest("missing traceId path parameter".to_string())),
    }
}

/// The spans of a trace, as of now.
pub fn get_spans_by_trace_id(
    db: &DbExecutor,
    trace_id: Option<String>,
    params: &Vec<(String, String)>,
) -> (r: Result<Vec<Span>, IkError>)
    ensures
        match r {
            Ok(spans) => trace_id is Some && exists|now: i64|
                views(spans@) == spans_found(
                    db@,
                    #[trigger] trace_lookup_of(trace_id->0@, params.deep_view(), now),
                ),
            Err(IkError::BadRequest(msg)) => trace_id is None && msg@ == missing_trace_id(),
            Err(_) => false,
        },
{
    let now = now_micros();
    let r = get_spans_by_trace_id_at(db, trace_id, params, now);
    proof {
        if r is Ok {
            assert(views(r->Ok_0@) == spans_found(
                db@,
                trace_lookup_of(trace_id->0@, params.deep_view(), now),
            ));
        }
    }
    r
}

/// The spans sorted into traces: a trace for every trace identifier, in
/// the order in which the traces were first seen, each with its spans
/// in order.
pub open spec fn by_trace(spans: Seq<SpanView>) -> Seq<Seq<SpanView>>
    decreases spans.len(),
{
    if spans.len() == 0 {
        Seq::empty()
    } else {
        let before = by_trace(spans.drop_last());
        let span = spans.last();
        match first_where(
            before,
            |trace: Seq<SpanView>| trace.len() > 0 && trace[0].trace_id == span.trace_id,
        ) {
            Some(i) => before.update(i, before[i].push(span)),
            None => before.push(seq![span]),
        }
    }
}

/// The traces, span by span.
pub open spec fn traces_view(traces: Seq<Vec<Span>>) -> Seq<Seq<SpanView>> {
    Seq::new(traces.len(), |k: int| views(traces[k]@))
}

/// Sorts spans into traces.
pub fn group_by_trace(spans: Vec<Span>) -> (traces: Vec<Vec<Span>>)
    ensures
        traces_view(traces@) == by_trace(views(spans@)),
{
    let ghost all = views(spans@);
    let mut traces: Vec<Vec<Span>> = Vec::new();
    let mut i: usize = 0;
    assert(all.take(0) =~= Seq::<SpanView>::empty());
    assert(traces_view(traces@) =~= Seq::<Seq<SpanView>>::empty());
    while i < spans.len()
        invariant
            i <= spans.len(),
            all == views(spans@),
            traces_view(traces@) == by_trace(all.take(i as int)),
        decreases spans.len() - i,
    {
        assert(all.take(i + 1).drop_last() =~= all.take(i as int));
        assert(all.take(i + 1).last() == spans[i as int]@);
        let span = spans[i].clone();
        let ghost before = traces_view(traces@);
        let ghost p = |trace: Seq<SpanView>| trace.len() > 0 && trace[0].trace_id == span@.trace_id;
        let mut k: usize = 0;
        while k < traces.len() && !(traces[k].len() > 0 && traces[k][0].trace_id == span.trace_id)
            invariant
                k <= traces.len(),
                before == traces_view(traces@),
                forall|j: int|
                    0 <= j < k ==> !(before[j].len() > 0 && before[j][0].trace_id
                        == span@.trace_id),
            decreases traces.len() - k,
        {
            assert(before[k as int] == views(traces[k as int]@));
            if traces[k].len() > 0 {
                assert(before[k as int][0] == traces[k as int][0]@);
            }
            k += 1;
        }
        if k < traces.len() {
            proof {
                assert(before[k as int] == views(traces[k as int]@));
                assert(before[k as int][0] == traces[k as int][0]@);
                lemma_first_where_at(before, p, k as int);
            }
            let mut trace = traces.remove(k);
            proof {
                lemma_views_push(trace@, span);
            }
            trace.push(span);
            traces.insert(k, trace);
            assert(traces_view(traces@) =~= before.update(k as int, before[k as int].push(span@)));
        } else {
            proof {
                lemma_first_where_none(before, p);
            }
            let mut trace: Vec<Span> = Vec::new();
            trace.push(span);
            assert(views(trace@) =~= seq![span@]);
            traces.push(trace);
            assert(traces_view(traces@) =~= before.push(seq![span@]));
        }
        i += 1;
    }
    assert(all.take(i as int) =~= all);
    traces
}

/// The spans that the request asks for, sorted into traces.
pub fn get_traces_at(db: &DbExecutor, params: &Vec<(String, String)>, now: i64) -> (traces: Vec<
    Vec<Span>,
>)
    ensures
        traces_view(traces@) == by_trace(spans_found(db@, span_query_of(params.deep_view(), now))),
{
    group_by_trace(db.get_spans(&SpanQuery::from_req_at(params, now)))
}

/// The spans that the request asks for as of now, sorted into traces.
pub fn get_traces(db: &DbExecutor, params: &Vec<(String, String)>) -> (traces: Vec<Vec<Span>>)
    ensures
        exists|now: i64|
            traces_view(traces@) == by_trace(
                spans_found(db@, #[trigger] span_query_of(params.deep_view(), now)),
            ),
{
    let now = now_micros();
    let traces = get_traces_at(db, params, now);
    assert(traces_view(traces@) == by_trace(
        spans_found(db@, span_query_of(params.deep_view(), now)),
    ));
    traces
}

/// How often one service called another.
#[derive(Debug)]
pub struct Dependency {
    pub parent: String,
    pub child: String,
    pub call_count: u32,
    pub error_count: u32,
}

pub ghost struct DependencyView {
    pub parent: Seq<char>,
    pub child: Seq<char>,
    pub call_count: u32,
    pub error_count: u32,
}

impl View for Dependency {
    type V = DependencyView;

    open spec fn view(&self) -> DependencyView {
        DependencyView {
            parent: self.parent@,
            child: self.child@,
            call_count: self.call_count,
            error_count: self.error_count,
        }
    }
}

impl Clone for Dependency {
    fn clone(&self) -> (r: Self)
        ensures
            r@ == self@,
    {
        Dependency {
            parent: self.parent.clone(),
            child: self.child.clone(),
            call_count: self.call_count,
            error_count: self.error_count,
        }
    }
}

impl Dependency {
    /// The same dependency with one more call.
    pub fn add_call(&self) -> (r: Dependency)
        requires
            self.call_count < u32::MAX,
        ensures
            r@ == (DependencyView { call_count: (self.call_count + 1) as u32, ..self@ }),
    {
        Dependency {
            parent: self.parent.clone(),
            child: self.child.clone(),
            call_count: self.call_count + 1,
            error_count: self.error_count,
        }
    }
}

/// The most spans that the dependencies are computed from.
pub const DEPENDENCY_SPAN_LIMIT: i64 = 100_000;

/// The name of a service in the dependencies: `n/a` where it is unknown.
pub open spec fn service_or_unknown(service: Option<Seq<char>>) -> Seq<char> {
    match service {
        Some(s) => s,
        None => "n/a"@,
    }
}

/// The dependencies with one more call from `parent` to `child`.
pub open spec fn with_call(deps: Seq<DependencyView>, parent: Seq<char>, child: Seq<char>) -> Seq<
    DependencyView,
> {
    match first_where(deps, |d: DependencyView| d.parent == parent && d.child == child) {
        Some(i) => deps.update(
            i,
            DependencyView { call_count: (deps[i].call_count + 1) as u32, ..deps[i] },
        ),
        None => deps.push(DependencyView { parent, child, call_count: 1, error_count: 0 }),
    }
}

/// Whether each pair of a calling and a called service has one entry.
pub open spec fn calls_once(deps: Seq<DependencyView>) -> bool {
    forall|i: int, j: int|
        0 <= i < j < deps.len() ==> !(#[trigger] deps[i].parent == #[trigger] deps[j].parent
            && deps[i].child == deps[j].child)
}

/// Counting a call keeps each pair of services in one entry.
pub proof fn lemma_with_call_once(deps: Seq<DependencyView>, parent: Seq<char>, child: Seq<char>)
    requires
        calls_once(deps),
    ensures
        calls_once(with_call(deps, parent, child)),
{
    lemma_first_where(deps, |d: DependencyView| d.parent == parent && d.child == child);
}

/// Each pair of a calling and a called service has one entry among the
/// dependencies.
pub proof fn lemma_dependencies_once(spans: Seq<SpanView>)
    ensures
        calls_once(dependencies_of(spans)),
    decreases spans.len(),
{
    if spans.len() > 0 {
        lemma_dependencies_once(spans.drop_last());
        lemma_with_call_once(
            dependencies_of(spans.drop_last()),
            service_or_unknown(local_service(spans.last())),
            service_or_unknown(remote_service(spans.last())),
        );
    }
}

/// Who calls whom among the spans: for every pair of local and remote
/// service the number of spans between them, in the order in which the
/// pairs were first seen.
pub open spec fn dependencies_of(spans: Seq<SpanView>) -> Seq<DependencyView>
    decreases spans.len(),
{
    if spans.len() == 0 {
        Seq::empty()
    } else {
        with_call(
            dependencies_of(spans.drop_last()),
            service_or_unknown(local_service(spans.last())),
            service_or_unknown(remote_service(spans.last())),
        )
    }
}

/// The query behind the dependencies: that of the request, for spans
/// with a remote endpoint only, up to the limit of the dependencies.
pub open spec fn dependency_query(params: Seq<(Seq<char>, Seq<char>)>, now: i64) -> SpanQueryView {
    SpanQueryView {
        limit: DEPENDENCY_SPAN_LIMIT,
        only_endpoint: true,
        ..span_query_of(params, now)
    }
}

fn service_name_or_unknown(service: Option<&String>) -> (r: String)
    ensures
        r@ == service_or_unknown(
            match service {
                Some(s) => Some(s@),
                None => None,
            },
        ),
{
    match service {
        Some(s) => s.clone(),
        None => "n/a".to_string(),
    }
}

/// Who calls whom among the spans.
pub fn count_dependencies(spans: &Vec<Span>) -> (deps: Vec<Dependency>)
    requires
        spans.len() < u32::MAX,
    ensures
        views(deps@) == dependencies_of(views(spans@)),
        calls_once(views(deps@)),
{
    proof {
        lemma_dependencies_once(views(spans@));
    }
    let ghost all = views(spans@);
    let mut deps: Vec<Dependency> = Vec::new();
    let mut i: usize = 0;
    assert(all.take(0) =~= Seq::<SpanView>::empty());
    assert(views(deps@) =~= Seq::<DependencyView>::empty());
    while i < spans.len()
        invariant
            i <= spans.len(),
            spans.len() < u32::MAX,
            all == views(spans@),
            views(deps@) == dependencies_of(all.take(i as int)),
            forall|k: int| 0 <= k < deps.len() ==> (#[trigger] deps[k]).call_count <= i,
        decreases spans.len() - i,
    {
        assert(all.take(i + 1).drop_last() =~= all.take(i as int));
        assert(all.take(i + 1).last() == spans[i as int]@);
        let parent = service_name_or_unknown(
            match &spans[i].local_endpoint {
                Some(ep) => ep.service_name.as_ref(),
                None => None,
            },
        );
        let child = service_name_or_unknown(
            match &spans[i].remote_endpoint {
                Some(ep) => ep.service_name.as_ref(),
                None => None,
            },
        );
        let ghost before = views(deps@);
        let mut k: usize = 0;
        while k < deps.len() && !(deps[k].parent == parent && deps[k].child == child)
            invariant
                k <= deps.len(),
                before == views(deps@),
                forall|j: int|
                    0 <= j < k ==> !(before[j].parent == parent@ && before[j].child == child@),
            decreases deps.len() - k,
        {
            assert(before[k as int] == deps[k as int]@);
            k += 1;
        }
        if k < deps.len() {
            proof {
                assert(before[k as int] == deps[k as int]@);
                lemma_first_where_at(
                    before,
                    |d: DependencyView| d.parent == parent@ && d.child == child@,
                    k as int,
                );
            }
            let more = deps[k].add_call();
            proof {
                lemma_views_update(deps@, k as int, more);
            }
            deps.set(k, more);
        } else {
            proof {
                lemma_first_where_none(
                    before,
                    |d: DependencyView| d.parent == parent@ && d.child == child@,
                );
            }
            let first = Dependency { parent, child, call_count: 1, error_count: 0 };
            proof {
                lemma_views_push(deps@, first);
            }
            deps.push(first);
        }
        i += 1;
    }
    assert(all.take(i as int) =~= all);
    deps
}

/// Who calls whom among the spans that the request asks for.
pub fn get_dependencies_at(db: &DbExecutor, params: &Vec<(String, String)>, now: i64) -> (deps:
    Vec<Dependency>)
    ensures
        views(deps@) == dependencies_of(
            spans_found(db@, dependency_query(params.deep_view(), now)),
        ),
{
    let query = SpanQuery::from_req_at(params, now).with_limit(DEPENDENCY_SPAN_LIMIT).only_endpoint();
    let spans = db.get_spans(&query);
    assert(views(spans@).len() == spans.len());
    count_dependencies(&spans)
}

/// Who calls whom among the spans that the request asks for, as of now.
pub fn get_dependencies(db: &DbExecutor, params: &Vec<(String, String)>) -> (deps: Vec<Dependency>)
    ensures
        exists|now: i64|
            views(deps@) == dependencies_of(
                spans_found(db@, #[trigger] dependency_query(params.deep_view(), now)),
            ),
{
    let now = now_micros();
    let deps = get_dependencies_at(db, params, now);
    assert(views(deps@) == dependencies_of(
        spans_found(db@, dependency_query(params.deep_view(), now)),
    ));
    deps
}

} // verus!
