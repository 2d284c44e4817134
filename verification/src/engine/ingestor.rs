//! Ingestion: a batch of spans is written to the store span by span,
//! and every span that looks like the root of a finished trace makes
//! its trace a candidate for derivation.

use vstd::prelude::*;
use crate::db::invariants::well_formed;
use crate::db::laws::lemma_ingested_well_formed;
use crate::db::schema::{DbExecutor, IngestEventDb, IngestEventDbView, Store};
use crate::db::update::span::{fresh_ids, upserted_span, uuid_ids, UpsertIds};
use crate::engine::{is_uuid_v4, new_uuid, now_micros, IngestId};
use crate::engine::test_result::clone_strings;
use crate::opentracing::span::{Span, SpanView};
use crate::seqs::{first_where, lemma_first_where_at, lemma_first_where_none};
use crate::text::{lemma_views_push, lemma_views_update, views};

verus! {

/// How long a trace is left alone after its root span was seen, so that
/// late spans can arrive before its test result is derived, in
/// milliseconds.
pub const TRACE_DONE_DELAY_MS: u64 = 2000;

/// A batch of events as it was accepted. Times are in microseconds.
#[derive(Debug)]
pub struct IngestEvents<T> {
    pub ingest_id: IngestId,
    pub events: Vec<T>,
    pub created_at: i64,
    pub processed_at: Option<i64>,
}

impl<T> IngestEvents<T> {
    /// A batch accepted at the time `now` under the identifier.
    pub fn new_at(events: Vec<T>, ingest_id: IngestId, now: i64) -> (batch: IngestEvents<T>)
        ensures
            batch.ingest_id == ingest_id,
            batch.events == events,
            batch.created_at == now,
            batch.processed_at is None,
    {
        IngestEvents { ingest_id, events, created_at: now, processed_at: None }
    }

    /// A batch accepted now, under a fresh identifier.
    pub fn new(events: Vec<T>) -> (batch: IngestEvents<T>)
        ensures
            batch.events == events,
            batch.processed_at is None,
            is_uuid_v4(batch.ingest_id@),
    {
        IngestEvents::new_at(events, IngestId::new(), now_micros())
    }
}

/// The identifiers that writing one span may use up.
#[derive(Debug)]
pub struct SpanIds {
    pub local: String,
    pub remote: String,
    pub annotations: Vec<String>,
}

impl View for SpanIds {
    type V = UpsertIds;

    open spec fn view(&self) -> UpsertIds {
        UpsertIds { local: self.local@, remote: self.remote@, annotations: views(self.annotations@) }
    }
}

impl SpanIds {
    /// Fresh identifiers for a span.
    pub fn fresh_for(span: &Span) -> (ids: SpanIds)
        ensures
            ids.annotations.len() == span.annotations.len(),
            uuid_ids(ids@),
    {
        SpanIds {
            local: new_uuid(),
            remote: new_uuid(),
            annotations: fresh_ids(span.annotations.len()),
        }
    }
}

/// Whether there are identifiers for every span of a batch and for
/// every annotation of each.
pub open spec fn ids_fit(batch: Seq<SpanView>, ids: Seq<UpsertIds>) -> bool {
    &&& ids.len() == batch.len()
    &&& forall|k: int|
        0 <= k < batch.len() ==> (#[trigger] ids[k]).annotations.len() == batch[k].annotations.len()
}

/// Whether all the identifiers for a batch have the shape of a version 4 UUID.
pub open spec fn all_uuid_ids(ids: Seq<UpsertIds>) -> bool {
    forall|k: int| 0 <= k < ids.len() ==> uuid_ids(#[trigger] ids[k])
}

/// The store after the spans of a batch were written in order.
pub open spec fn ingested(s: Store, batch: Seq<SpanView>, ids: Seq<UpsertIds>) -> Store
    decreases batch.len(),
{
    if batch.len() == 0 {
        s
    } else {
        upserted_span(ingested(s, batch.drop_last(), ids.drop_last()), batch.last(), ids.last())
    }
}

/// A span that has a duration and no parent: the root of a trace that
/// is finished as far as the root can tell.
pub open spec fn is_finished_root(span: SpanView) -> bool {
    span.duration is Some && span.parent_id is None
}

/// The traces that a batch makes candidates for derivation: one entry
/// for every finished root span, in the order of the batch.
pub open spec fn traces_done(batch: Seq<SpanView>) -> Seq<Seq<char>>
    decreases batch.len(),
{
    if batch.len() == 0 {
        Seq::empty()
    } else if is_finished_root(batch.last()) {
        traces_done(batch.drop_last()).push(batch.last().trace_id)
    } else {
        traces_done(batch.drop_last())
    }
}

/// The row with the identifier.
pub open spec fn ingest_index(ingests: Seq<IngestEventDbView>, id: Seq<char>) -> Option<int> {
    first_where(ingests, |row: IngestEventDbView| row.id == id)
}

/// The ingest table after an envelope was recorded: a new envelope is
/// added; one that is known takes over the time of processing.
pub open spec fn with_ingest(ingests: Seq<IngestEventDbView>, row: IngestEventDbView) -> Seq<
    IngestEventDbView,
> {
    match ingest_index(ingests, row.id) {
        Some(i) => ingests.update(
            i,
            IngestEventDbView { processed_at: row.processed_at, ..ingests[i] },
        ),
        None => ingests.push(row),
    }
}

/// The store after a batch went through: its envelope is recorded, its
/// spans are written, and the envelope is marked as processed.
pub open spec fn batch_ingested(
    s: Store,
    id: Seq<char>,
    created_at: i64,
    batch: Seq<SpanView>,
    ids: Seq<UpsertIds>,
    processed_at: i64,
) -> Store {
    let accepted = Store {
        ingests: with_ingest(
            s.ingests,
            IngestEventDbView { id, created_at, processed_at: None },
        ),
        ..s
    };
    let written = ingested(accepted, batch, ids);
    Store {
        ingests: with_ingest(
            written.ingests,
            IngestEventDbView { id, created_at, processed_at: Some(processed_at) },
        ),
        ..written
    }
}

impl DbExecutor {
    /// Records the envelope of a batch: a new one is added, a known one
    /// takes over the time of processing.
    pub fn save_ingest(&mut self, event: IngestEventDb)
        ensures
            final(self)@ == (Store { ingests: with_ingest(old(self)@.ingests, event@), ..old(self)@ }),
    {
        let mut i: usize = 0;
        while i < self.ingests.len()
            invariant
                i <= self.ingests.len(),
                *self == *old(self),
                forall|k: int| 0 <= k < i ==> views(self.ingests@)[k].id != event@.id,
            decreases self.ingests.len() - i,
        {
            if self.ingests[i].id == event.id {
                proof {
                    lemma_first_where_at(
                        views(self.ingests@),
                        |row: IngestEventDbView| row.id == event@.id,
                        i as int,
                    );
                }
                let updated = IngestEventDb {
                    id: self.ingests[i].id.clone(),
                    created_at: self.ingests[i].created_at,
                    processed_at: event.processed_at,
                };
                proof {
                    lemma_views_update(self.ingests@, i as int, updated);
                }
                self.ingests.set(i, updated);
                return ;
            }
            i += 1;
        }
        proof {
            lemma_first_where_none(
                views(self.ingests@),
                |row: IngestEventDbView| row.id == event@.id,
            );
            lemma_views_push(self.ingests@, event);
        }
        self.ingests.push(event);
    }
}

/// The actor that takes batches of spans in.
#[derive(Debug, Clone, Copy, PartialEq, Eq, Structural)]
pub struct Ingestor;

impl Ingestor {
    /// Whether a span is the root of a finished trace.
    pub fn is_root_of_finished_trace(span: &Span) -> (r: bool)
        ensures
            r == is_finished_root(span@),
    {
        span.duration.is_some() && span.parent_id.is_none()
    }

    /// Writes the spans of a batch to the store, in order, with the
    /// identifiers given for each span, and says which traces to look
    /// at for a test result.
    pub fn ingest_spans_with_ids(db: &mut DbExecutor, spans: &Vec<Span>, ids: &Vec<SpanIds>) -> (done:
        Vec<String>)
        requires
            ids_fit(views(spans@), views(ids@)),
        ensures
            final(db)@ == ingested(old(db)@, views(spans@), views(ids@)),
            views(done@) == traces_done(views(spans@)),
            well_formed(old(db)@) ==> well_formed(final(db)@),
    {
        proof {
            if well_formed(old(db)@) {
                lemma_ingested_well_formed(old(db)@, views(spans@), views(ids@));
            }
        }
        let ghost batch = views(spans@);
        let ghost all_ids = views(ids@);
        let mut done: Vec<String> = Vec::new();
        let mut i: usize = 0;
        proof {
            assert(batch.take(0) =~= Seq::<SpanView>::empty());
            assert(all_ids.take(0) =~= Seq::<UpsertIds>::empty());
            assert(views(done@) =~= Seq::<Seq<char>>::empty());
        }
        while i < spans.len()
            invariant
                i <= spans.len(),
                batch == views(spans@),
                all_ids == views(ids@),
                ids_fit(batch, all_ids),
                db@ == ingested(old(db)@, batch.take(i as int), all_ids.take(i as int)),
                views(done@) == traces_done(batch.take(i as int)),
            decreases spans.len() - i,
        {
            proof {
                assert(batch.take(i + 1).drop_last() =~= batch.take(i as int));
                assert(all_ids.take(i + 1).drop_last() =~= all_ids.take(i as int));
                assert(batch.take(i + 1).last() == spans[i as int]@);
                assert(all_ids.take(i + 1).last() == ids[i as int]@);
                assert(all_ids[i as int].annotations.len() == batch[i as int].annotations.len());
            }
            let stored = db.upsert_span_with_ids(
                spans[i].clone(),
                ids[i].local.clone(),
                ids[i].remote.clone(),
                clone_strings(&ids[i].annotations),
            );
            if Ingestor::is_root_of_finished_trace(&stored) {
                let trace_id = stored.trace_id.clone();
                proof {
                    lemma_views_push(done@, trace_id);
                }
                done.push(trace_id);
            }
            i += 1;
        }
        proof {
            assert(batch.take(spans.len() as int) =~= batch);
            assert(all_ids.take(spans.len() as int) =~= all_ids);
        }
        done
    }

    /// Writes the spans of a batch to the store, in order, and says
    /// which traces to look at for a test result. The rows that are
    /// added get fresh identifiers.
    pub fn ingest_spans(db: &mut DbExecutor, spans: Vec<Span>) -> (done: Vec<String>)
        ensures
            exists|ids: Seq<UpsertIds>|
                ids_fit(views(spans@), ids) && all_uuid_ids(ids) && final(db)@ == ingested(
                    old(db)@,
                    views(spans@),
                    ids,
                ),
            views(done@) == traces_done(views(spans@)),
            well_formed(old(db)@) ==> well_formed(final(db)@),
    {
        let mut ids: Vec<SpanIds> = Vec::new();
        let mut i: usize = 0;
        while i < spans.len()
            invariant
                i <= spans.len(),
                ids.len() == i,
                forall|k: int|
                    0 <= k < i ==> (#[trigger] views(ids@)[k]).annotations.len() == views(
                        spans@,
                    )[k].annotations.len(),
                forall|k: int| 0 <= k < i ==> uuid_ids(#[trigger] views(ids@)[k]),
            decreases spans.len() - i,
        {
            let span_ids = SpanIds::fresh_for(&spans[i]);
            proof {
                lemma_views_push(ids@, span_ids);
                assert(views(spans@)[i as int] == spans[i as int]@);
            }
            ids.push(span_ids);
            i += 1;
        }
        let ghost shown = views(ids@);
        let done = Ingestor::ingest_spans_with_ids(db, &spans, &ids);
        assert(ids_fit(views(spans@), shown) && all_uuid_ids(shown) && db@ == ingested(
            old(db)@,
            views(spans@),
            shown,
        ));
        done
    }

    /// Takes a batch in: records its envelope, writes its spans, marks
    /// the envelope as processed at the time `processed_at`, and says
    /// which traces to look at for a test result after the delay.
    pub fn ingest_with_ids(db: &mut DbExecutor, msg: IngestEvents<Span>, ids: Vec<SpanIds>, processed_at: i64) -> (done:
        Vec<String>)
        requires
            ids_fit(views(msg.events@), views(ids@)),
        ensures
            final(db)@ == batch_ingested(
                old(db)@,
                msg.ingest_id@,
                msg.created_at,
                views(msg.events@),
                views(ids@),
                processed_at,
            ),
            views(done@) == traces_done(views(msg.events@)),
            well_formed(old(db)@) ==> well_formed(final(db)@),
    {
        db.save_ingest(
            IngestEventDb {
                id: msg.ingest_id.0.clone(),
                created_at: msg.created_at,
                processed_at: None,
            },
        );
        let done = Ingestor::ingest_spans_with_ids(db, &msg.events, &ids);
        db.save_ingest(
            IngestEventDb {
                id: msg.ingest_id.0.clone(),
                created_at: msg.created_at,
                processed_at: Some(processed_at),
            },
        );
        done
    }
}

} // verus!
