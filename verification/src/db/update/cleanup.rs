//! The retention sweep. In this order: shells of test results that are
//! past their delay are removed, test results with data that are past
//! the span delay lose their spans and become shells, and reports that
//! were not updated within their delay are removed.

use vstd::prelude::*;
use crate::config::CleanUpConfig;
use crate::db::invariants::well_formed;
use crate::db::laws::lemma_cleaned_up_well_formed;
use crate::db::schema::{
    AnnotationDb, AnnotationDbView, DbExecutor, ReportDb, ReportDbView, SpanDb, SpanDbView, Store,
    TagDb, TagDbView, TestResultDb, TestResultDbView, TestResultInReportDbView,
};
use crate::db::update::test::{SHELL, WITH_DATA};
use crate::engine::now_micros;
use crate::seqs::keep_where;
use crate::text::{lemma_views_update, views};

verus! {

/// The time `delay_ms` milliseconds before `now`, in microseconds; the
/// earliest time there is, should that lie before it.
pub open spec fn horizon(now: i64, delay_ms: u32) -> i64 {
    if now - delay_ms * 1000 < i64::MIN {
        i64::MIN
    } else {
        (now - delay_ms * 1000) as i64
    }
}

/// The time `delay_ms` milliseconds before `now`, in microseconds.
pub fn horizon_of(now: i64, delay_ms: u32) -> (limit: i64)
    ensures
        limit == horizon(now, delay_ms),
{
    let delay: i64 = delay_ms as i64 * 1000;
    if now < i64::MIN + delay {
        i64::MIN
    } else {
        now - delay
    }
}

/// A shell that is older than the limit.
pub open spec fn is_expired_shell(row: TestResultDbView, limit: i64) -> bool {
    row.date < limit && row.cleanup_status == SHELL
}

/// Whether `(trace_id, test_id)` is the key of an expired shell.
pub open spec fn has_expired_shell(
    results: Seq<TestResultDbView>,
    limit: i64,
    trace_id: Seq<char>,
    test_id: Seq<char>,
) -> bool {
    exists|k: int|
        0 <= k < results.len() && is_expired_shell(#[trigger] results[k], limit)
            && results[k].trace_id == trace_id && results[k].test_id == test_id
}

/// The results that the removal of shells leaves.
pub open spec fn keeps_result(limit: i64) -> spec_fn(TestResultDbView) -> bool {
    |row: TestResultDbView| !is_expired_shell(row, limit)
}

/// The placements that the removal of shells leaves.
pub open spec fn keeps_placement_of_result(results: Seq<TestResultDbView>, limit: i64) -> spec_fn(
    TestResultInReportDbView,
) -> bool {
    |row: TestResultInReportDbView| !has_expired_shell(results, limit, row.trace_id, row.test_id)
}

/// The store without the shells that are older than the limit, and
/// without their placements.
pub open spec fn purged(s: Store, limit: i64) -> Store {
    Store {
        placements: s.placements.filter(keeps_placement_of_result(s.test_results, limit)),
        test_results: s.test_results.filter(keeps_result(limit)),
        ..s
    }
}

/// A test result with data that is older than the limit.
pub open spec fn is_due(row: TestResultDbView, limit: i64) -> bool {
    row.date < limit && row.cleanup_status == WITH_DATA
}

/// Whether the trace belongs to a test result that is due.
pub open spec fn trace_is_due(results: Seq<TestResultDbView>, limit: i64, trace_id: Seq<char>) -> bool {
    exists|k: int|
        0 <= k < results.len() && is_due(#[trigger] results[k], limit) && results[k].trace_id
            == trace_id
}

/// Whether an annotation belongs to a span of a trace that is due.
pub open spec fn annotation_is_due(
    spans: Seq<SpanDbView>,
    results: Seq<TestResultDbView>,
    limit: i64,
    row: AnnotationDbView,
) -> bool {
    exists|k: int|
        0 <= k < spans.len() && trace_is_due(results, limit, (#[trigger] spans[k]).trace_id)
            && spans[k].trace_id == row.trace_id && spans[k].id == row.span_id
}

/// Whether a tag belongs to a span of a trace that is due. Tags know
/// their span by its identifier alone.
pub open spec fn tag_is_due(
    spans: Seq<SpanDbView>,
    results: Seq<TestResultDbView>,
    limit: i64,
    row: TagDbView,
) -> bool {
    exists|k: int|
        0 <= k < spans.len() && trace_is_due(results, limit, (#[trigger] spans[k]).trace_id)
            && spans[k].id == row.span_id
}

/// The spans that the span sweep leaves.
pub open spec fn keeps_span(results: Seq<TestResultDbView>, limit: i64) -> spec_fn(
    SpanDbView,
) -> bool {
    |row: SpanDbView| !trace_is_due(results, limit, row.trace_id)
}

/// The annotations that the span sweep leaves.
pub open spec fn keeps_annotation(
    spans: Seq<SpanDbView>,
    results: Seq<TestResultDbView>,
    limit: i64,
) -> spec_fn(AnnotationDbView) -> bool {
    |row: AnnotationDbView| !annotation_is_due(spans, results, limit, row)
}

/// The tags that the span sweep leaves.
pub open spec fn keeps_tag(spans: Seq<SpanDbView>, results: Seq<TestResultDbView>, limit: i64) -> spec_fn(
    TagDbView,
) -> bool {
    |row: TagDbView| !tag_is_due(spans, results, limit, row)
}

/// A test result after the span sweep: a result that is due is a shell.
pub open spec fn emptied(row: TestResultDbView, limit: i64) -> TestResultDbView {
    if is_due(row, limit) {
        TestResultDbView { cleanup_status: SHELL, ..row }
    } else {
        row
    }
}

/// The store after the test results with data that are older than the
/// limit became shells: the spans of their traces are gone, with the
/// annotations and tags of those spans.
pub open spec fn emptied_store(s: Store, limit: i64) -> Store {
    Store {
        test_results: Seq::new(s.test_results.len(), |k: int| emptied(s.test_results[k], limit)),
        spans: s.spans.filter(keeps_span(s.test_results, limit)),
        annotations: s.annotations.filter(keeps_annotation(s.spans, s.test_results, limit)),
        tags: s.tags.filter(keeps_tag(s.spans, s.test_results, limit)),
        ..s
    }
}

/// Whether `report_id` names a report whose last update is older than the limit.
pub open spec fn has_expired_report(reports: Seq<ReportDbView>, limit: i64, report_id: Seq<char>) -> bool {
    exists|k: int|
        0 <= k < reports.len() && (#[trigger] reports[k]).last_update < limit && reports[k].id
            == report_id
}

/// The reports that the removal of old reports leaves.
pub open spec fn keeps_report(limit: i64) -> spec_fn(ReportDbView) -> bool {
    |row: ReportDbView| !(row.last_update < limit)
}

/// The placements that the removal of old reports leaves.
pub open spec fn keeps_placement_of_report(reports: Seq<ReportDbView>, limit: i64) -> spec_fn(
    TestResultInReportDbView,
) -> bool {
    |row: TestResultInReportDbView| !has_expired_report(reports, limit, row.report_id)
}

/// The store without the reports whose last update is older than the
/// limit, and without their placements.
pub open spec fn without_old_reports(s: Store, limit: i64) -> Store {
    Store {
        placements: s.placements.filter(keeps_placement_of_report(s.reports, limit)),
        reports: s.reports.filter(keeps_report(limit)),
        ..s
    }
}

/// The store after one retention sweep at the time `now`.
pub open spec fn cleaned_up(s: Store, config: CleanUpConfig, now: i64) -> Store {
    without_old_reports(
        emptied_store(
            purged(s, horizon(now, config.delay_test_results)),
            horizon(now, config.delay_spans),
        ),
        horizon(now, config.delay_reports),
    )
}

/// The test results that the span sweep empties.
pub open spec fn due_at(limit: i64) -> spec_fn(TestResultDbView) -> bool {
    |row: TestResultDbView| is_due(row, limit)
}

/// What a sweep at the time `now` reports of a store: how many shells
/// it removed, how many test results it emptied, how many reports it
/// removed.
pub open spec fn summary_of(s: Store, config: CleanUpConfig, now: i64) -> CleanUpSummary {
    let after_purge = purged(s, horizon(now, config.delay_test_results));
    let after_sweep = emptied_store(after_purge, horizon(now, config.delay_spans));
    let after_all = without_old_reports(after_sweep, horizon(now, config.delay_reports));
    CleanUpSummary {
        deleted: (s.test_results.len() - after_purge.test_results.len()) as usize,
        cleaned: after_purge.test_results.filter(
            due_at(horizon(now, config.delay_spans)),
        ).len() as usize,
        reports_cleaned: (after_sweep.reports.len() - after_all.reports.len()) as usize,
    }
}

/// How many rows a sweep touched.
#[derive(Debug, Clone, Copy, PartialEq, Eq, Structural)]
pub struct CleanUpSummary {
    pub deleted: usize,
    pub cleaned: usize,
    pub reports_cleaned: usize,
}

fn expired_shell_with(results: &Vec<TestResultDb>, limit: i64, trace_id: &String, test_id: &String) -> (r:
    bool)
    ensures
        r == has_expired_shell(views(results@), limit, trace_id@, test_id@),
{
    let mut i: usize = 0;
    while i < results.len()
        invariant
            i <= results.len(),
            forall|k: int|
                0 <= k < i ==> !(is_expired_shell(#[trigger] views(results@)[k], limit) && views(
                    results@,
                )[k].trace_id == trace_id@ && views(results@)[k].test_id == test_id@),
        decreases results.len() - i,
    {
        if results[i].date < limit && results[i].cleanup_status == SHELL && results[i].trace_id
            == *trace_id && results[i].test_id == *test_id {
            assert(is_expired_shell(views(results@)[i as int], limit));
            return true;
        }
        i += 1;
    }
    false
}

fn due_trace(results: &Vec<TestResultDb>, limit: i64, trace_id: &String) -> (r: bool)
    ensures
        r == trace_is_due(views(results@), limit, trace_id@),
{
    let mut i: usize = 0;
    while i < results.len()
        invariant
            i <= results.len(),
            forall|k: int|
                0 <= k < i ==> !(is_due(#[trigger] views(results@)[k], limit) && views(
                    results@,
                )[k].trace_id == trace_id@),
        decreases results.len() - i,
    {
        if results[i].date < limit && results[i].cleanup_status == WITH_DATA
            && results[i].trace_id == *trace_id {
            assert(is_due(views(results@)[i as int], limit));
            return true;
        }
        i += 1;
    }
    false
}

fn due_annotation(spans: &Vec<SpanDb>, due: &Vec<bool>, row: &AnnotationDb, Ghost(results): Ghost<
    Seq<TestResultDbView>,
>, Ghost(limit): Ghost<i64>) -> (r: bool)
    requires
        due.len() == spans.len(),
        forall|k: int|
            0 <= k < spans.len() ==> due[k] == trace_is_due(
                results,
                limit,
                (#[trigger] views(spans@)[k]).trace_id,
            ),
    ensures
        r == annotation_is_due(views(spans@), results, limit, row@),
{
    let mut i: usize = 0;
    while i < spans.len()
        invariant
            i <= spans.len(),
            due.len() == spans.len(),
            forall|k: int|
                0 <= k < spans.len() ==> due[k] == trace_is_due(
                    results,
                    limit,
                    (#[trigger] views(spans@)[k]).trace_id,
                ),
            forall|k: int|
                0 <= k < i ==> !(trace_is_due(results, limit, (#[trigger] views(spans@)[k]).trace_id)
                    && views(spans@)[k].trace_id == row@.trace_id && views(spans@)[k].id
                    == row@.span_id),
        decreases spans.len() - i,
    {
        if due[i] && spans[i].trace_id == row.trace_id && spans[i].id == row.span_id {
            assert(trace_is_due(results, limit, views(spans@)[i as int].trace_id));
            return true;
        }
        i += 1;
    }
    false
}

fn due_tag(spans: &Vec<SpanDb>, due: &Vec<bool>, row: &TagDb, Ghost(results): Ghost<
    Seq<TestResultDbView>,
>, Ghost(limit): Ghost<i64>) -> (r: bool)
    requires
        due.len() == spans.len(),
        forall|k: int|
            0 <= k < spans.len() ==> due[k] == trace_is_due(
                results,
                limit,
                (#[trigger] views(spans@)[k]).trace_id,
            ),
    ensures
        r == tag_is_due(views(spans@), results, limit, row@),
{
    let mut i: usize = 0;
    while i < spans.len()
        invariant
            i <= spans.len(),
            due.len() == spans.len(),
            forall|k: int|
                0 <= k < spans.len() ==> due[k] == trace_is_due(
                    results,
                    limit,
                    (#[trigger] views(spans@)[k]).trace_id,
                ),
            forall|k: int|
                0 <= k < i ==> !(trace_is_due(results, limit, (#[trigger] views(spans@)[k]).trace_id)
                    && views(spans@)[k].id == row@.span_id),
        decreases spans.len() - i,
    {
        if due[i] && spans[i].id == row.span_id {
            assert(trace_is_due(results, limit, views(spans@)[i as int].trace_id));
            return true;
        }
        i += 1;
    }
    false
}

fn expired_report_with(reports: &Vec<ReportDb>, limit: i64, report_id: &String) -> (r: bool)
    ensures
        r == has_expired_report(views(reports@), limit, report_id@),
{
    let mut i: usize = 0;
    while i < reports.len()
        invariant
            i <= reports.len(),
            forall|k: int|
                0 <= k < i ==> !((#[trigger] views(reports@)[k]).last_update < limit && views(
                    reports@,
                )[k].id == report_id@),
        decreases reports.len() - i,
    {
        if reports[i].last_update < limit && reports[i].id == *report_id {
            assert(views(reports@)[i as int].last_update < limit);
            return true;
        }
        i += 1;
    }
    false
}

impl DbExecutor {
    /// Removes the shells that are older than the limit, their
    /// placements first, and says how many shells went.
    pub fn purge_shells(&mut self, limit: i64) -> (deleted: usize)
        ensures
            final(self)@ == purged(old(self)@, limit),
            deleted == old(self)@.test_results.len() - final(self)@.test_results.len(),
    {
        let mut keep_placements: Vec<bool> = Vec::new();
        let mut i: usize = 0;
        while i < self.placements.len()
            invariant
                i <= self.placements.len(),
                keep_placements.len() == i,
                *self == *old(self),
                forall|k: int|
                    0 <= k < i ==> keep_placements[k] == keeps_placement_of_result(
                        self@.test_results,
                        limit,
                    )(#[trigger] self.placements[k]@),
            decreases self.placements.len() - i,
        {
            let gone = expired_shell_with(
                &self.test_results,
                limit,
                &self.placements[i].trace_id,
                &self.placements[i].test_id,
            );
            keep_placements.push(!gone);
            i += 1;
        }
        let mut keep_results: Vec<bool> = Vec::new();
        let mut j: usize = 0;
        while j < self.test_results.len()
            invariant
                j <= self.test_results.len(),
                keep_results.len() == j,
                *self == *old(self),
                forall|k: int|
                    0 <= k < j ==> keep_results[k] == keeps_result(limit)(
                        #[trigger] self.test_results[k]@,
                    ),
            decreases self.test_results.len() - j,
        {
            keep_results.push(
                !(self.test_results[j].date < limit && self.test_results[j].cleanup_status
                    == SHELL),
            );
            j += 1;
        }
        let placements = keep_where(
            &self.placements,
            &keep_placements,
            Ghost(keeps_placement_of_result(self@.test_results, limit)),
        );
        let results = keep_where(&self.test_results, &keep_results, Ghost(keeps_result(limit)));
        proof {
            self@.test_results.lemma_filter_len(keeps_result(limit));
        }
        let deleted: usize = self.test_results.len() - results.len();
        self.placements = placements;
        self.test_results = results;
        deleted
    }

    /// Turns the test results with data that are older than the limit
    /// into shells and removes the spans of their traces, with the spans'
    /// annotations and tags. Says how many test results were emptied.
    pub fn empty_old_results(&mut self, limit: i64) -> (cleaned: usize)
        ensures
            final(self)@ == emptied_store(old(self)@, limit),
            cleaned == old(self)@.test_results.filter(due_at(limit)).len(),
    {
        let ghost results = self@.test_results;
        let ghost spans = self@.spans;
        let mut due: Vec<bool> = Vec::new();
        let mut keep_spans: Vec<bool> = Vec::new();
        let mut i: usize = 0;
        while i < self.spans.len()
            invariant
                i <= self.spans.len(),
                due.len() == i,
                keep_spans.len() == i,
                *self == *old(self),
                results == self@.test_results,
                forall|k: int|
                    0 <= k < i ==> due[k] == trace_is_due(
                        results,
                        limit,
                        (#[trigger] views(self.spans@)[k]).trace_id,
                    ),
                forall|k: int|
                    0 <= k < i ==> keep_spans[k] == keeps_span(results, limit)(
                        #[trigger] self.spans[k]@,
                    ),
            decreases self.spans.len() - i,
        {
            let d = due_trace(&self.test_results, limit, &self.spans[i].trace_id);
            assert(views(self.spans@)[i as int] == self.spans[i as int]@);
            due.push(d);
            keep_spans.push(!d);
            i += 1;
        }
        let mut keep_annotations: Vec<bool> = Vec::new();
        let mut a: usize = 0;
        while a < self.annotations.len()
            invariant
                a <= self.annotations.len(),
                keep_annotations.len() == a,
                due.len() == self.spans.len(),
                *self == *old(self),
                results == self@.test_results,
                spans == self@.spans,
                forall|k: int|
                    0 <= k < self.spans.len() ==> due[k] == trace_is_due(
                        results,
                        limit,
                        (#[trigger] views(self.spans@)[k]).trace_id,
                    ),
                forall|k: int|
                    0 <= k < a ==> keep_annotations[k] == keeps_annotation(spans, results, limit)(
                        #[trigger] self.annotations[k]@,
                    ),
            decreases self.annotations.len() - a,
        {
            let gone = due_annotation(
                &self.spans,
                &due,
                &self.annotations[a],
                Ghost(results),
                Ghost(limit),
            );
            keep_annotations.push(!gone);
            a += 1;
        }
        let mut keep_tags: Vec<bool> = Vec::new();
        let mut t: usize = 0;
        while t < self.tags.len()
            invariant
                t <= self.tags.len(),
                keep_tags.len() == t,
                due.len() == self.spans.len(),
                *self == *old(self),
                results == self@.test_results,
                spans == self@.spans,
                forall|k: int|
                    0 <= k < self.spans.len() ==> due[k] == trace_is_due(
                        results,
                        limit,
                        (#[trigger] views(self.spans@)[k]).trace_id,
                    ),
                forall|k: int|
                    0 <= k < t ==> keep_tags[k] == keeps_tag(spans, results, limit)(
                        #[trigger] self.tags[k]@,
                    ),
            decreases self.tags.len() - t,
        {
            let gone = due_tag(&self.spans, &due, &self.tags[t], Ghost(results), Ghost(limit));
            keep_tags.push(!gone);
            t += 1;
        }
        let kept_spans = keep_where(&self.spans, &keep_spans, Ghost(keeps_span(results, limit)));
        let kept_annotations = keep_where(
            &self.annotations,
            &keep_annotations,
            Ghost(keeps_annotation(spans, results, limit)),
        );
        let kept_tags = keep_where(&self.tags, &keep_tags, Ghost(keeps_tag(spans, results, limit)));
        self.spans = kept_spans;
        self.annotations = kept_annotations;
        self.tags = kept_tags;
        let ghost swept = self@;
        let mut cleaned: usize = 0;
        let mut r: usize = 0;
        proof {
            assert(results.take(0) =~= Seq::<TestResultDbView>::empty());
            crate::seqs::lemma_filter_empty(due_at(limit));
        }
        while r < self.test_results.len()
            invariant
                r <= self.test_results.len(),
                cleaned <= r,
                cleaned == results.take(r as int).filter(due_at(limit)).len(),
                self@ == (Store { test_results: self@.test_results, ..swept }),
                self.test_results.len() == results.len(),
                forall|k: int|
                    0 <= k < r ==> views(self.test_results@)[k] == emptied(results[k], limit),
                forall|k: int|
                    r <= k < self.test_results.len() ==> views(self.test_results@)[k] == results[k],
            decreases self.test_results.len() - r,
        {
            proof {
                crate::seqs::lemma_filter_step(results, due_at(limit), r as int);
                assert(views(self.test_results@)[r as int] == self.test_results[r as int]@);
            }
            if self.test_results[r].date < limit && self.test_results[r].cleanup_status
                == WITH_DATA {
                let mut updated = self.test_results[r].clone();
                updated.cleanup_status = SHELL;
                proof {
                    lemma_views_update(self.test_results@, r as int, updated);
                }
                self.test_results.set(r, updated);
                cleaned += 1;
            }
            r += 1;
        }
        assert(self@.test_results =~= emptied_store(old(self)@, limit).test_results);
        assert(results.take(r as int) =~= results);
        cleaned
    }

    /// Removes the reports whose last update is older than the limit,
    /// their placements first, and says how many reports went.
    pub fn remove_old_reports(&mut self, limit: i64) -> (removed: usize)
        ensures
            final(self)@ == without_old_reports(old(self)@, limit),
            removed == old(self)@.reports.len() - final(self)@.reports.len(),
    {
        let mut keep_placements: Vec<bool> = Vec::new();
        let mut i: usize = 0;
        while i < self.placements.len()
            invariant
                i <= self.placements.len(),
                keep_placements.len() == i,
                *self == *old(self),
                forall|k: int|
                    0 <= k < i ==> keep_placements[k] == keeps_placement_of_report(
                        self@.reports,
                        limit,
                    )(#[trigger] self.placements[k]@),
            decreases self.placements.len() - i,
        {
            let gone = expired_report_with(&self.reports, limit, &self.placements[i].report_id);
            keep_placements.push(!gone);
            i += 1;
        }
        let mut keep_reports: Vec<bool> = Vec::new();
        let mut j: usize = 0;
        while j < self.reports.len()
            invariant
                j <= self.reports.len(),
                keep_reports.len() == j,
                *self == *old(self),
                forall|k: int|
                    0 <= k < j ==> keep_reports[k] == keeps_report(limit)(
                        #[trigger] self.reports[k]@,
                    ),
            decreases self.reports.len() - j,
        {
            keep_reports.push(!(self.reports[j].last_update < limit));
            j += 1;
        }
        let placements = keep_where(
            &self.placements,
            &keep_placements,
            Ghost(keeps_placement_of_report(self@.reports, limit)),
        );
        let reports = keep_where(&self.reports, &keep_reports, Ghost(keeps_report(limit)));
        proof {
            self@.reports.lemma_filter_len(keeps_report(limit));
        }
        let removed: usize = self.reports.len() - reports.len();
        self.placements = placements;
        self.reports = reports;
        removed
    }

    /// One retention sweep at the time `now`.
    pub fn clean_up_at(&mut self, config: &CleanUpConfig, now: i64) -> (summary: CleanUpSummary)
        ensures
            final(self)@ == cleaned_up(old(self)@, *config, now),
            summary == summary_of(old(self)@, *config, now),
            well_formed(old(self)@) ==> well_formed(final(self)@),
    {
        proof {
            if well_formed(old(self)@) {
                lemma_cleaned_up_well_formed(old(self)@, *config, now);
            }
        }
        let deleted = self.purge_shells(horizon_of(now, config.delay_test_results));
        let cleaned = self.empty_old_results(horizon_of(now, config.delay_spans));
        let reports_cleaned = self.remove_old_reports(horizon_of(now, config.delay_reports));
        CleanUpSummary { deleted, cleaned, reports_cleaned }
    }

    /// One retention sweep, at the time of the call.
    pub fn clean_up(&mut self, config: &CleanUpConfig) -> (summary: CleanUpSummary)
        ensures
            exists|now: i64|
                final(self)@ == cleaned_up(old(self)@, *config, now) && summary == summary_of(
                    old(self)@,
                    *config,
                    now,
                ),
            well_formed(old(self)@) ==> well_formed(final(self)@),
    {
        let now = now_micros();
        let summary = self.clean_up_at(config, now);
        assert(self@ == cleaned_up(old(self)@, *config, now) && summary == summary_of(
            old(self)@,
            *config,
            now,
        ));
        summary
    }
}

} // verus!
