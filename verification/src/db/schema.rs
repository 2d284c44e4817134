//! The tables of the store, row by row, and the store that holds them.
//! Timestamps are microseconds since the epoch, kept as they arrive.

use vstd::prelude::*;
use crate::text::{clone_opt_string, opt_view, text_before, text_lt, views};
use crate::engine::test_result::clone_counts;
use crate::seqs::{Ordered, Row};

verus! {

/// A row of the `span` table; its key is `(trace_id, id)`.
#[derive(Debug)]
pub struct SpanDb {
    pub trace_id: String,
    pub id: String,
    pub parent_id: Option<String>,
    pub name: Option<String>,
    pub kind: Option<String>,
    pub duration: Option<i64>,
    pub ts: Option<i64>,
    pub debug: bool,
    pub shared: bool,
    pub local_endpoint_id: Option<String>,
    pub remote_endpoint_id: Option<String>,
}

pub ghost struct SpanDbView {
    pub trace_id: Seq<char>,
    pub id: Seq<char>,
    pub parent_id: Option<Seq<char>>,
    pub name: Option<Seq<char>>,
    pub kind: Option<Seq<char>>,
    pub duration: Option<i64>,
    pub ts: Option<i64>,
    pub debug: bool,
    pub shared: bool,
    pub local_endpoint_id: Option<Seq<char>>,
    pub remote_endpoint_id: Option<Seq<char>>,
}

impl View for SpanDb {
    type V = SpanDbView;

    open spec fn view(&self) -> SpanDbView {
        SpanDbView {
            trace_id: self.trace_id@,
            id: self.id@,
            parent_id: opt_view(self.parent_id),
            name: opt_view(self.name),
            kind: opt_view(self.kind),
            duration: self.duration,
            ts: self.ts,
            debug: self.debug,
            shared: self.shared,
            local_endpoint_id: opt_view(self.local_endpoint_id),
            remote_endpoint_id: opt_view(self.remote_endpoint_id),
        }
    }
}

impl Clone for SpanDb {
    fn clone(&self) -> (r: Self)
        ensures
            r@ == self@,
    {
        SpanDb {
            trace_id: self.trace_id.clone(),
            id: self.id.clone(),
            parent_id: clone_opt_string(&self.parent_id),
            name: clone_opt_string(&self.name),
            kind: clone_opt_string(&self.kind),
            duration: self.duration,
            ts: self.ts,
            debug: self.debug,
            shared: self.shared,
            local_endpoint_id: clone_opt_string(&self.local_endpoint_id),
            remote_endpoint_id: clone_opt_string(&self.remote_endpoint_id),
        }
    }
}

/// A row of the `endpoint` table; its key is `endpoint_id`.
#[derive(Debug)]
pub struct EndpointDb {
    pub endpoint_id: String,
    pub service_name: Option<String>,
    pub ipv4: Option<String>,
    pub ipv6: Option<String>,
    pub port: Option<i32>,
}

pub ghost struct EndpointDbView {
    pub endpoint_id: Seq<char>,
    pub service_name: Option<Seq<char>>,
    pub ipv4: Option<Seq<char>>,
    pub ipv6: Option<Seq<char>>,
    pub port: Option<i32>,
}

impl View for EndpointDb {
    type V = EndpointDbView;

    open spec fn view(&self) -> EndpointDbView {
        EndpointDbView {
            endpoint_id: self.endpoint_id@,
            service_name: opt_view(self.service_name),
            ipv4: opt_view(self.ipv4),
            ipv6: opt_view(self.ipv6),
            port: self.port,
        }
    }
}

impl Clone for EndpointDb {
    fn clone(&self) -> (r: Self)
        ensures
            r@ == self@,
    {
        EndpointDb {
            endpoint_id: self.endpoint_id.clone(),
            service_name: clone_opt_string(&self.service_name),
            ipv4: clone_opt_string(&self.ipv4),
            ipv6: clone_opt_string(&self.ipv6),
            port: self.port,
        }
    }
}

/// A row of the `tag` table; its key is `(span_id, name)`.
#[derive(Debug)]
pub struct TagDb {
    pub span_id: String,
    pub name: String,
    pub value: String,
}

pub ghost struct TagDbView {
    pub span_id: Seq<char>,
    pub name: Seq<char>,
    pub value: Seq<char>,
}

impl View for TagDb {
    type V = TagDbView;

    open spec fn view(&self) -> TagDbView {
        TagDbView { span_id: self.span_id@, name: self.name@, value: self.value@ }
    }
}

impl Clone for TagDb {
    fn clone(&self) -> (r: Self)
        ensures
            r@ == self@,
    {
        TagDb {
            span_id: self.span_id.clone(),
            name: self.name.clone(),
            value: self.value.clone(),
        }
    }
}

/// A row of the `annotation` table; its key is `annotation_id`.
#[derive(Debug)]
pub struct AnnotationDb {
    pub annotation_id: String,
    pub trace_id: String,
    pub span_id: String,
    pub ts: i64,
    pub value: String,
}

pub ghost struct AnnotationDbView {
    pub annotation_id: Seq<char>,
    pub trace_id: Seq<char>,
    pub span_id: Seq<char>,
    pub ts: i64,
    pub value: Seq<char>,
}

impl View for AnnotationDb {
    type V = AnnotationDbView;

    open spec fn view(&self) -> AnnotationDbView {
        AnnotationDbView {
            annotation_id: self.annotation_id@,
            trace_id: self.trace_id@,
            span_id: self.span_id@,
            ts: self.ts,
            value: self.value@,
        }
    }
}

impl Clone for AnnotationDb {
    fn clone(&self) -> (r: Self)
        ensures
            r@ == self@,
    {
        AnnotationDb {
            annotation_id: self.annotation_id.clone(),
            trace_id: self.trace_id.clone(),
            span_id: self.span_id.clone(),
            ts: self.ts,
            value: self.value.clone(),
        }
    }
}

/// A row of the `test_item` table: a node of the test tree. The top
/// level items have the parent `root`.
#[derive(Debug)]
pub struct TestItemDb {
    pub id: String,
    pub parent_id: String,
    pub name: String,
    pub source: i32,
}

pub ghost struct TestItemDbView {
    pub id: Seq<char>,
    pub parent_id: Seq<char>,
    pub name: Seq<char>,
    pub source: i32,
}

impl View for TestItemDb {
    type V = TestItemDbView;

    open spec fn view(&self) -> TestItemDbView {
        TestItemDbView {
            id: self.id@,
            parent_id: self.parent_id@,
            name: self.name@,
            source: self.source,
        }
    }
}

impl Clone for TestItemDb {
    fn clone(&self) -> (r: Self)
        ensures
            r@ == self@,
    {
        TestItemDb {
            id: self.id.clone(),
            parent_id: self.parent_id.clone(),
            name: self.name.clone(),
            source: self.source,
        }
    }
}

/// A row of the `test_result` table; its key is `(test_id, trace_id)`.
#[derive(Debug)]
pub struct TestResultDb {
    pub test_id: String,
    pub trace_id: String,
    pub date: i64,
    pub status: i32,
    pub duration: i64,
    pub environment: Option<String>,
    pub components_called: Vec<(String, i32)>,
    pub nb_spans: i32,
    pub cleanup_status: i32,
}

pub ghost struct TestResultDbView {
    pub test_id: Seq<char>,
    pub trace_id: Seq<char>,
    pub date: i64,
    pub status: i32,
    pub duration: i64,
    pub environment: Option<Seq<char>>,
    pub components_called: Seq<(Seq<char>, i32)>,
    pub nb_spans: i32,
    pub cleanup_status: i32,
}

impl View for TestResultDb {
    type V = TestResultDbView;

    open spec fn view(&self) -> TestResultDbView {
        TestResultDbView {
            test_id: self.test_id@,
            trace_id: self.trace_id@,
            date: self.date,
            status: self.status,
            duration: self.duration,
            environment: opt_view(self.environment),
            components_called: self.components_called.deep_view(),
            nb_spans: self.nb_spans,
            cleanup_status: self.cleanup_status,
        }
    }
}

impl Clone for TestResultDb {
    fn clone(&self) -> (r: Self)
        ensures
            r@ == self@,
    {
        TestResultDb {
            test_id: self.test_id.clone(),
            trace_id: self.trace_id.clone(),
            date: self.date,
            status: self.status,
            duration: self.duration,
            environment: clone_opt_string(&self.environment),
            components_called: clone_counts(&self.components_called),
            nb_spans: self.nb_spans,
            cleanup_status: self.cleanup_status,
        }
    }
}

/// A row of the `report` table; `folder` is the report's group.
#[derive(Debug)]
pub struct ReportDb {
    pub id: String,
    pub name: String,
    pub folder: String,
    pub created_on: i64,
    pub last_update: i64,
}

pub ghost struct ReportDbView {
    pub id: Seq<char>,
    pub name: Seq<char>,
    pub folder: Seq<char>,
    pub created_on: i64,
    pub last_update: i64,
}

impl View for ReportDb {
    type V = ReportDbView;

    open spec fn view(&self) -> ReportDbView {
        ReportDbView {
            id: self.id@,
            name: self.name@,
            folder: self.folder@,
            created_on: self.created_on,
            last_update: self.last_update,
        }
    }
}

impl Clone for ReportDb {
    fn clone(&self) -> (r: Self)
        ensures
            r@ == self@,
    {
        ReportDb {
            id: self.id.clone(),
            name: self.name.clone(),
            folder: self.folder.clone(),
            created_on: self.created_on,
            last_update: self.last_update,
        }
    }
}

/// A row of the `test_result_in_report` table: the placement of a test
/// result in a report, under a category and an optional environment.
#[derive(Debug)]
pub struct TestResultInReportDb {
    pub report_id: String,
    pub test_id: String,
    pub trace_id: String,
    pub category: String,
    pub environment: Option<String>,
    pub status: i32,
}

pub ghost struct TestResultInReportDbView {
    pub report_id: Seq<char>,
    pub test_id: Seq<char>,
    pub trace_id: Seq<char>,
    pub category: Seq<char>,
    pub environment: Option<Seq<char>>,
    pub status: i32,
}

impl View for TestResultInReportDb {
    type V = TestResultInReportDbView;

    open spec fn view(&self) -> TestResultInReportDbView {
        TestResultInReportDbView {
            report_id: self.report_id@,
            test_id: self.test_id@,
            trace_id: self.trace_id@,
            category: self.category@,
            environment: opt_view(self.environment),
            status: self.status,
        }
    }
}

impl Clone for TestResultInReportDb {
    fn clone(&self) -> (r: Self)
        ensures
            r@ == self@,
    {
        TestResultInReportDb {
            report_id: self.report_id.clone(),
            test_id: self.test_id.clone(),
            trace_id: self.trace_id.clone(),
            category: self.category.clone(),
            environment: clone_opt_string(&self.environment),
            status: self.status,
        }
    }
}

/// A row of the `script` table.
#[derive(Debug)]
pub struct ScriptDb {
    pub id: String,
    pub name: String,
    pub source: String,
    pub script_type: i32,
    pub date_added: i64,
    pub status: i32,
}

pub ghost struct ScriptDbView {
    pub id: Seq<char>,
    pub name: Seq<char>,
    pub source: Seq<char>,
    pub script_type: i32,
    pub date_added: i64,
    pub status: i32,
}

impl View for ScriptDb {
    type V = ScriptDbView;

    open spec fn view(&self) -> ScriptDbView {
        ScriptDbView {
            id: self.id@,
            name: self.name@,
            source: self.source@,
            script_type: self.script_type,
            date_added: self.date_added,
            status: self.status,
        }
    }
}

impl Clone for ScriptDb {
    fn clone(&self) -> (r: Self)
        ensures
            r@ == self@,
    {
        ScriptDb {
            id: self.id.clone(),
            name: self.name.clone(),
            source: self.source.clone(),
            script_type: self.script_type,
            date_added: self.date_added,
            status: self.status,
        }
    }
}

/// A row of the `ingest` table: the envelope of one accepted batch.
#[derive(Debug)]
pub struct IngestEventDb {
    pub id: String,
    pub created_at: i64,
    pub processed_at: Option<i64>,
}

pub ghost struct IngestEventDbView {
    pub id: Seq<char>,
    pub created_at: i64,
    pub processed_at: Option<i64>,
}

impl View for IngestEventDb {
    type V = IngestEventDbView;

    open spec fn view(&self) -> IngestEventDbView {
        IngestEventDbView {
            id: self.id@,
            created_at: self.created_at,
            processed_at: self.processed_at,
        }
    }
}

impl Row for SpanDb {
    fn copy(&self) -> (r: Self) {
        self.clone()
    }
}

impl Row for EndpointDb {
    fn copy(&self) -> (r: Self) {
        self.clone()
    }
}

impl Row for TagDb {
    fn copy(&self) -> (r: Self) {
        self.clone()
    }
}

impl Row for AnnotationDb {
    fn copy(&self) -> (r: Self) {
        self.clone()
    }
}

impl Row for TestItemDb {
    fn copy(&self) -> (r: Self) {
        self.clone()
    }
}

impl Row for TestResultDb {
    fn copy(&self) -> (r: Self) {
        self.clone()
    }
}

impl Row for ReportDb {
    fn copy(&self) -> (r: Self) {
        self.clone()
    }
}

impl Row for TestResultInReportDb {
    fn copy(&self) -> (r: Self) {
        self.clone()
    }
}

impl Row for ScriptDb {
    fn copy(&self) -> (r: Self) {
        self.clone()
    }
}

/// Spans are shown by timestamp, the earliest first; a span without a
/// timestamp stands before those that have one.
impl Ordered for SpanDb {
    open spec fn goes_before(a: SpanDbView, b: SpanDbView) -> bool {
        match (a.ts, b.ts) {
            (Some(x), Some(y)) => x < y,
            (None, Some(_)) => true,
            _ => false,
        }
    }

    fn before(&self, other: &Self) -> (r: bool) {
        match (self.ts, other.ts) {
            (Some(x), Some(y)) => x < y,
            (None, Some(_)) => true,
            _ => false,
        }
    }
}

/// Test results are shown by date, the latest first.
impl Ordered for TestResultDb {
    open spec fn goes_before(a: TestResultDbView, b: TestResultDbView) -> bool {
        a.date > b.date
    }

    fn before(&self, other: &Self) -> (r: bool) {
        self.date > other.date
    }
}

/// Reports are shown by their last update, the latest first.
impl Ordered for ReportDb {
    open spec fn goes_before(a: ReportDbView, b: ReportDbView) -> bool {
        a.last_update > b.last_update
    }

    fn before(&self, other: &Self) -> (r: bool) {
        self.last_update > other.last_update
    }
}

/// Test items are shown by name.
impl Ordered for TestItemDb {
    open spec fn goes_before(a: TestItemDbView, b: TestItemDbView) -> bool {
        text_before(a.name, b.name)
    }

    fn before(&self, other: &Self) -> (r: bool) {
        text_lt(self.name.as_str(), other.name.as_str())
    }
}

/// Scripts are shown by name.
impl Ordered for ScriptDb {
    open spec fn goes_before(a: ScriptDbView, b: ScriptDbView) -> bool {
        text_before(a.name, b.name)
    }

    fn before(&self, other: &Self) -> (r: bool) {
        text_lt(self.name.as_str(), other.name.as_str())
    }
}

impl Row for String {
    fn copy(&self) -> (r: Self) {
        self.clone()
    }
}

/// Texts are shown in the order of texts.
impl Ordered for String {
    open spec fn goes_before(a: Seq<char>, b: Seq<char>) -> bool {
        text_before(a, b)
    }

    fn before(&self, other: &Self) -> (r: bool) {
        text_lt(self.as_str(), other.as_str())
    }
}

/// The store: one vector of rows per table, each in insertion order.
#[derive(Debug)]
pub struct DbExecutor {
    pub spans: Vec<SpanDb>,
    pub endpoints: Vec<EndpointDb>,
    pub tags: Vec<TagDb>,
    pub annotations: Vec<AnnotationDb>,
    pub test_items: Vec<TestItemDb>,
    pub test_results: Vec<TestResultDb>,
    pub reports: Vec<ReportDb>,
    pub placements: Vec<TestResultInReportDb>,
    pub scripts: Vec<ScriptDb>,
    pub ingests: Vec<IngestEventDb>,
}

/// The store as a value: every table as a sequence of rows.
pub ghost struct Store {
    pub spans: Seq<SpanDbView>,
    pub endpoints: Seq<EndpointDbView>,
    pub tags: Seq<TagDbView>,
    pub annotations: Seq<AnnotationDbView>,
    pub test_items: Seq<TestItemDbView>,
    pub test_results: Seq<TestResultDbView>,
    pub reports: Seq<ReportDbView>,
    pub placements: Seq<TestResultInReportDbView>,
    pub scripts: Seq<ScriptDbView>,
    pub ingests: Seq<IngestEventDbView>,
}

impl View for DbExecutor {
    type V = Store;

    open spec fn view(&self) -> Store {
        Store {
            spans: views(self.spans@),
            endpoints: views(self.endpoints@),
            tags: views(self.tags@),
            annotations: views(self.annotations@),
            test_items: views(self.test_items@),
            test_results: views(self.test_results@),
            reports: views(self.reports@),
            placements: views(self.placements@),
            scripts: views(self.scripts@),
            ingests: views(self.ingests@),
        }
    }
}

/// The store with empty tables.
pub open spec fn empty_store() -> Store {
    Store {
        spans: Seq::empty(),
        endpoints: Seq::empty(),
        tags: Seq::empty(),
        annotations: Seq::empty(),
        test_items: Seq::empty(),
        test_results: Seq::empty(),
        reports: Seq::empty(),
        placements: Seq::empty(),
        scripts: Seq::empty(),
        ingests: Seq::empty(),
    }
}

impl DbExecutor {
    /// A store with empty tables.
    pub fn new() -> (db: DbExecutor)
        ensures
            db@ == empty_store(),
            crate::db::invariants::well_formed(db@),
    {
        let db = DbExecutor {
            spans: Vec::new(),
            endpoints: Vec::new(),
            tags: Vec::new(),
            annotations: Vec::new(),
            test_items: Vec::new(),
            test_results: Vec::new(),
            reports: Vec::new(),
            placements: Vec::new(),
            scripts: Vec::new(),
            ingests: Vec::new(),
        };
        assert(db@.spans =~= Seq::empty());
        assert(db@.endpoints =~= Seq::empty());
        assert(db@.tags =~= Seq::empty());
        assert(db@.annotations =~= Seq::empty());
        assert(db@.test_items =~= Seq::empty());
        assert(db@.test_results =~= Seq::empty());
        assert(db@.reports =~= Seq::empty());
        assert(db@.placements =~= Seq::empty());
        assert(db@.scripts =~= Seq::empty());
        assert(db@.ingests =~= Seq::empty());
        db
    }
}

} // verus!
