//! The table adapter for Grafana: spans, test results and reports as
//! rows of plain values, and the two requests that ask for them.

use vstd::prelude::*;
use vstd::string::StringExecFns;
use crate::api::report::{Report, ReportView};
use crate::db::read::reports::reports_listed;
use crate::db::read::span::{default_span_query, spans_found, SpanQuery, SpanQueryView};
use crate::db::read::test::{default_result_query, results_found, TestResultQuery};
use crate::db::schema::{DbExecutor, Store};
use crate::engine::hello;
use crate::engine::test_result::{
    remote_service, status_name, TestResult, TestResultView,
};
use crate::opentracing::span::{Span, SpanView};
use crate::text::views;

verus! {

/// A cell of a table.
#[derive(Debug)]
pub enum Value {
    Number(i64),
    String(String),
}

pub ghost enum ValueView {
    Number(i64),
    String(Seq<char>),
}

impl View for Value {
    type V = ValueView;

    open spec fn view(&self) -> ValueView {
        match *self {
            Value::Number(n) => ValueView::Number(n),
            Value::String(s) => ValueView::String(s@),
        }
    }
}

/// The head of a column: its title and the type of its cells.
#[derive(Debug, Clone, Copy)]
pub struct Column {
    pub text: &'static str,
    pub column_type: &'static str,
}

impl View for Column {
    type V = (Seq<char>, Seq<char>);

    open spec fn view(&self) -> (Seq<char>, Seq<char>) {
        (self.text@, self.column_type@)
    }
}

/// The answer to a query: a table.
#[derive(Debug)]
pub enum QueryResponse {
    Table { columns: Vec<Column>, rows: Vec<Vec<Value>> },
}

pub ghost struct TableView {
    pub columns: Seq<(Seq<char>, Seq<char>)>,
    pub rows: Seq<Seq<ValueView>>,
}

/// The rows of a table, cell by cell.
pub open spec fn rows_view(rows: Seq<Vec<Value>>) -> Seq<Seq<ValueView>> {
    Seq::new(rows.len(), |k: int| views(rows[k]@))
}

impl View for QueryResponse {
    type V = TableView;

    open spec fn view(&self) -> TableView {
        match *self {
            QueryResponse::Table { columns, rows } => TableView {
                columns: views(columns@),
                rows: rows_view(rows@),
            },
        }
    }
}

/// Microseconds as milliseconds, rounded towards zero.
pub open spec fn millis_of(micros: i64) -> i64 {
    if micros >= 0 {
        (micros / 1000) as i64
    } else {
        (-((-micros) / 1000)) as i64
    }
}

/// Microseconds as the second they lie in.
pub open spec fn seconds_of(micros: i64) -> i64 {
    (micros / 1_000_000) as i64
}

/// Microseconds as milliseconds, rounded towards zero.
pub fn to_millis(micros: i64) -> (r: i64)
    ensures
        r == millis_of(micros),
{
    micros / 1000
}

/// Microseconds as the second they lie in.
pub fn to_seconds(micros: i64) -> (r: i64)
    ensures
        r == seconds_of(micros),
{
    if micros >= 0 || micros % 1_000_000 == 0 {
        micros / 1_000_000
    } else {
        micros / 1_000_000 - 1
    }
}

/// The texts joined with a slash between them.
pub open spec fn joined(texts: Seq<Seq<char>>) -> Seq<char>
    decreases texts.len(),
{
    if texts.len() == 0 {
        Seq::empty()
    } else if texts.len() == 1 {
        texts[0]
    } else {
        joined(texts.drop_last()) + seq!['/'] + texts.last()
    }
}

/// The texts joined with a slash between them.
pub fn join_path(texts: &Vec<String>) -> (r: String)
    ensures
        r@ == joined(views(texts@)),
{
    let ghost all = views(texts@);
    let mut out = String::new();
    let mut i: usize = 0;
    proof {
        assert(all.take(0) =~= Seq::<Seq<char>>::empty());
    }
    while i < texts.len()
        invariant
            i <= texts.len(),
            all == views(texts@),
            out@ == joined(all.take(i as int)),
        decreases texts.len() - i,
    {
        proof {
            assert(all.take(i + 1).drop_last() =~= all.take(i as int));
            assert(all.take(i + 1).last() == texts[i as int]@);
            reveal_strlit("/");
            assert("/"@ =~= seq!['/']);
            if i == 0 {
                assert(all.take(1)[0] == texts[0]@);
                assert(Seq::<char>::empty() + texts[0]@ =~= texts[0]@);
            }
        }
        if i > 0 {
            out.append("/");
        }
        out.append(texts[i].as_str());
        i += 1;
    }
    proof {
        assert(all.take(texts.len() as int) =~= all);
    }
    out
}

/// A text, or the empty text where there is none.
pub open spec fn text_or_empty(text: Option<Seq<char>>) -> Seq<char> {
    match text {
        Some(t) => t,
        None => Seq::empty(),
    }
}

/// A number, or zero where there is none.
pub open spec fn number_or_zero(number: Option<i64>) -> i64 {
    match number {
        Some(n) => n,
        None => 0,
    }
}

/// A count as a cell; the largest number where it does not fit.
pub open spec fn count_cell(n: usize) -> i64 {
    if n > i64::MAX {
        i64::MAX
    } else {
        n as i64
    }
}

/// A span as a row: name, time and duration in milliseconds, remote service.
pub open spec fn span_row(span: SpanView) -> Seq<ValueView> {
    seq![
        ValueView::String(text_or_empty(span.name)),
        ValueView::Number(millis_of(number_or_zero(span.timestamp))),
        ValueView::Number(millis_of(number_or_zero(span.duration))),
        ValueView::String(text_or_empty(remote_service(span))),
    ]
}

/// A test result as a row: name, path, status, environment, number of
/// spans, time and duration in milliseconds.
pub open spec fn test_result_row(result: TestResultView) -> Seq<ValueView> {
    seq![
        ValueView::String(result.name),
        ValueView::String(joined(result.path)),
        ValueView::String(status_name(result.status)),
        ValueView::String(text_or_empty(result.environment)),
        ValueView::Number(result.nb_spans as i64),
        ValueView::Number(millis_of(result.date)),
        ValueView::Number(millis_of(result.duration)),
    ]
}

/// A report as a row: name, last update in seconds, and the numbers of
/// tests that succeeded, failed and were skipped.
pub open spec fn report_row(report: ReportView) -> Seq<ValueView> {
    seq![
        ValueView::String(report.name),
        ValueView::Number(seconds_of(report.last_update)),
        ValueView::Number(
            match report.summary {
                Some(s) => count_cell(s.success),
                None => 0,
            },
        ),
        ValueView::Number(
            match report.summary {
                Some(s) => count_cell(s.failure),
                None => 0,
            },
        ),
        ValueView::Number(
            match report.summary {
                Some(s) => count_cell(s.skipped),
                None => 0,
            },
        ),
    ]
}

fn count_to_cell(n: usize) -> (r: i64)
    ensures
        r == count_cell(n),
{
    if n as u64 > i64::MAX as u64 {
        i64::MAX
    } else {
        n as i64
    }
}

/// What can be shown as a table: the heads of its columns and a row for
/// each value.
pub trait ToGrafana: Sized {
    fn as_column_types() -> Vec<Column>;

    fn as_columns(self) -> Vec<Value>;
}

fn head(text: &'static str, column_type: &'static str) -> (c: Column)
    ensures
        c@ == (text@, column_type@),
{
    Column { text, column_type }
}

/// The heads of the table of spans.
pub open spec fn span_heads() -> Seq<(Seq<char>, Seq<char>)> {
    seq![
        ("Name"@, "String"@),
        ("Time"@, "Date"@),
        ("Duration"@, "Number"@),
        ("Remote Endpoint"@, "String"@),
    ]
}

/// The heads of the table of test results.
pub open spec fn test_result_heads() -> Seq<(Seq<char>, Seq<char>)> {
    seq![
        ("Name"@, "String"@),
        ("Path"@, "String"@),
        ("Status"@, "String"@),
        ("Environment"@, "String"@),
        ("Nb Spans"@, "Number"@),
        ("Time"@, "Date"@),
        ("Duration"@, "Number"@),
    ]
}

/// The heads of the table of reports.
pub open spec fn report_heads() -> Seq<(Seq<char>, Seq<char>)> {
    seq![
        ("Name"@, "String"@),
        ("Last Update"@, "Date"@),
        ("Success"@, "Number"@),
        ("Failure"@, "Number"@),
        ("Skipped"@, "Number"@),
    ]
}

impl ToGrafana for Span {
    fn as_column_types() -> (columns: Vec<Column>)
        ensures
            views(columns@) == span_heads(),
    {
        let mut columns: Vec<Column> = Vec::new();
        columns.push(head("Name", "String"));
        columns.push(head("Time", "Date"));
        columns.push(head("Duration", "Number"));
        columns.push(head("Remote Endpoint", "String"));
        assert(views(columns@) =~= span_heads());
        columns
    }

    fn as_columns(self) -> (column: Vec<Value>)
        ensures
            views(column@) == span_row(self@),
    {
        let mut column: Vec<Value> = Vec::new();
        column.push(
            Value::String(
                match self.name {
                    Some(n) => n,
                    None => String::new(),
                },
            ),
        );
        column.push(
            Value::Number(
                to_millis(
                    match self.timestamp {
                        Some(t) => t,
                        None => 0,
                    },
                ),
            ),
        );
        column.push(
            Value::Number(
                to_millis(
                    match self.duration {
                        Some(d) => d,
                        None => 0,
                    },
                ),
            ),
        );
        column.push(
            Value::String(
                match self.remote_endpoint {
                    Some(ep) => match ep.service_name {
                        Some(s) => s,
                        None => String::new(),
                    },
                    None => String::new(),
                },
            ),
        );
        assert(views(column@) =~= span_row(self@));
        column
    }
}

impl ToGrafana for TestResult {
    fn as_column_types() -> (columns: Vec<Column>)
        ensures
            views(columns@) == test_result_heads(),
    {
        let mut columns: Vec<Column> = Vec::new();
        columns.push(head("Name", "String"));
        columns.push(head("Path", "String"));
        columns.push(head("Status", "String"));
        columns.push(head("Environment", "String"));
        columns.push(head("Nb Spans", "Number"));
        columns.push(head("Time", "Date"));
        columns.push(head("Duration", "Number"));
        assert(views(columns@) =~= test_result_heads());
        columns
    }

    fn as_columns(self) -> (column: Vec<Value>)
        ensures
            views(column@) == test_result_row(self@),
    {
        let mut column: Vec<Value> = Vec::new();
        let path = join_path(&self.path);
        column.push(Value::String(self.name));
        column.push(Value::String(path));
        column.push(Value::String(self.status.as_str().to_string()));
        column.push(
            Value::String(
                match self.environment {
                    Some(e) => e,
                    None => String::new(),
                },
            ),
        );
        column.push(Value::Number(self.nb_spans as i64));
        column.push(Value::Number(to_millis(self.date)));
        column.push(Value::Number(to_millis(self.duration)));
        assert(views(column@) =~= test_result_row(self@));
        column
    }
}

impl ToGrafana for Report {
    fn as_column_types() -> (columns: Vec<Column>)
        ensures
            views(columns@) == report_heads(),
    {
        let mut columns: Vec<Column> = Vec::new();
        columns.push(head("Name", "String"));
        columns.push(head("Last Update", "Date"));
        columns.push(head("Success", "Number"));
        columns.push(head("Failure", "Number"));
        columns.push(head("Skipped", "Number"));
        assert(views(columns@) =~= report_heads());
        columns
    }

    fn as_columns(self) -> (column: Vec<Value>)
        ensures
            views(column@) == report_row(self@),
    {
        let mut column: Vec<Value> = Vec::new();
        let (success, failure, skipped) = match self.summary {
            Some(s) => (count_to_cell(s.success), count_to_cell(s.failure), count_to_cell(s.skipped)),
            None => (0, 0, 0),
        };
        column.push(Value::String(self.name));
        column.push(Value::Number(to_seconds(self.last_update)));
        column.push(Value::Number(success));
        column.push(Value::Number(failure));
        column.push(Value::Number(skipped));
        assert(views(column@) =~= report_row(self@));
        column
    }
}

/// The greeting that tells Grafana the data source is there.
pub fn setup() -> (greeting: String)
    ensures
        greeting@ == "I am i'Krelln"@,
{
    hello().to_string()
}

/// The names of the tables that can be asked for.
pub open spec fn targets() -> Seq<Seq<char>> {
    seq!["spans"@, "test_results"@, "reports"@]
}

/// The tables that can be asked for.
pub fn search() -> (names: Vec<String>)
    ensures
        views(names@) == targets(),
{
    let mut names: Vec<String> = Vec::new();
    names.push("spans".to_string());
    names.push("test_results".to_string());
    names.push("reports".to_string());
    assert(views(names@) =~= targets());
    names
}

/// The most spans that a table of spans shows.
pub const GRAFANA_SPAN_LIMIT: i64 = 50;

/// The table of the latest spans up to `now`.
pub open spec fn span_table(s: Store, now: i64) -> TableView {
    let spans = spans_found(
        s,
        SpanQueryView { limit: GRAFANA_SPAN_LIMIT, ..default_span_query(now) },
    );
    TableView { columns: span_heads(), rows: Seq::new(spans.len(), |k: int| span_row(spans[k])) }
}

/// The table of the latest test results up to `now`.
pub open spec fn test_result_table(s: Store, now: i64) -> TableView {
    let results = results_found(s, default_result_query(now));
    TableView {
        columns: test_result_heads(),
        rows: Seq::new(results.len(), |k: int| test_result_row(results[k])),
    }
}

/// The table of the reports.
pub open spec fn report_table(s: Store) -> TableView {
    let reports = reports_listed(s);
    TableView {
        columns: report_heads(),
        rows: Seq::new(reports.len(), |k: int| report_row(reports[k])),
    }
}

/// The table that a target asks for, if it names one.
pub open spec fn table_of(s: Store, target: Seq<char>, now: i64) -> Option<TableView> {
    if target == "spans"@ {
        Some(span_table(s, now))
    } else if target == "test_results"@ {
        Some(test_result_table(s, now))
    } else if target == "reports"@ {
        Some(report_table(s))
    } else {
        None
    }
}

/// The tables that the targets ask for, in order; a target that names
/// no table is passed over.
pub open spec fn tables_of(s: Store, targets: Seq<Seq<char>>, now: i64) -> Seq<TableView>
    decreases targets.len(),
{
    if targets.len() == 0 {
        Seq::empty()
    } else {
        let before = tables_of(s, targets.drop_last(), now);
        match table_of(s, targets.last(), now) {
            Some(t) => before.push(t),
            None => before,
        }
    }
}

fn spans_as_table(spans: Vec<Span>) -> (table: QueryResponse)
    ensures
        table@ == (TableView {
            columns: span_heads(),
            rows: Seq::new(spans.len() as nat, |k: int| span_row(views(spans@)[k])),
        }),
{
    let mut rows: Vec<Vec<Value>> = Vec::new();
    let mut i: usize = 0;
    while i < spans.len()
        invariant
            i <= spans.len(),
            rows.len() == i,
            forall|k: int| 0 <= k < i ==> views(rows[k]@) == span_row(spans[k]@),
        decreases spans.len() - i,
    {
        rows.push(spans[i].clone().as_columns());
        i += 1;
    }
    let table = QueryResponse::Table { columns: Span::as_column_types(), rows };
    assert(table@.rows =~= Seq::new(spans.len() as nat, |k: int| span_row(views(spans@)[k])));
    table
}

fn results_as_table(results: Vec<TestResult>) -> (table: QueryResponse)
    ensures
        table@ == (TableView {
            columns: test_result_heads(),
            rows: Seq::new(results.len() as nat, |k: int| test_result_row(views(results@)[k])),
        }),
{
    let mut rows: Vec<Vec<Value>> = Vec::new();
    let mut i: usize = 0;
    while i < results.len()
        invariant
            i <= results.len(),
            rows.len() == i,
            forall|k: int| 0 <= k < i ==> views(rows[k]@) == test_result_row(results[k]@),
        decreases results.len() - i,
    {
        rows.push(results[i].clone().as_columns());
        i += 1;
    }
    let table = QueryResponse::Table { columns: TestResult::as_column_types(), rows };
    assert(table@.rows =~= Seq::new(
        results.len() as nat,
        |k: int| test_result_row(views(results@)[k]),
    ));
    table
}

fn reports_as_table(reports: Vec<Report>) -> (table: QueryResponse)
    ensures
        table@ == (TableView {
            columns: report_heads(),
            rows: Seq::new(reports.len() as nat, |k: int| report_row(views(reports@)[k])),
        }),
{
    let mut rows: Vec<Vec<Value>> = Vec::new();
    let mut reports = reports;
    let ghost all = views(reports@);
    let mut taken: Vec<Vec<Value>> = Vec::new();
    while reports.len() > 0
        invariant
            reports.len() <= all.len(),
            views(reports@) == all.take(reports.len() as int),
            taken.len() == all.len() - reports.len(),
            forall|k: int|
                0 <= k < taken.len() ==> views(taken[k]@) == report_row(all[all.len() - 1 - k]),
        decreases reports.len(),
    {
        let ghost before = views(reports@);
        let report = reports.pop().unwrap();
        proof {
            assert(report@ == before[before.len() - 1]);
            assert(views(reports@) =~= all.take(reports.len() as int));
        }
        taken.push(report.as_columns());
    }
    while taken.len() > 0
        invariant
            taken.len() + rows.len() == all.len(),
            forall|k: int|
                0 <= k < taken.len() ==> views(taken[k]@) == report_row(all[all.len() - 1 - k]),
            forall|k: int| 0 <= k < rows.len() ==> views(rows[k]@) == report_row(all[k]),
        decreases taken.len(),
    {
        let row = taken.pop().unwrap();
        rows.push(row);
    }
    let table = QueryResponse::Table { columns: Report::as_column_types(), rows };
    assert(table@.rows =~= Seq::new(all.len(), |k: int| report_row(all[k])));
    table
}

/// The tables that the targets of a query ask for, at the time `now`.
pub fn query_at(db: &DbExecutor, targets: &Vec<String>, now: i64) -> (responses: Vec<QueryResponse>)
    ensures
        views(responses@) == tables_of(db@, views(targets@), now),
{
    let ghost all = views(targets@);
    let mut responses: Vec<QueryResponse> = Vec::new();
    let mut i: usize = 0;
    proof {
        assert(all.take(0) =~= Seq::<Seq<char>>::empty());
        assert(views(responses@) =~= Seq::<TableView>::empty());
    }
    while i < targets.len()
        invariant
            i <= targets.len(),
            all == views(targets@),
            views(responses@) == tables_of(db@, all.take(i as int), now),
        decreases targets.len() - i,
    {
        proof {
            assert(all.take(i + 1).drop_last() =~= all.take(i as int));
            assert(all.take(i + 1).last() == targets[i as int]@);
        }
        let target = targets[i].as_str();
        if target.eq("spans") {
            let spans = db.get_spans(&SpanQuery::default_at(now).with_limit(GRAFANA_SPAN_LIMIT));
            let table = spans_as_table(spans);
            proof {
                crate::text::lemma_views_push(responses@, table);
            }
            responses.push(table);
        } else if target.eq("test_results") {
            let results = db.get_test_results(&TestResultQuery::default_at(now));
            let table = results_as_table(results);
            proof {
                crate::text::lemma_views_push(responses@, table);
            }
            responses.push(table);
        } else if target.eq("reports") {
            let table = reports_as_table(db.get_all_reports());
            proof {
                crate::text::lemma_views_push(responses@, table);
            }
            responses.push(table);
        }
        i += 1;
    }
    proof {
        assert(all.take(targets.len() as int) =~= all);
    }
    responses
}

/// The tables that the targets of a query ask for, as of now.
pub fn query(db: &DbExecutor, targets: &Vec<String>) -> (responses: Vec<QueryResponse>)
    ensures
        exists|now: i64| views(responses@) == #[trigger] tables_of(db@, views(targets@), now),
{
    let now = crate::engine::now_micros();
    let responses = query_at(db, targets, now);
    assert(views(responses@) == tables_of(db@, views(targets@), now));
    responses
}

} // verus!
