//! Reading test items and test results. The path of a test is found by
//! walking up the tree; the walk remembers the items it has seen.

use vstd::prelude::*;
use crate::api::test::{
    TestDetails, TestDetailsView, TestItem, TestItemView, TestResultsQueryParams,
};
use crate::db::helper::Cacher;
use crate::db::read::span::{
    clamp_limit, clamped_limit, in_range, micros_of_millis, millis_to_micros, row_limit,
};
use crate::db::schema::{
    DbExecutor, Store, TestItemDb, TestItemDbView, TestResultDb, TestResultDbView,
};
use crate::db::update::test::root_id;
use crate::engine::now_micros;
use crate::engine::test_result::{
    clone_counts, status_as_int, status_of_i32, TestResult, TestResultView, TestStatus,
};
use crate::seqs::{
    first_rows, first_where, holds_text, keep_where, lemma_first_where_at, lemma_first_where_none,
    order_of, sort_rows, sorted_by,
};
use crate::text::{clone_opt_string, lemma_views_push, opt_string_eq, opt_view, prefix, views};

verus! {

/// The most test results a query returns.
pub const TEST_RESULT_QUERY_LIMIT: i64 = 100;

/// The number of latest results that are shown with a test item.
pub const LAST_RESULTS: usize = 5;

/// A query for test items: by identifier, by parent, or both, and what
/// to read with each item.
#[derive(Debug)]
pub struct TestItemQuery {
    pub id: Option<String>,
    pub parent_id: Option<String>,
    pub with_full_path: bool,
    pub with_children: bool,
    pub with_traces: bool,
}

pub ghost struct TestItemQueryView {
    pub id: Option<Seq<char>>,
    pub parent_id: Option<Seq<char>>,
    pub with_full_path: bool,
    pub with_children: bool,
    pub with_traces: bool,
}

impl View for TestItemQuery {
    type V = TestItemQueryView;

    open spec fn view(&self) -> TestItemQueryView {
        TestItemQueryView {
            id: opt_view(self.id),
            parent_id: opt_view(self.parent_id),
            with_full_path: self.with_full_path,
            with_children: self.with_children,
            with_traces: self.with_traces,
        }
    }
}

impl Default for TestItemQuery {
    fn default() -> (q: Self)
        ensures
            q@ == (TestItemQueryView {
                id: None,
                parent_id: None,
                with_full_path: false,
                with_children: false,
                with_traces: false,
            }),
    {
        TestItemQuery {
            id: None,
            parent_id: None,
            with_full_path: false,
            with_children: false,
            with_traces: false,
        }
    }
}

/// A query for test results. `ts` and `lookback` are in microseconds.
#[derive(Debug)]
pub struct TestResultQuery {
    pub trace_id: Option<String>,
    pub status: Option<i32>,
    pub test_id: Option<String>,
    pub environment: Option<String>,
    pub min_duration: Option<i64>,
    pub max_duration: Option<i64>,
    pub ts: i64,
    pub lookback: Option<i64>,
    pub limit: i64,
}

pub ghost struct TestResultQueryView {
    pub trace_id: Option<Seq<char>>,
    pub status: Option<i32>,
    pub test_id: Option<Seq<char>>,
    pub environment: Option<Seq<char>>,
    pub min_duration: Option<i64>,
    pub max_duration: Option<i64>,
    pub ts: i64,
    pub lookback: Option<i64>,
    pub limit: i64,
}

impl View for TestResultQuery {
    type V = TestResultQueryView;

    open spec fn view(&self) -> TestResultQueryView {
        TestResultQueryView {
            trace_id: opt_view(self.trace_id),
            status: self.status,
            test_id: opt_view(self.test_id),
            environment: opt_view(self.environment),
            min_duration: self.min_duration,
            max_duration: self.max_duration,
            ts: self.ts,
            lookback: self.lookback,
            limit: self.limit,
        }
    }
}

/// The query for the latest test results up to `now`.
pub open spec fn default_result_query(now: i64) -> TestResultQueryView {
    TestResultQueryView {
        trace_id: None,
        status: None,
        test_id: None,
        environment: None,
        min_duration: None,
        max_duration: None,
        ts: now,
        lookback: None,
        limit: TEST_RESULT_QUERY_LIMIT,
    }
}

/// The status a query filters by: none for `Any`.
pub open spec fn status_filter(status: Option<TestStatus>) -> Option<i32> {
    match status {
        Some(TestStatus::Any) => None,
        Some(s) => Some(status_as_int(s) as i32),
        None => None,
    }
}

/// The query that the parameters of a request ask for, at the time `now`.
pub open spec fn result_query_of(params: TestResultsQueryParams, now: i64) -> TestResultQueryView {
    TestResultQueryView {
        trace_id: opt_view(params.trace_id),
        status: status_filter(params.status),
        test_id: opt_view(params.test_id),
        environment: opt_view(params.environment),
        min_duration: params.min_duration,
        max_duration: params.max_duration,
        ts: match params.ts {
            Some(v) => micros_of_millis(v),
            None => now,
        },
        lookback: match params.lookback {
            Some(v) => Some(micros_of_millis(v)),
            None => None,
        },
        limit: clamped_limit(params.limit, TEST_RESULT_QUERY_LIMIT),
    }
}

impl TestResultQuery {
    /// The query for the latest test results up to `now`.
    pub fn default_at(now: i64) -> (q: TestResultQuery)
        ensures
            q@ == default_result_query(now),
    {
        TestResultQuery {
            trace_id: None,
            status: None,
            test_id: None,
            environment: None,
            min_duration: None,
            max_duration: None,
            ts: now,
            lookback: None,
            limit: TEST_RESULT_QUERY_LIMIT,
        }
    }

    /// The query that the parameters of a request ask for, at the time
    /// `now`. Times in the parameters are in milliseconds. The limit is at
    /// most 100 whatever is asked for.
    pub fn from_params_at(params: TestResultsQueryParams, now: i64) -> (q: TestResultQuery)
        ensures
            q@ == result_query_of(params, now),
            q.limit <= TEST_RESULT_QUERY_LIMIT,
    {
        TestResultQuery {
            trace_id: params.trace_id,
            status: match params.status {
                Some(TestStatus::Any) => None,
                Some(s) => Some(s.as_i32()),
                None => None,
            },
            test_id: params.test_id,
            environment: params.environment,
            min_duration: params.min_duration,
            max_duration: params.max_duration,
            ts: match params.ts {
                Some(v) => millis_to_micros(v),
                None => now,
            },
            lookback: match params.lookback {
                Some(v) => Some(millis_to_micros(v)),
                None => None,
            },
            limit: clamp_limit(params.limit, TEST_RESULT_QUERY_LIMIT),
        }
    }

    /// The query that the parameters of a request ask for, now.
    pub fn from(params: TestResultsQueryParams) -> (q: TestResultQuery)
        ensures
            exists|now: i64| q@ == result_query_of(params, now),
            q.limit <= TEST_RESULT_QUERY_LIMIT,
    {
        let now = now_micros();
        let q = TestResultQuery::from_params_at(params, now);
        assert(q@ == result_query_of(params, now));
        q
    }
}

impl Default for TestResultQuery {
    /// The query for the latest test results up to now.
    fn default() -> (q: Self)
        ensures
            exists|now: i64| q@ == default_result_query(now),
    {
        let now = now_micros();
        let q = TestResultQuery::default_at(now);
        assert(q@ == default_result_query(now));
        q
    }
}

/// The test item with the identifier.
pub open spec fn item_by_id(items: Seq<TestItemDbView>, id: Seq<char>) -> Option<TestItemDbView> {
    match first_where(items, |row: TestItemDbView| row.id == id) {
        Some(i) => Some(items[i]),
        None => None,
    }
}

/// The items from the top of the tree down to the item `id`, found by
/// walking up from it at most `fuel` steps. The walk ends at the parent
/// `root` and where an item is missing.
pub open spec fn ancestors(items: Seq<TestItemDbView>, id: Seq<char>, fuel: nat) -> Seq<
    TestItemDbView,
>
    decreases fuel,
{
    if fuel == 0 || id == root_id() {
        Seq::empty()
    } else {
        match item_by_id(items, id) {
            Some(item) => ancestors(items, item.parent_id, (fuel - 1) as nat).push(item),
            None => Seq::empty(),
        }
    }
}

/// The items above an item, from the top of the tree down. No walk
/// needs more steps than there are items.
pub open spec fn path_above(items: Seq<TestItemDbView>, parent_id: Seq<char>) -> Seq<TestItemDbView> {
    ancestors(items, parent_id, items.len())
}

/// The names of the items, in order.
pub open spec fn names_of(items: Seq<TestItemDbView>) -> Seq<Seq<char>> {
    Seq::new(items.len(), |k: int| items[k].name)
}

/// The items by identifier and name, in order.
pub open spec fn items_of(items: Seq<TestItemDbView>) -> Seq<TestItemView> {
    Seq::new(items.len(), |k: int| TestItemView { id: items[k].id, name: items[k].name })
}

/// The name shown for a result whose test item is missing.
pub open spec fn missing_name() -> Seq<char> {
    "missing name"@
}

/// The test result that a row stands for.
pub open spec fn result_of_row(items: Seq<TestItemDbView>, row: TestResultDbView) -> TestResultView {
    let test = item_by_id(items, row.test_id);
    TestResultView {
        test_id: row.test_id,
        path: match test {
            Some(t) => names_of(path_above(items, t.parent_id)),
            None => Seq::empty(),
        },
        name: match test {
            Some(t) => t.name,
            None => missing_name(),
        },
        trace_id: row.trace_id,
        date: row.date,
        status: status_of_i32(row.status),
        duration: row.duration,
        environment: row.environment,
        components_called: row.components_called,
        nb_spans: row.nb_spans,
        main_span: None,
    }
}

/// Whether a row is selected by a query: every filter that is set must
/// hold, and the date must be in range.
pub open spec fn selects_result(q: TestResultQueryView) -> spec_fn(TestResultDbView) -> bool {
    |row: TestResultDbView|
        {
            &&& q.trace_id is Some ==> Some(row.trace_id) == q.trace_id
            &&& q.status is Some ==> Some(row.status) == q.status
            &&& q.test_id is Some ==> Some(row.test_id) == q.test_id
            &&& q.environment is Some ==> row.environment == q.environment
            &&& q.max_duration is Some ==> row.duration <= q.max_duration->0
            &&& q.min_duration is Some ==> row.duration >= q.min_duration->0
            &&& in_range(row.date, q.ts, q.lookback)
        }
}

/// The rows that a query returns: the selected rows, the latest first,
/// at most the limit.
pub open spec fn selected_results(s: Store, q: TestResultQueryView) -> Seq<TestResultDbView> {
    prefix(
        sorted_by(s.test_results.filter(selects_result(q)), order_of::<TestResultDb>()),
        row_limit(q.limit),
    )
}

/// The test results that a query returns.
pub open spec fn results_found(s: Store, q: TestResultQueryView) -> Seq<TestResultView> {
    let rows = selected_results(s, q);
    Seq::new(rows.len(), |k: int| result_of_row(s.test_items, rows[k]))
}

/// What a memo of test items may hold: for every key the item that the
/// table has under it.
pub open spec fn remembers(cache: Map<Seq<char>, Option<TestItemDb>>, items: Seq<TestItemDbView>) -> bool {
    forall|key: Seq<char>| #[trigger]
        cache.contains_key(key) ==> opt_view(cache[key]) == item_by_id(items, key)
}

/// The test item with the identifier.
pub fn find_item_by_id(items: &Vec<TestItemDb>, id: &str) -> (r: Option<TestItemDb>)
    ensures
        opt_view(r) == item_by_id(views(items@), id@),
{
    let mut i: usize = 0;
    while i < items.len()
        invariant
            i <= items.len(),
            forall|k: int| 0 <= k < i ==> views(items@)[k].id != id@,
        decreases items.len() - i,
    {
        if items[i].id.as_str().eq(id) {
            proof {
                lemma_first_where_at(views(items@), |row: TestItemDbView| row.id == id@, i as int);
            }
            return Some(items[i].clone());
        }
        i += 1;
    }
    proof {
        lemma_first_where_none(views(items@), |row: TestItemDbView| row.id == id@);
    }
    None
}

/// The test item with the identifier, from the memo where it has been
/// looked up before.
pub fn remembered_item(cache: &mut Cacher<TestItemDb>, items: &Vec<TestItemDb>, id: &str) -> (r:
    Option<TestItemDb>)
    requires
        remembers(old(cache)@, views(items@)),
    ensures
        remembers(final(cache)@, views(items@)),
        opt_view(r) == item_by_id(views(items@), id@),
{
    let lookup = |key: &str| -> (found: Option<TestItemDb>)
        ensures
            opt_view(found) == item_by_id(views(items@), key@),
        { find_item_by_id(items, key) };
    let found = cache.get(id, lookup);
    match found {
        Some(item) => Some(item.clone()),
        None => None,
    }
}

/// The items above an item, from the top of the tree down.
pub fn read_path_above(cache: &mut Cacher<TestItemDb>, items: &Vec<TestItemDb>, parent_id: &String) -> (path:
    Vec<TestItemDb>)
    requires
        remembers(old(cache)@, views(items@)),
    ensures
        remembers(final(cache)@, views(items@)),
        views(path@) == path_above(views(items@), parent_id@),
{
    let ghost all = views(items@);
    let mut below: Vec<TestItemDb> = Vec::new();
    let mut next = parent_id.clone();
    let mut fuel: usize = items.len();
    proof {
        assert(views(below@) =~= Seq::<TestItemDbView>::empty());
    }
    while fuel > 0 && !next.as_str().eq("root")
        invariant
            all == views(items@),
            remembers(cache@, all),
            fuel <= items.len(),
            path_above(all, parent_id@) == ancestors(all, next@, fuel as nat) + views(
                below@,
            ).reverse(),
        decreases fuel,
    {
        match remembered_item(cache, items, next.as_str()) {
            Some(item) => {
                let ghost before = views(below@);
                let ghost up = ancestors(all, item@.parent_id, (fuel - 1) as nat);
                next = item.parent_id.clone();
                proof {
                    lemma_views_push(below@, item);
                    assert(up.push(item@) + before.reverse() =~= up + before.push(
                        item@,
                    ).reverse());
                }
                below.push(item);
                fuel -= 1;
            },
            None => {
                fuel = 0;
            },
        }
    }
    let mut path: Vec<TestItemDb> = Vec::new();
    let mut i: usize = below.len();
    while i > 0
        invariant
            i <= below.len(),
            path.len() == below.len() - i,
            forall|k: int| 0 <= k < path.len() ==> path[k]@ == below[below.len() - 1 - k]@,
        decreases i,
    {
        i -= 1;
        path.push(below[i].clone());
    }
    assert(views(path@) =~= views(below@).reverse());
    assert(ancestors(all, next@, fuel as nat) =~= Seq::<TestItemDbView>::empty());
    path
}

fn names_from(items: &Vec<TestItemDb>) -> (names: Vec<String>)
    ensures
        views(names@) == names_of(views(items@)),
{
    let mut names: Vec<String> = Vec::new();
    let mut i: usize = 0;
    while i < items.len()
        invariant
            i <= items.len(),
            names.len() == i,
            forall|k: int| 0 <= k < i ==> names[k]@ == items[k]@.name,
        decreases items.len() - i,
    {
        names.push(items[i].name.clone());
        i += 1;
    }
    assert(views(names@) =~= names_of(views(items@)));
    names
}

fn items_from(items: &Vec<TestItemDb>) -> (out: Vec<TestItem>)
    ensures
        views(out@) == items_of(views(items@)),
{
    let mut out: Vec<TestItem> = Vec::new();
    let mut i: usize = 0;
    while i < items.len()
        invariant
            i <= items.len(),
            out.len() == i,
            forall|k: int|
                0 <= k < i ==> out[k]@ == (TestItemView { id: items[k]@.id, name: items[k]@.name }),
        decreases items.len() - i,
    {
        out.push(TestItem { id: items[i].id.clone(), name: items[i].name.clone() });
        i += 1;
    }
    assert(views(out@) =~= items_of(views(items@)));
    out
}

/// The test result that a row stands for.
pub fn result_from_row(cache: &mut Cacher<TestItemDb>, items: &Vec<TestItemDb>, row: &TestResultDb) -> (result:
    TestResult)
    requires
        remembers(old(cache)@, views(items@)),
    ensures
        remembers(final(cache)@, views(items@)),
        result@ == result_of_row(views(items@), row@),
{
    let test = remembered_item(cache, items, row.test_id.as_str());
    let (path, name) = match test {
        Some(t) => {
            let above = read_path_above(cache, items, &t.parent_id);
            (names_from(&above), t.name)
        },
        None => {
            let none: Vec<String> = Vec::new();
            assert(views(none@) =~= Seq::<Seq<char>>::empty());
            (none, "missing name".to_string())
        },
    };
    TestResult {
        test_id: row.test_id.clone(),
        path,
        name,
        date: row.date,
        duration: row.duration,
        environment: clone_opt_string(&row.environment),
        status: TestStatus::from(row.status),
        trace_id: row.trace_id.clone(),
        components_called: clone_counts(&row.components_called),
        nb_spans: row.nb_spans,
        main_span: None,
    }
}

fn result_selected(q: &TestResultQuery, row: &TestResultDb) -> (r: bool)
    ensures
        r == selects_result(q@)(row@),
{
    let in_trace = match &q.trace_id {
        Some(t) => row.trace_id == *t,
        None => true,
    };
    let with_status = match q.status {
        Some(s) => row.status == s,
        None => true,
    };
    let of_test = match &q.test_id {
        Some(t) => row.test_id == *t,
        None => true,
    };
    let in_environment = q.environment.is_none() || opt_string_eq(&row.environment, &q.environment);
    let short_enough = match q.max_duration {
        Some(max) => row.duration <= max,
        None => true,
    };
    let long_enough = match q.min_duration {
        Some(min) => row.duration >= min,
        None => true,
    };
    let timely = row.date <= q.ts && (match q.lookback {
        Some(l) => row.date as i128 >= q.ts as i128 - l as i128,
        None => true,
    });
    in_trace && with_status && of_test && in_environment && short_enough && long_enough && timely
}

pub(crate) fn limit_rows(limit: i64) -> (n: usize)
    ensures
        n <= row_limit(limit),
        n < row_limit(limit) ==> n == usize::MAX,
{
    if limit <= 0 {
        0
    } else if limit as u64 > usize::MAX as u64 {
        usize::MAX
    } else {
        limit as usize
    }
}

/// The environments of the test results, each once, in the order in
/// which they were first seen.
pub open spec fn environments_of(results: Seq<TestResultDbView>) -> Seq<Seq<char>>
    decreases results.len(),
{
    if results.len() == 0 {
        Seq::empty()
    } else {
        let before = environments_of(results.drop_last());
        match results.last().environment {
            Some(e) => if before.contains(e) {
                before
            } else {
                before.push(e)
            },
            None => before,
        }
    }
}

impl DbExecutor {
    /// The rows that a query selects, the latest first, within its limit.
    pub fn select_test_results(&self, query: &TestResultQuery) -> (rows: Vec<TestResultDb>)
        ensures
            views(rows@) == selected_results(self@, query@),
    {
        let mut keep: Vec<bool> = Vec::new();
        let mut i: usize = 0;
        while i < self.test_results.len()
            invariant
                i <= self.test_results.len(),
                keep.len() == i,
                forall|k: int|
                    0 <= k < i ==> keep[k] == selects_result(query@)(
                        #[trigger] self.test_results[k]@,
                    ),
            decreases self.test_results.len() - i,
        {
            keep.push(result_selected(query, &self.test_results[i]));
            i += 1;
        }
        let kept = keep_where(&self.test_results, &keep, Ghost(selects_result(query@)));
        let sorted = sort_rows(&kept);
        let n = limit_rows(query.limit);
        let rows = first_rows(&sorted, n);
        proof {
            assert(views(sorted@).len() == sorted.len());
            assert(prefix(views(sorted@), n as nat) == prefix(
                views(sorted@),
                row_limit(query.limit),
            ));
        }
        rows
    }

    /// The test results that a query asks for, each with the path and
    /// the name of its test.
    pub fn get_test_results(&self, query: &TestResultQuery) -> (results: Vec<TestResult>)
        ensures
            views(results@) == results_found(self@, query@),
    {
        let rows = self.select_test_results(query);
        let mut cache: Cacher<TestItemDb> = Cacher::new();
        let mut results: Vec<TestResult> = Vec::new();
        let mut i: usize = 0;
        while i < rows.len()
            invariant
                i <= rows.len(),
                results.len() == i,
                remembers(cache@, self@.test_items),
                views(rows@) == selected_results(self@, query@),
                forall|k: int|
                    0 <= k < i ==> results[k]@ == result_of_row(self@.test_items, views(rows@)[k]),
            decreases rows.len() - i,
        {
            assert(views(rows@)[i as int] == rows[i as int]@);
            results.push(result_from_row(&mut cache, &self.test_items, &rows[i]));
            i += 1;
        }
        assert(views(results@) =~= results_found(self@, query@));
        results
    }

    /// The environments that test results were run in.
    pub fn get_environments(&self) -> (environments: Vec<String>)
        ensures
            views(environments@) == environments_of(self@.test_results),
    {
        let ghost all = self@.test_results;
        let mut environments: Vec<String> = Vec::new();
        let mut i: usize = 0;
        assert(all.take(0) =~= Seq::<TestResultDbView>::empty());
        assert(views(environments@) =~= Seq::<Seq<char>>::empty());
        while i < self.test_results.len()
            invariant
                i <= self.test_results.len(),
                all == self@.test_results,
                views(environments@) == environments_of(all.take(i as int)),
            decreases self.test_results.len() - i,
        {
            assert(all.take(i + 1).drop_last() =~= all.take(i as int));
            assert(all.take(i + 1).last() == self.test_results[i as int]@);
            match &self.test_results[i].environment {
                Some(e) => {
                    if !holds_text(&environments, e) {
                        let text = e.clone();
                        proof {
                            lemma_views_push(environments@, text);
                        }
                        environments.push(text);
                    }
                },
                None => {},
            }
            i += 1;
        }
        assert(all.take(i as int) =~= all);
        environments
    }
}

/// Whether a test item is selected by a query.
pub open spec fn selects_item(q: TestItemQueryView) -> spec_fn(TestItemDbView) -> bool {
    |row: TestItemDbView|
        {
            &&& q.parent_id is Some ==> Some(row.parent_id) == q.parent_id
            &&& q.id is Some ==> Some(row.id) == q.id
        }
}

/// The items directly below an item.
pub open spec fn child_of(id: Seq<char>) -> spec_fn(TestItemDbView) -> bool {
    |row: TestItemDbView| row.parent_id == id
}

/// The results of one test.
pub open spec fn result_of_test(id: Seq<char>) -> spec_fn(TestResultDbView) -> bool {
    |row: TestResultDbView| row.test_id == id
}

/// A result row as one of the latest results of a test item.
pub open spec fn latest_result(row: TestResultDbView, path: Seq<Seq<char>>, name: Seq<char>) -> TestResultView {
    TestResultView {
        test_id: row.test_id,
        path,
        name,
        trace_id: row.trace_id,
        date: row.date,
        status: status_of_i32(row.status),
        duration: row.duration,
        environment: row.environment,
        components_called: row.components_called,
        nb_spans: row.nb_spans,
        main_span: None,
    }
}

/// The children of an item by name.
pub open spec fn children_of(items: Seq<TestItemDbView>, id: Seq<char>) -> Seq<TestItemDbView> {
    sorted_by(items.filter(child_of(id)), order_of::<TestItemDb>())
}

/// The five latest results of a test.
pub open spec fn latest_rows(results: Seq<TestResultDbView>, id: Seq<char>) -> Seq<TestResultDbView> {
    prefix(
        sorted_by(results.filter(result_of_test(id)), order_of::<TestResultDb>()),
        LAST_RESULTS as nat,
    )
}

/// A test item with what the query asks to read with it.
pub open spec fn details_of(s: Store, q: TestItemQueryView, item: TestItemDbView) -> TestDetailsView {
    let path = if q.with_full_path {
        path_above(s.test_items, item.parent_id)
    } else {
        Seq::empty()
    };
    let rows = latest_rows(s.test_results, item.id);
    TestDetailsView {
        test_id: item.id,
        name: item.name,
        path: items_of(path),
        children: if q.with_children {
            items_of(children_of(s.test_items, item.id))
        } else {
            Seq::empty()
        },
        last_results: if q.with_traces {
            Seq::new(rows.len(), |k: int| latest_result(rows[k], names_of(path), item.name))
        } else {
            Seq::empty()
        },
    }
}

/// The test items that a query returns, by name.
pub open spec fn items_found(s: Store, q: TestItemQueryView) -> Seq<TestDetailsView> {
    let rows = sorted_by(s.test_items.filter(selects_item(q)), order_of::<TestItemDb>());
    Seq::new(rows.len(), |k: int| details_of(s, q, rows[k]))
}

impl DbExecutor {
    fn read_children(&self, id: &String) -> (children: Vec<TestItemDb>)
        ensures
            views(children@) == children_of(self@.test_items, id@),
    {
        let mut keep: Vec<bool> = Vec::new();
        let mut i: usize = 0;
        while i < self.test_items.len()
            invariant
                i <= self.test_items.len(),
                keep.len() == i,
                forall|k: int|
                    0 <= k < i ==> keep[k] == child_of(id@)(#[trigger] self.test_items[k]@),
            decreases self.test_items.len() - i,
        {
            keep.push(self.test_items[i].parent_id == *id);
            i += 1;
        }
        let kept = keep_where(&self.test_items, &keep, Ghost(child_of(id@)));
        sort_rows(&kept)
    }

    fn read_latest_rows(&self, id: &String) -> (rows: Vec<TestResultDb>)
        ensures
            views(rows@) == latest_rows(self@.test_results, id@),
    {
        let mut keep: Vec<bool> = Vec::new();
        let mut i: usize = 0;
        while i < self.test_results.len()
            invariant
                i <= self.test_results.len(),
                keep.len() == i,
                forall|k: int|
                    0 <= k < i ==> keep[k] == result_of_test(id@)(
                        #[trigger] self.test_results[k]@,
                    ),
            decreases self.test_results.len() - i,
        {
            keep.push(self.test_results[i].test_id == *id);
            i += 1;
        }
        let kept = keep_where(&self.test_results, &keep, Ghost(result_of_test(id@)));
        let sorted = sort_rows(&kept);
        first_rows(&sorted, LAST_RESULTS)
    }

    /// A test item with what the query asks to read with it.
    pub fn read_details(&self, cache: &mut Cacher<TestItemDb>, query: &TestItemQuery, item: &TestItemDb) -> (details:
        TestDetails)
        requires
            remembers(old(cache)@, self@.test_items),
        ensures
            remembers(final(cache)@, self@.test_items),
            details@ == details_of(self@, query@, item@),
    {
        let above = if query.with_full_path {
            read_path_above(cache, &self.test_items, &item.parent_id)
        } else {
            let none: Vec<TestItemDb> = Vec::new();
            assert(views(none@) =~= Seq::<TestItemDbView>::empty());
            none
        };
        let children = if query.with_children {
            let rows = self.read_children(&item.id);
            items_from(&rows)
        } else {
            let none: Vec<TestItem> = Vec::new();
            assert(views(none@) =~= Seq::<TestItemView>::empty());
            none
        };
        let mut last_results: Vec<TestResult> = Vec::new();
        if query.with_traces {
            let rows = self.read_latest_rows(&item.id);
            let mut i: usize = 0;
            while i < rows.len()
                invariant
                    i <= rows.len(),
                    last_results.len() == i,
                    forall|k: int|
                        0 <= k < i ==> last_results[k]@ == latest_result(
                            rows[k]@,
                            names_of(views(above@)),
                            item@.name,
                        ),
                decreases rows.len() - i,
            {
                let row = &rows[i];
                last_results.push(
                    TestResult {
                        test_id: row.test_id.clone(),
                        path: names_from(&above),
                        name: item.name.clone(),
                        date: row.date,
                        duration: row.duration,
                        environment: clone_opt_string(&row.environment),
                        status: TestStatus::from(row.status),
                        trace_id: row.trace_id.clone(),
                        components_called: clone_counts(&row.components_called),
                        nb_spans: row.nb_spans,
                        main_span: None,
                    },
                );
                i += 1;
            }
            assert(views(last_results@) =~= details_of(self@, query@, item@).last_results);
        } else {
            assert(views(last_results@) =~= Seq::<TestResultView>::empty());
        }
        TestDetails {
            children,
            last_results,
            name: item.name.clone(),
            path: items_from(&above),
            test_id: item.id.clone(),
        }
    }

    /// The test items that a query asks for.
    pub fn get_test_items(&self, query: &TestItemQuery) -> (items: Vec<TestDetails>)
        ensures
            views(items@) == items_found(self@, query@),
    {
        let mut keep: Vec<bool> = Vec::new();
        let mut i: usize = 0;
        while i < self.test_items.len()
            invariant
                i <= self.test_items.len(),
                keep.len() == i,
                forall|k: int|
                    0 <= k < i ==> keep[k] == selects_item(query@)(#[trigger] self.test_items[k]@),
            decreases self.test_items.len() - i,
        {
            let of_parent = match &query.parent_id {
                Some(p) => self.test_items[i].parent_id == *p,
                None => true,
            };
            let wanted = match &query.id {
                Some(id) => self.test_items[i].id == *id,
                None => true,
            };
            keep.push(of_parent && wanted);
            i += 1;
        }
        let kept = keep_where(&self.test_items, &keep, Ghost(selects_item(query@)));
        let rows = sort_rows(&kept);
        let mut cache: Cacher<TestItemDb> = Cacher::new();
        let mut items: Vec<TestDetails> = Vec::new();
        let mut j: usize = 0;
        while j < rows.len()
            invariant
                j <= rows.len(),
                items.len() == j,
                remembers(cache@, self@.test_items),
                forall|k: int| 0 <= k < j ==> items[k]@ == details_of(self@, query@, rows[k]@),
            decreases rows.len() - j,
        {
            items.push(self.read_details(&mut cache, query, &rows[j]));
            j += 1;
        }
        assert(views(items@) =~= items_found(self@, query@));
        items
    }
}

} // verus!
