//! Test items and test results as the test endpoints take and give them.

use vstd::prelude::*;
use crate::api::errors::IkError;
use crate::db::read::test::{
    items_found, result_query_of, results_found, TestItemQuery, TestItemQueryView, TestResultQuery,
};
use crate::db::read::test::environments_of;
use crate::db::schema::DbExecutor;
use crate::db::update::test::root_id;
use crate::engine::test_result::{TestResult, TestResultView, TestStatus};
use crate::text::views;

verus! {

/// A node of the test tree, by identifier and name.
#[derive(Debug)]
pub struct TestItem {
    pub id: String,
    pub name: String,
}

pub ghost struct TestItemView {
    pub id: Seq<char>,
    pub name: Seq<char>,
}

impl View for TestItem {
    type V = TestItemView;

    open spec fn view(&self) -> TestItemView {
        TestItemView { id: self.id@, name: self.name@ }
    }
}

impl Clone for TestItem {
    fn clone(&self) -> (r: Self)
        ensures
            r@ == self@,
    {
        TestItem { id: self.id.clone(), name: self.name.clone() }
    }
}

/// The query parameters of the test result endpoint. `ts` and `lookback`
/// are in milliseconds.
#[derive(Debug)]
pub struct TestResultsQueryParams {
    pub trace_id: Option<String>,
    pub status: Option<TestStatus>,
    pub test_id: Option<String>,
    pub environment: Option<String>,
    pub min_duration: Option<i64>,
    pub max_duration: Option<i64>,
    pub ts: Option<i64>,
    pub lookback: Option<i64>,
    pub limit: Option<i64>,
}

/// A test item with its place in the tree and its latest results.
#[derive(Debug)]
pub struct TestDetails {
    pub test_id: String,
    pub name: String,
    pub path: Vec<TestItem>,
    pub children: Vec<TestItem>,
    pub last_results: Vec<TestResult>,
}

pub ghost struct TestDetailsView {
    pub test_id: Seq<char>,
    pub name: Seq<char>,
    pub path: Seq<TestItemView>,
    pub children: Seq<TestItemView>,
    pub last_results: Seq<TestResultView>,
}

impl View for TestDetails {
    type V = TestDetailsView;

    open spec fn view(&self) -> TestDetailsView {
        TestDetailsView {
            test_id: self.test_id@,
            name: self.name@,
            path: views(self.path@),
            children: views(self.children@),
            last_results: views(self.last_results@),
        }
    }
}

/// The test results that the parameters of a request ask for, at the
/// time `now`.
pub fn get_test_results_at(db: &DbExecutor, params: TestResultsQueryParams, now: i64) -> (results:
    Vec<TestResult>)
    ensures
        views(results@) == results_found(db@, result_query_of(params, now)),
{
    db.get_test_results(&TestResultQuery::from_params_at(params, now))
}

/// The test results that the parameters of a request ask for, as of now.
pub fn get_test_results(db: &DbExecutor, params: TestResultsQueryParams) -> (results: Vec<
    TestResult,
>)
    ensures
        exists|now: i64|
            views(results@) == results_found(db@, #[trigger] result_query_of(params, now)),
{
    let now = crate::engine::now_micros();
    let results = get_test_results_at(db, params, now);
    assert(views(results@) == results_found(db@, result_query_of(params, now)));
    results
}

/// The query behind the details of a test: the top level items for
/// `root`, the item itself for any other identifier, each with its path,
/// its children and its latest results.
pub open spec fn test_query(test_id: Seq<char>) -> TestItemQueryView {
    TestItemQueryView {
        id: if test_id == root_id() {
            None
        } else {
            Some(test_id)
        },
        parent_id: if test_id == root_id() {
            Some(root_id())
        } else {
            None
        },
        with_full_path: true,
        with_children: true,
        with_traces: true,
    }
}

/// The query for the items below a parent, each with its path, its
/// children and its latest results.
pub open spec fn children_query(parent_id: Seq<char>) -> TestItemQueryView {
    TestItemQueryView {
        id: None,
        parent_id: Some(parent_id),
        with_full_path: true,
        with_children: true,
        with_traces: true,
    }
}

/// Several test items shown as one: the root, with the items as its children.
pub open spec fn as_root(items: Seq<TestDetailsView>) -> TestDetailsView {
    TestDetailsView {
        test_id: root_id(),
        name: Seq::empty(),
        path: Seq::empty(),
        children: Seq::new(
            items.len(),
            |k: int| TestItemView { id: items[k].test_id, name: items[k].name },
        ),
        last_results: Seq::empty(),
    }
}

/// What is said where no test item is selected.
pub open spec fn test_not_found() -> Seq<char> {
    "testId not found"@
}

/// What is said where the path names no test.
pub open spec fn missing_test_id() -> Seq<char> {
    "missing testId path parameter"@
}

/// What is said where the request names no parent.
pub open spec fn missing_parent_id() -> Seq<char> {
    "missing parentId query parameter"@
}

/// What the details of a test answer with: a bad request without an
/// identifier, not found where no item is selected, the item where one
/// is, and the root with the items as children where there are several.
pub open spec fn test_answer(found: Seq<TestDetailsView>) -> Option<TestDetailsView> {
    if found.len() == 0 {
        None
    } else if found.len() == 1 {
        Some(found[0])
    } else {
        Some(as_root(found))
    }
}

/// The details of a test, or of the top of the tree for `root`.
pub fn get_test(db: &DbExecutor, test_id: Option<String>) -> (r: Result<TestDetails, IkError>)
    ensures
        match r {
            Ok(details) => test_id is Some && test_answer(
                items_found(db@, test_query(test_id->0@)),
            ) == Some(details@),
            Err(IkError::NotFound(msg)) => test_id is Some && test_answer(
                items_found(db@, test_query(test_id->0@)),
            ) is None && msg@ == test_not_found(),
            Err(IkError::BadRequest(msg)) => test_id is None && msg@ == missing_test_id(),
            Err(IkError::InternalError) => false,
        },
{
    let id = match test_id {
        Some(id) => id,
        None => {
            return Err(IkError::BadRequest("missing testId path parameter".to_string()));
        },
    };
    let query = if id.as_str().eq("root") {
        TestItemQuery {
            id: None,
            parent_id: Some("root".to_string()),
            with_children: true,
            with_full_path: true,
            with_traces: true,
        }
    } else {
        TestItemQuery {
            id: Some(id),
            parent_id: None,
            with_children: true,
            with_full_path: true,
            with_traces: true,
        }
    };
    let mut res = db.get_test_items(&query);
    assert(views(res@).len() == res.len());
    if res.len() == 0 {
        Err(IkError::NotFound("testId not found".to_string()))
    } else if res.len() == 1 {
        let ghost found = res@;
        let only = res.remove(0);
        assert(views(found)[0] == only@);
        Ok(only)
    } else {
        let mut children: Vec<TestItem> = Vec::new();
        let mut i: usize = 0;
        while i < res.len()
            invariant
                i <= res.len(),
                children.len() == i,
                forall|k: int|
                    0 <= k < i ==> children[k]@ == (TestItemView {
                        id: res[k]@.test_id,
                        name: res[k]@.name,
                    }),
            decreases res.len() - i,
        {
            children.push(TestItem { name: res[i].name.clone(), id: res[i].test_id.clone() });
            i += 1;
        }
        let path: Vec<TestItem> = Vec::new();
        let last_results: Vec<TestResult> = Vec::new();
        let root = TestDetails {
            test_id: "root".to_string(),
            name: String::new(),
            path,
            children,
            last_results,
        };
        assert(root@.children =~= as_root(views(res@)).children);
        assert(root@.path =~= Seq::<TestItemView>::empty());
        assert(root@.last_results =~= Seq::<TestResultView>::empty());
        Ok(root)
    }
}

/// The test items below a parent.
pub fn get_tests_by_parent(db: &DbExecutor, parent_id: Option<String>) -> (r: Result<
    Vec<TestDetails>,
    IkError,
>)
    ensures
        match r {
            Ok(items) => parent_id is Some && items.len() > 0 && views(items@) == items_found(
                db@,
                children_query(parent_id->0@),
            ),
            Err(IkError::NotFound(msg)) => parent_id is Some && items_found(
                db@,
                children_query(parent_id->0@),
            ).len() == 0 && msg@ == test_not_found(),
            Err(IkError::BadRequest(msg)) => parent_id is None && msg@ == missing_parent_id(),
            Err(IkError::InternalError) => false,
        },
{
    match parent_id {
        Some(parent) => {
            let res = db.get_test_items(
                &TestItemQuery {
                    id: None,
                    parent_id: Some(parent),
                    with_children: true,
                    with_full_path: true,
                    with_traces: true,
                },
            );
            assert(views(res@).len() == res.len());
            if res.len() == 0 {
                Err(IkError::NotFound("testId not found".to_string()))
            } else {
                Ok(res)
            }
        },
        None => Err(IkError::BadRequest("missing parentId query parameter".to_string())),
    }
}

/// The environments that test results were run in.
pub fn get_environments(db: &DbExecutor) -> (environments: Vec<String>)
    ensures
        views(environments@) == environments_of(db@.test_results),
{
    db.get_environments()
}

} // verus!
