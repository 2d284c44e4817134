//! Saving a test result: the test items on its path are found or
//! created, the result row is written, and older kept results of the
//! same test give up their place.

use vstd::prelude::*;
use vstd::std_specs::convert::FromSpecImpl;
use crate::db::invariants::well_formed;
use crate::db::laws::lemma_saved_test_result_well_formed;
use crate::db::schema::{
    DbExecutor, Store, TestItemDb, TestItemDbView, TestResultDb, TestResultDbView,
};
use crate::engine::{all_uuids, is_uuid_v4, new_uuid};
use crate::engine::test_result::{
    clone_counts, status_as_int, TestResult, TestResultView, TestStatus,
};
use crate::seqs::{first_where, lemma_first_where_at, lemma_first_where_none};
use crate::text::{clone_opt_string, lemma_views_push, lemma_views_update, opt_view, views};

verus! {

/// Where a test result stands in its retention: with its spans, marked
/// important, kept as the latest success, or reduced to a shell.
#[derive(Debug, Clone, Copy, PartialEq, Eq, Structural)]
pub enum ResultCleanupStatus {
    WithData,
    Important,
    ToKeep,
    Shell,
}

/// The number a cleanup status is stored as. The numbers say nothing
/// about the order of the states.
pub open spec fn cleanup_as_int(s: ResultCleanupStatus) -> int {
    match s {
        ResultCleanupStatus::WithData => 0,
        ResultCleanupStatus::Important => 1,
        ResultCleanupStatus::Shell => 2,
        ResultCleanupStatus::ToKeep => 3,
    }
}

/// The cleanup status a stored number stands for; an unknown number
/// counts as `WithData`.
pub open spec fn cleanup_of_i32(v: i32) -> ResultCleanupStatus {
    if v == 1 {
        ResultCleanupStatus::Important
    } else if v == 2 {
        ResultCleanupStatus::Shell
    } else if v == 3 {
        ResultCleanupStatus::ToKeep
    } else {
        ResultCleanupStatus::WithData
    }
}

/// `WithData` as it is stored.
pub const WITH_DATA: i32 = 0;

/// `Shell` as it is stored.
pub const SHELL: i32 = 2;

/// `ToKeep` as it is stored.
pub const TO_KEEP: i32 = 3;

impl ResultCleanupStatus {
    /// The number the status is stored as.
    pub fn as_i32(&self) -> (v: i32)
        ensures
            v == cleanup_as_int(*self),
    {
        match self {
            ResultCleanupStatus::WithData => 0,
            ResultCleanupStatus::Important => 1,
            ResultCleanupStatus::Shell => 2,
            ResultCleanupStatus::ToKeep => 3,
        }
    }
}

impl From<i32> for ResultCleanupStatus {
    fn from(v: i32) -> (s: ResultCleanupStatus) {
        if v == 1 {
            ResultCleanupStatus::Important
        } else if v == 2 {
            ResultCleanupStatus::Shell
        } else if v == 3 {
            ResultCleanupStatus::ToKeep
        } else {
            ResultCleanupStatus::WithData
        }
    }
}

impl FromSpecImpl<i32> for ResultCleanupStatus {
    open spec fn obeys_from_spec() -> bool {
        true
    }

    open spec fn from_spec(v: i32) -> ResultCleanupStatus {
        cleanup_of_i32(v)
    }
}

/// A cleanup status survives being stored as a number.
pub proof fn lemma_cleanup_number_round_trip(s: ResultCleanupStatus)
    ensures
        cleanup_of_i32(cleanup_as_int(s) as i32) == s,
{
}

/// The parent of the top level test items.
pub open spec fn root_id() -> Seq<char> {
    "root"@
}

/// The item with the given parent, name and source.
pub open spec fn item_index(
    items: Seq<TestItemDbView>,
    parent_id: Seq<char>,
    name: Seq<char>,
    source: i32,
) -> Option<int> {
    first_where(
        items,
        |row: TestItemDbView| row.name == name && row.source == source && row.parent_id == parent_id,
    )
}

/// Whether a test item has the identifier.
pub open spec fn has_item_id(items: Seq<TestItemDbView>, id: Seq<char>) -> bool {
    first_where(items, |row: TestItemDbView| row.id == id) is Some
}

/// The item table after an item was resolved, and the identifier it
/// resolved to. An item with the same parent, name and source is reused.
/// Otherwise the item is added under `new_id`; if that identifier is
/// taken, nothing is added and the item stays unresolved.
pub open spec fn with_test_item(items: Seq<TestItemDbView>, item: TestItemDbView, new_id: Seq<char>) -> (
    Seq<TestItemDbView>,
    Option<Seq<char>>,
) {
    match item_index(items, item.parent_id, item.name, item.source) {
        Some(i) => (items, Some(items[i].id)),
        None => if has_item_id(items, new_id) {
            (items, None)
        } else {
            (items.push(TestItemDbView { id: new_id, ..item }), Some(new_id))
        },
    }
}

/// The item table after the items of a path were resolved one below the
/// other, starting under `parent`, and the identifier of the last one.
/// The walk stops where an item stays unresolved.
pub open spec fn with_test_path(
    items: Seq<TestItemDbView>,
    parent: Seq<char>,
    names: Seq<Seq<char>>,
    ids: Seq<Seq<char>>,
) -> (Seq<TestItemDbView>, Option<Seq<char>>)
    decreases names.len(),
{
    if names.len() == 0 {
        (items, Some(parent))
    } else {
        let above = with_test_path(items, parent, names.drop_last(), ids.drop_last());
        match above.1 {
            Some(p) => with_test_item(
                above.0,
                TestItemDbView { id: "n/a"@, parent_id: p, name: names.last(), source: 0 },
                ids.last(),
            ),
            None => above,
        }
    }
}

/// Whether a test has a kept result of another trace that is dated as
/// late as `date` or later.
pub open spec fn has_later_kept(
    results: Seq<TestResultDbView>,
    test_id: Seq<char>,
    trace_id: Seq<char>,
    date: i64,
) -> bool {
    exists|k: int|
        0 <= k < results.len() && (#[trigger] results[k]).test_id == test_id
            && results[k].cleanup_status == TO_KEEP && results[k].trace_id != trace_id
            && results[k].date >= date
}

/// The cleanup status a new result starts with: a success is kept as
/// the latest success of its test, unless the test has a kept result
/// that is as late or later; any other result is held with its data.
pub open spec fn first_cleanup_status(
    results: Seq<TestResultDbView>,
    tr: TestResultView,
    test_id: Seq<char>,
) -> i32 {
    if tr.status == TestStatus::Success && !has_later_kept(results, test_id, tr.trace_id, tr.date) {
        TO_KEEP
    } else {
        WITH_DATA
    }
}

/// The row of a test result under the test item it belongs to, in a
/// table that holds `results`.
pub open spec fn result_row(
    results: Seq<TestResultDbView>,
    tr: TestResultView,
    test_id: Seq<char>,
) -> TestResultDbView {
    TestResultDbView {
        test_id,
        trace_id: tr.trace_id,
        date: tr.date,
        status: status_as_int(tr.status) as i32,
        duration: tr.duration,
        environment: tr.environment,
        components_called: tr.components_called,
        nb_spans: tr.nb_spans,
        cleanup_status: first_cleanup_status(results, tr, test_id),
    }
}

/// The row with the key `(test_id, trace_id)`.
pub open spec fn result_index(
    results: Seq<TestResultDbView>,
    test_id: Seq<char>,
    trace_id: Seq<char>,
) -> Option<int> {
    first_where(results, |row: TestResultDbView| row.test_id == test_id && row.trace_id == trace_id)
}

/// A row after a result of `test_id` dated `date` came in: a kept row of
/// the same test with an earlier date goes back to `WithData`.
pub open spec fn demoted(row: TestResultDbView, test_id: Seq<char>, date: i64) -> TestResultDbView {
    if row.cleanup_status == TO_KEEP && row.test_id == test_id && row.date < date {
        TestResultDbView { cleanup_status: WITH_DATA, ..row }
    } else {
        row
    }
}

/// The result table after a result row was written: the row replaces the
/// one with its key or is added, then earlier kept rows of the test are
/// demoted.
pub open spec fn with_test_result(results: Seq<TestResultDbView>, row: TestResultDbView) -> Seq<
    TestResultDbView,
> {
    let written = match result_index(results, row.test_id, row.trace_id) {
        Some(i) => results.update(i, row),
        None => results.push(row),
    };
    Seq::new(written.len(), |k: int| demoted(written[k], row.test_id, row.date))
}

/// The store after a test result was saved, and the identifier of its
/// test item. Where an item of the path stays unresolved no result row is
/// written.
pub open spec fn saved_test_result(s: Store, tr: TestResultView, ids: Seq<Seq<char>>) -> (
    Store,
    Option<Seq<char>>,
) {
    let items = with_test_path(s.test_items, root_id(), tr.path.push(tr.name), ids);
    match items.1 {
        Some(test_id) => (
            Store {
                test_items: items.0,
                test_results: with_test_result(
                    s.test_results,
                    result_row(s.test_results, tr, test_id),
                ),
                ..s
            },
            Some(test_id),
        ),
        None => (Store { test_items: items.0, ..s }, None),
    }
}

fn find_item_index(items: &Vec<TestItemDb>, item: &TestItemDb) -> (r: Option<usize>)
    ensures
        match r {
            Some(i) => item_index(views(items@), item@.parent_id, item@.name, item@.source) == Some(
                i as int,
            ) && i < items.len(),
            None => item_index(views(items@), item@.parent_id, item@.name, item@.source) is None,
        },
{
    let mut i: usize = 0;
    while i < items.len()
        invariant
            i <= items.len(),
            forall|k: int|
                0 <= k < i ==> !(views(items@)[k].name == item@.name && views(items@)[k].source
                    == item@.source && views(items@)[k].parent_id == item@.parent_id),
        decreases items.len() - i,
    {
        if items[i].name == item.name && items[i].source == item.source && items[i].parent_id
            == item.parent_id {
            proof {
                lemma_first_where_at(
                    views(items@),
                    |row: TestItemDbView|
                        row.name == item@.name && row.source == item@.source && row.parent_id
                            == item@.parent_id,
                    i as int,
                );
            }
            return Some(i);
        }
        i += 1;
    }
    proof {
        lemma_first_where_none(
            views(items@),
            |row: TestItemDbView|
                row.name == item@.name && row.source == item@.source && row.parent_id
                    == item@.parent_id,
        );
    }
    None
}

fn item_id_taken(items: &Vec<TestItemDb>, id: &String) -> (r: bool)
    ensures
        r == has_item_id(views(items@), id@),
{
    let mut i: usize = 0;
    while i < items.len()
        invariant
            i <= items.len(),
            forall|k: int| 0 <= k < i ==> views(items@)[k].id != id@,
        decreases items.len() - i,
    {
        if items[i].id == *id {
            proof {
                lemma_first_where_at(views(items@), |row: TestItemDbView| row.id == id@, i as int);
            }
            return true;
        }
        i += 1;
    }
    proof {
        lemma_first_where_none(views(items@), |row: TestItemDbView| row.id == id@);
    }
    false
}

fn find_result_index(results: &Vec<TestResultDb>, test_id: &String, trace_id: &String) -> (r:
    Option<usize>)
    ensures
        match r {
            Some(i) => result_index(views(results@), test_id@, trace_id@) == Some(i as int) && i
                < results.len(),
            None => result_index(views(results@), test_id@, trace_id@) is None,
        },
{
    let mut i: usize = 0;
    while i < results.len()
        invariant
            i <= results.len(),
            forall|k: int|
                0 <= k < i ==> !(views(results@)[k].test_id == test_id@ && views(
                    results@,
                )[k].trace_id == trace_id@),
        decreases results.len() - i,
    {
        if results[i].test_id == *test_id && results[i].trace_id == *trace_id {
            proof {
                lemma_first_where_at(
                    views(results@),
                    |row: TestResultDbView| row.test_id == test_id@ && row.trace_id == trace_id@,
                    i as int,
                );
            }
            return Some(i);
        }
        i += 1;
    }
    proof {
        lemma_first_where_none(
            views(results@),
            |row: TestResultDbView| row.test_id == test_id@ && row.trace_id == trace_id@,
        );
    }
    None
}

fn later_kept(results: &Vec<TestResultDb>, test_id: &String, trace_id: &String, date: i64) -> (r:
    bool)
    ensures
        r == has_later_kept(views(results@), test_id@, trace_id@, date),
{
    let mut i: usize = 0;
    while i < results.len()
        invariant
            i <= results.len(),
            forall|k: int|
                0 <= k < i ==> !((#[trigger] views(results@)[k]).test_id == test_id@ && views(
                    results@,
                )[k].cleanup_status == TO_KEEP && views(results@)[k].trace_id != trace_id@
                    && views(results@)[k].date >= date),
        decreases results.len() - i,
    {
        if results[i].test_id == *test_id && results[i].cleanup_status == TO_KEEP
            && results[i].trace_id != *trace_id && results[i].date >= date {
            assert(views(results@)[i as int].test_id == test_id@);
            return true;
        }
        i += 1;
    }
    false
}

fn write_test_result(results: &mut Vec<TestResultDb>, row: TestResultDb)
    ensures
        views(final(results)@) == with_test_result(views(old(results)@), row@),
{
    let test_id = row.test_id.clone();
    let date: i64 = row.date;
    let ghost shown = row@;
    match find_result_index(results, &row.test_id, &row.trace_id) {
        Some(i) => {
            proof {
                lemma_views_update(results@, i as int, row);
            }
            results.set(i, row);
        },
        None => {
            proof {
                lemma_views_push(results@, row);
            }
            results.push(row);
        },
    }
    let ghost written = views(results@);
    let mut k: usize = 0;
    while k < results.len()
        invariant
            k <= results.len(),
            results.len() == written.len(),
            test_id@ == shown.test_id,
            date == shown.date,
            forall|j: int| 0 <= j < k ==> views(results@)[j] == demoted(written[j], shown.test_id, shown.date),
            forall|j: int| k <= j < results.len() ==> views(results@)[j] == written[j],
        decreases results.len() - k,
    {
        if results[k].cleanup_status == TO_KEEP && results[k].test_id == test_id && results[k].date
            < date {
            let mut updated = results[k].clone();
            updated.cleanup_status = WITH_DATA;
            proof {
                lemma_views_update(results@, k as int, updated);
            }
            results.set(k, updated);
        }
        k += 1;
    }
    assert(views(results@) =~= with_test_result(views(old(results)@), shown));
}

impl DbExecutor {
    /// The first test item with the parent, name and source of `item`.
    pub fn find_test_item(&self, item: &TestItemDb) -> (r: Option<TestItemDb>)
        ensures
            opt_view(r) == match item_index(
                self@.test_items,
                item@.parent_id,
                item@.name,
                item@.source,
            ) {
                Some(i) => Some(self@.test_items[i]),
                None => None,
            },
    {
        match find_item_index(&self.test_items, item) {
            Some(i) => Some(self.test_items[i].clone()),
            None => None,
        }
    }

    /// Resolves a test item to its identifier, adding it under `new_id`
    /// when the tree does not hold it yet.
    pub fn find_test_or_insert_with_id(&mut self, item: &TestItemDb, new_id: String) -> (r: Option<
        String,
    >)
        ensures
            final(self)@ == (Store {
                test_items: with_test_item(old(self)@.test_items, item@, new_id@).0,
                ..old(self)@
            }),
            opt_view(r) == with_test_item(old(self)@.test_items, item@, new_id@).1,
    {
        match find_item_index(&self.test_items, item) {
            Some(i) => Some(self.test_items[i].id.clone()),
            None => {
                if item_id_taken(&self.test_items, &new_id) {
                    None
                } else {
                    let row = TestItemDb {
                        id: new_id.clone(),
                        parent_id: item.parent_id.clone(),
                        name: item.name.clone(),
                        source: item.source,
                    };
                    proof {
                        lemma_views_push(self.test_items@, row);
                    }
                    self.test_items.push(row);
                    Some(new_id)
                }
            },
        }
    }

    /// Resolves a test item to its identifier; an item that has to be
    /// added gets a fresh identifier.
    pub fn find_test_or_insert(&mut self, item: &TestItemDb) -> (r: Option<String>)
        ensures
            exists|new_id: Seq<char>|
                {
                    &&& is_uuid_v4(new_id)
                    &&& final(self)@ == (Store {
                        test_items: with_test_item(old(self)@.test_items, item@, new_id).0,
                        ..old(self)@
                    })
                    &&& opt_view(r) == with_test_item(old(self)@.test_items, item@, new_id).1
                },
    {
        let new_id = new_uuid();
        self.find_test_or_insert_with_id(item, new_id)
    }

    /// Saves a test result under the test item that its path and name
    /// lead to, and hands it back with the item's identifier. `ids` gives
    /// one identifier for each item of the path and one for the test
    /// itself, for the items that have to be added. Returns `None`, and
    /// writes no result, where one of these identifiers is already taken.
    pub fn save_test_result_with_ids(&mut self, msg: TestResult, ids: &Vec<String>) -> (r: Option<
        TestResult,
    >)
        requires
            ids.len() == msg.path.len() + 1,
        ensures
            final(self)@ == saved_test_result(old(self)@, msg@, views(ids@)).0,
            match r {
                Some(saved) => saved_test_result(old(self)@, msg@, views(ids@)).1 == Some(
                    saved@.test_id,
                ) && saved@ == (TestResultView { test_id: saved@.test_id, ..msg@ }),
                None => saved_test_result(old(self)@, msg@, views(ids@)).1 is None,
            },
            well_formed(old(self)@) ==> well_formed(final(self)@),
    {
        proof {
            if well_formed(old(self)@) {
                lemma_saved_test_result_well_formed(old(self)@, msg@, views(ids@));
            }
        }
        let ghost names = msg@.path.push(msg@.name);
        let ghost all_ids = views(ids@);
        let ghost start = self@;
        let mut parent_id = "root".to_string();
        let mut i: usize = 0;
        assert(names.take(0) =~= Seq::<Seq<char>>::empty());
        while i <= msg.path.len()
            invariant
                i <= msg.path.len() + 1,
                ids.len() == msg.path.len() + 1,
                names == msg@.path.push(msg@.name),
                all_ids == views(ids@),
                start == old(self)@,
                well_formed(start) ==> well_formed(saved_test_result(start, msg@, all_ids).0),
                self@ == (Store {
                    test_items: with_test_path(
                        start.test_items,
                        root_id(),
                        names.take(i as int),
                        all_ids.take(i as int),
                    ).0,
                    ..start
                }),
                with_test_path(
                    start.test_items,
                    root_id(),
                    names.take(i as int),
                    all_ids.take(i as int),
                ).1 == Some(parent_id@),
            decreases msg.path.len() + 1 - i,
        {
            assert(names.take(i + 1).drop_last() =~= names.take(i as int));
            assert(all_ids.take(i + 1).drop_last() =~= all_ids.take(i as int));
            assert(all_ids.take(i + 1).last() == ids[i as int]@);
            let name = if i < msg.path.len() {
                assert(names.take(i + 1).last() == msg.path[i as int]@);
                msg.path[i].clone()
            } else {
                assert(names.take(i + 1).last() == msg.name@);
                msg.name.clone()
            };
            let item = TestItemDb { id: "n/a".to_string(), parent_id, name, source: 0 };
            let ghost above = with_test_path(
                start.test_items,
                root_id(),
                names.take(i as int),
                all_ids.take(i as int),
            );
            assert(with_test_path(
                start.test_items,
                root_id(),
                names.take(i + 1),
                all_ids.take(i + 1),
            ) == with_test_item(above.0, item@, ids[i as int]@));
            match self.find_test_or_insert_with_id(&item, ids[i].clone()) {
                Some(id) => {
                    parent_id = id;
                },
                None => {
                    proof {
                        lemma_stuck_path_stays_stuck(
                            start.test_items,
                            names,
                            all_ids,
                            i as int + 1,
                        );
                    }
                    return None;
                },
            }
            i += 1;
        }
        assert(names.take(i as int) =~= names);
        assert(all_ids.take(i as int) =~= all_ids);
        let row = TestResultDb {
            test_id: parent_id.clone(),
            trace_id: msg.trace_id.clone(),
            date: msg.date,
            status: msg.status.as_i32(),
            duration: msg.duration,
            environment: clone_opt_string(&msg.environment),
            components_called: clone_counts(&msg.components_called),
            nb_spans: msg.nb_spans,
            cleanup_status: match msg.status {
                TestStatus::Success => if later_kept(
                    &self.test_results,
                    &parent_id,
                    &msg.trace_id,
                    msg.date,
                ) {
                    WITH_DATA
                } else {
                    TO_KEEP
                },
                _ => WITH_DATA,
            },
        };
        write_test_result(&mut self.test_results, row);
        let mut saved = msg;
        saved.test_id = parent_id;
        Some(saved)
    }

    /// Saves a test result under the test item that its path and name
    /// lead to, and hands it back with the item's identifier. Items that
    /// have to be added get fresh identifiers.
    pub fn save_test_result(&mut self, msg: TestResult) -> (r: Option<TestResult>)
        ensures
            exists|ids: Seq<Seq<char>>|
                {
                    &&& ids.len() == msg@.path.len() + 1
                    &&& all_uuids(ids)
                    &&& final(self)@ == saved_test_result(old(self)@, msg@, ids).0
                    &&& match r {
                        Some(saved) => saved_test_result(old(self)@, msg@, ids).1 == Some(
                            saved@.test_id,
                        ) && saved@ == (TestResultView { test_id: saved@.test_id, ..msg@ }),
                        None => saved_test_result(old(self)@, msg@, ids).1 is None,
                    }
                },
            well_formed(old(self)@) ==> well_formed(final(self)@),
    {
        let mut ids: Vec<String> = Vec::new();
        let mut i: usize = 0;
        while i < msg.path.len()
            invariant
                i <= msg.path.len(),
                ids.len() == i,
                forall|k: int| 0 <= k < ids.len() ==> is_uuid_v4(#[trigger] ids[k]@),
            decreases msg.path.len() - i,
        {
            ids.push(new_uuid());
            i += 1;
        }
        ids.push(new_uuid());
        let ghost shown = views(ids@);
        assert forall|k: int| 0 <= k < shown.len() implies is_uuid_v4(#[trigger] shown[k]) by {
            assert(shown[k] == ids[k]@);
        }
        let r = self.save_test_result_with_ids(msg, &ids);
        assert(shown.len() == msg@.path.len() + 1 && all_uuids(shown));
        r
    }
}

/// Once an item of a path stays unresolved, so does every longer walk.
pub proof fn lemma_stuck_path_stays_stuck(
    items: Seq<TestItemDbView>,
    names: Seq<Seq<char>>,
    ids: Seq<Seq<char>>,
    n: int,
)
    requires
        0 <= n <= names.len(),
        ids.len() == names.len(),
        with_test_path(items, root_id(), names.take(n), ids.take(n)).1 is None,
    ensures
        with_test_path(items, root_id(), names, ids) == with_test_path(
            items,
            root_id(),
            names.take(n),
            ids.take(n),
        ),
    decreases names.len() - n,
{
    if n < names.len() {
        assert(names.take(n + 1).drop_last() =~= names.take(n));
        assert(ids.take(n + 1).drop_last() =~= ids.take(n));
        lemma_stuck_path_stays_stuck(items, names, ids, n + 1);
    } else {
        assert(names.take(n) =~= names);
        assert(ids.take(n) =~= ids);
    }
}

} // verus!
