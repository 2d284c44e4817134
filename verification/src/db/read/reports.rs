//! Reading reports: the list with a summary of each, and one report
//! with the test results of its categories.

use vstd::prelude::*;
use crate::api::report::{Category, CategoryView, Report, ReportSummary, ReportView};
use crate::db::helper::Cacher;
use crate::db::read::test::{remembers, result_from_row, result_of_row};
use crate::db::schema::{
    DbExecutor, ReportDb, ReportDbView, Store, TestItemDb, TestResultDb, TestResultDbView,
    TestResultInReportDb, TestResultInReportDbView,
};
use crate::db::update::reports::report_index;
use crate::engine::test_result::{TestResult, TestResultView};
use crate::seqs::{
    keep_where, lemma_sorted_keeps_distinct, lemma_with_text_once, order_of, push_new,
    sort_rows, sorted_by, with_text,
};
use crate::text::{opt_string_eq, opt_view, views};

verus! {

/// The name under which the absence of an environment is shown and asked for.
pub open spec fn no_environment() -> Seq<char> {
    "None"@
}

/// The name under which an environment is shown.
pub open spec fn shown_environment(environment: Option<Seq<char>>) -> Seq<char> {
    match environment {
        Some(e) => e,
        None => no_environment(),
    }
}

/// The environments of the placements of a report, each once, in the
/// order in which they were first seen. No environment shows as `None`.
pub open spec fn seen_environments(placements: Seq<TestResultInReportDbView>, report_id: Seq<char>) -> Seq<
    Seq<char>,
>
    decreases placements.len(),
{
    if placements.len() == 0 {
        Seq::empty()
    } else {
        let before = seen_environments(placements.drop_last(), report_id);
        if placements.last().report_id == report_id {
            with_text(before, shown_environment(placements.last().environment))
        } else {
            before
        }
    }
}

/// The environments of a report in the order of texts.
pub open spec fn report_environments(placements: Seq<TestResultInReportDbView>, report_id: Seq<char>) -> Seq<
    Seq<char>,
> {
    sorted_by(seen_environments(placements, report_id), order_of::<String>())
}

/// The tests that have a placement with the status in a report, each once.
pub open spec fn tests_with_status(
    placements: Seq<TestResultInReportDbView>,
    report_id: Seq<char>,
    status: i32,
) -> Seq<Seq<char>>
    decreases placements.len(),
{
    if placements.len() == 0 {
        Seq::empty()
    } else {
        let before = tests_with_status(placements.drop_last(), report_id, status);
        if placements.last().report_id == report_id && placements.last().status == status {
            with_text(before, placements.last().test_id)
        } else {
            before
        }
    }
}

/// How many tests of a report have a placement of each status.
pub open spec fn summary_of(placements: Seq<TestResultInReportDbView>, report_id: Seq<char>) -> ReportSummary {
    ReportSummary {
        success: tests_with_status(placements, report_id, 0).len() as usize,
        failure: tests_with_status(placements, report_id, 1).len() as usize,
        skipped: tests_with_status(placements, report_id, 2).len() as usize,
    }
}

/// A report as the list of reports shows it.
pub open spec fn listed_report(s: Store, row: ReportDbView) -> ReportView {
    ReportView {
        name: row.name,
        group: row.folder,
        created_on: row.created_on,
        last_update: row.last_update,
        categories: None,
        environments: report_environments(s.placements, row.id),
        summary: Some(summary_of(s.placements, row.id)),
    }
}

/// The list of reports, the one that was updated last first.
pub open spec fn reports_listed(s: Store) -> Seq<ReportView> {
    let rows = sorted_by(s.reports, order_of::<ReportDb>());
    Seq::new(rows.len(), |k: int| listed_report(s, rows[k]))
}

/// The environment that a request asks for: no environment where it
/// names none or names `None`.
pub open spec fn asked_environment(environment: Option<Seq<char>>) -> Option<Seq<char>> {
    match environment {
        Some(e) => if e == no_environment() {
            None
        } else {
            Some(e)
        },
        None => None,
    }
}

/// The categories of the placements of a report, each once, in the
/// order in which they were first seen.
pub open spec fn seen_categories(placements: Seq<TestResultInReportDbView>, report_id: Seq<char>) -> Seq<
    Seq<char>,
>
    decreases placements.len(),
{
    if placements.len() == 0 {
        Seq::empty()
    } else {
        let before = seen_categories(placements.drop_last(), report_id);
        if placements.last().report_id == report_id {
            with_text(before, placements.last().category)
        } else {
            before
        }
    }
}

/// Whether a trace is placed in a category of a report under an environment.
pub open spec fn is_placed(
    placements: Seq<TestResultInReportDbView>,
    report_id: Seq<char>,
    category: Seq<char>,
    environment: Option<Seq<char>>,
    trace_id: Seq<char>,
) -> bool {
    exists|k: int|
        0 <= k < placements.len() && (#[trigger] placements[k]).report_id == report_id
            && placements[k].category == category && placements[k].environment == environment
            && placements[k].trace_id == trace_id
}

/// The results of an environment whose traces are placed in a category
/// of a report under that environment.
pub open spec fn in_category(
    placements: Seq<TestResultInReportDbView>,
    report_id: Seq<char>,
    category: Seq<char>,
    environment: Option<Seq<char>>,
) -> spec_fn(TestResultDbView) -> bool {
    |row: TestResultDbView|
        row.environment == environment && is_placed(
            placements,
            report_id,
            category,
            environment,
            row.trace_id,
        )
}

/// The test results of a category of a report under an environment:
/// the results of the traces that are placed there, the latest first.
pub open spec fn category_results(
    s: Store,
    report_id: Seq<char>,
    category: Seq<char>,
    environment: Option<Seq<char>>,
) -> Seq<TestResultView> {
    let rows = sorted_by(
        s.test_results.filter(in_category(s.placements, report_id, category, environment)),
        order_of::<TestResultDb>(),
    );
    Seq::new(rows.len(), |k: int| result_of_row(s.test_items, rows[k]))
}

/// No category is seen twice.
pub proof fn lemma_seen_categories_once(placements: Seq<TestResultInReportDbView>, report_id: Seq<char>)
    ensures
        seen_categories(placements, report_id).no_duplicates(),
        sorted_by(seen_categories(placements, report_id), order_of::<String>()).no_duplicates(),
    decreases placements.len(),
{
    if placements.len() > 0 {
        lemma_seen_categories_once(placements.drop_last(), report_id);
        lemma_with_text_once(
            seen_categories(placements.drop_last(), report_id),
            placements.last().category,
        );
    }
    let seen = seen_categories(placements, report_id);
    lemma_sorted_keeps_distinct(
        seen,
        order_of::<String>(),
        |a: Seq<char>, b: Seq<char>| a == b,
    );
}

/// A report with its categories, in the order of texts, and the test
/// results of each under the environment.
pub open spec fn full_report(s: Store, row: ReportDbView, environment: Option<Seq<char>>) -> ReportView {
    let categories = sorted_by(seen_categories(s.placements, row.id), order_of::<String>());
    ReportView {
        name: row.name,
        group: row.folder,
        created_on: row.created_on,
        last_update: row.last_update,
        categories: Some(
            Seq::new(
                categories.len(),
                |k: int|
                    CategoryView {
                        name: categories[k],
                        results: category_results(s, row.id, categories[k], environment),
                    },
            ),
        ),
        environments: report_environments(s.placements, row.id),
        summary: None,
    }
}

/// The report with the group and the name, if there is one, with the
/// test results of the environment that is asked for.
pub open spec fn report_found(
    s: Store,
    group: Seq<char>,
    name: Seq<char>,
    environment: Option<Seq<char>>,
) -> Option<ReportView> {
    match report_index(s.reports, group, name) {
        Some(i) => Some(full_report(s, s.reports[i], asked_environment(environment))),
        None => None,
    }
}

fn read_environments(placements: &Vec<TestResultInReportDb>, report_id: &String) -> (r: Vec<String>)
    ensures
        views(r@) == report_environments(views(placements@), report_id@),
{
    let ghost all = views(placements@);
    let mut seen: Vec<String> = Vec::new();
    let mut i: usize = 0;
    assert(all.take(0) =~= Seq::<TestResultInReportDbView>::empty());
    assert(views(seen@) =~= Seq::<Seq<char>>::empty());
    while i < placements.len()
        invariant
            i <= placements.len(),
            all == views(placements@),
            views(seen@) == seen_environments(all.take(i as int), report_id@),
        decreases placements.len() - i,
    {
        assert(all.take(i + 1).drop_last() =~= all.take(i as int));
        assert(all.take(i + 1).last() == placements[i as int]@);
        if placements[i].report_id == *report_id {
            match &placements[i].environment {
                Some(e) => {
                    push_new(&mut seen, e);
                },
                None => {
                    let none = "None".to_string();
                    push_new(&mut seen, &none);
                },
            }
        }
        i += 1;
    }
    assert(all.take(i as int) =~= all);
    sort_rows(&seen)
}

fn read_categories(placements: &Vec<TestResultInReportDb>, report_id: &String) -> (r: Vec<String>)
    ensures
        views(r@) == sorted_by(
            seen_categories(views(placements@), report_id@),
            order_of::<String>(),
        ),
        views(r@).no_duplicates(),
{
    proof {
        lemma_seen_categories_once(views(placements@), report_id@);
    }
    let ghost all = views(placements@);
    let mut seen: Vec<String> = Vec::new();
    let mut i: usize = 0;
    assert(all.take(0) =~= Seq::<TestResultInReportDbView>::empty());
    assert(views(seen@) =~= Seq::<Seq<char>>::empty());
    while i < placements.len()
        invariant
            i <= placements.len(),
            all == views(placements@),
            views(seen@) == seen_categories(all.take(i as int), report_id@),
        decreases placements.len() - i,
    {
        assert(all.take(i + 1).drop_last() =~= all.take(i as int));
        assert(all.take(i + 1).last() == placements[i as int]@);
        if placements[i].report_id == *report_id {
            push_new(&mut seen, &placements[i].category);
        }
        i += 1;
    }
    assert(all.take(i as int) =~= all);
    sort_rows(&seen)
}

fn count_tests(placements: &Vec<TestResultInReportDb>, report_id: &String, status: i32) -> (n: usize)
    ensures
        n == tests_with_status(views(placements@), report_id@, status).len(),
{
    let ghost all = views(placements@);
    let mut seen: Vec<String> = Vec::new();
    let mut i: usize = 0;
    assert(all.take(0) =~= Seq::<TestResultInReportDbView>::empty());
    assert(views(seen@) =~= Seq::<Seq<char>>::empty());
    while i < placements.len()
        invariant
            i <= placements.len(),
            all == views(placements@),
            views(seen@) == tests_with_status(all.take(i as int), report_id@, status),
        decreases placements.len() - i,
    {
        assert(all.take(i + 1).drop_last() =~= all.take(i as int));
        assert(all.take(i + 1).last() == placements[i as int]@);
        if placements[i].report_id == *report_id && placements[i].status == status {
            push_new(&mut seen, &placements[i].test_id);
        }
        i += 1;
    }
    assert(all.take(i as int) =~= all);
    assert(views(seen@).len() == seen.len());
    seen.len()
}

fn placed_there(
    placements: &Vec<TestResultInReportDb>,
    report_id: &String,
    category: &String,
    environment: &Option<String>,
    trace_id: &String,
) -> (r: bool)
    ensures
        r == is_placed(
            views(placements@),
            report_id@,
            category@,
            opt_view(*environment),
            trace_id@,
        ),
{
    let mut i: usize = 0;
    while i < placements.len()
        invariant
            i <= placements.len(),
            forall|k: int|
                0 <= k < i ==> !((#[trigger] views(placements@)[k]).report_id == report_id@
                    && views(placements@)[k].category == category@ && views(
                    placements@,
                )[k].environment == opt_view(*environment) && views(placements@)[k].trace_id
                    == trace_id@),
        decreases placements.len() - i,
    {
        if placements[i].report_id == *report_id && placements[i].category == *category
            && opt_string_eq(&placements[i].environment, environment) && placements[i].trace_id
            == *trace_id {
            assert(views(placements@)[i as int].report_id == report_id@);
            return true;
        }
        i += 1;
    }
    false
}

impl DbExecutor {
    /// The list of reports, each with its environments and a summary.
    pub fn get_all_reports(&self) -> (reports: Vec<Report>)
        ensures
            views(reports@) == reports_listed(self@),
    {
        let rows = sort_rows(&self.reports);
        let mut reports: Vec<Report> = Vec::new();
        let mut i: usize = 0;
        while i < rows.len()
            invariant
                i <= rows.len(),
                reports.len() == i,
                forall|k: int| 0 <= k < i ==> reports[k]@ == listed_report(self@, rows[k]@),
            decreases rows.len() - i,
        {
            let row = &rows[i];
            let summary = ReportSummary {
                success: count_tests(&self.placements, &row.id, 0),
                failure: count_tests(&self.placements, &row.id, 1),
                skipped: count_tests(&self.placements, &row.id, 2),
            };
            reports.push(
                Report {
                    name: row.name.clone(),
                    group: row.folder.clone(),
                    created_on: row.created_on,
                    last_update: row.last_update,
                    categories: None,
                    environments: read_environments(&self.placements, &row.id),
                    summary: Some(summary),
                },
            );
            i += 1;
        }
        assert(views(reports@) =~= reports_listed(self@));
        reports
    }

    fn read_category(
        &self,
        cache: &mut Cacher<TestItemDb>,
        report_id: &String,
        category: &String,
        environment: &Option<String>,
    ) -> (results: Vec<TestResult>)
        requires
            remembers(old(cache)@, self@.test_items),
        ensures
            remembers(final(cache)@, self@.test_items),
            views(results@) == category_results(
                self@,
                report_id@,
                category@,
                opt_view(*environment),
            ),
    {
        let ghost p = in_category(self@.placements, report_id@, category@, opt_view(*environment));
        let mut keep: Vec<bool> = Vec::new();
        let mut i: usize = 0;
        while i < self.test_results.len()
            invariant
                i <= self.test_results.len(),
                keep.len() == i,
                p == in_category(self@.placements, report_id@, category@, opt_view(*environment)),
                forall|k: int| 0 <= k < i ==> keep[k] == p(#[trigger] self.test_results[k]@),
            decreases self.test_results.len() - i,
        {
            let row = &self.test_results[i];
            keep.push(
                opt_string_eq(&row.environment, environment) && placed_there(
                    &self.placements,
                    report_id,
                    category,
                    environment,
                    &row.trace_id,
                ),
            );
            i += 1;
        }
        let kept = keep_where(&self.test_results, &keep, Ghost(p));
        let rows = sort_rows(&kept);
        let mut results: Vec<TestResult> = Vec::new();
        let mut j: usize = 0;
        while j < rows.len()
            invariant
                j <= rows.len(),
                results.len() == j,
                remembers(cache@, self@.test_items),
                forall|k: int|
                    0 <= k < j ==> results[k]@ == result_of_row(self@.test_items, rows[k]@),
            decreases rows.len() - j,
        {
            results.push(result_from_row(cache, &self.test_items, &rows[j]));
            j += 1;
        }
        assert(views(results@) =~= category_results(
            self@,
            report_id@,
            category@,
            opt_view(*environment),
        ));
        results
    }

    /// The report with the group and the name, with the test results of
    /// the environment that is asked for; `None` asks for the results
    /// without an environment, as asking for no environment does.
    pub fn get_report(&self, report_group: &String, report_name: &String, environment: Option<String>) -> (report:
        Option<Report>)
        ensures
            opt_view(report) == report_found(
                self@,
                report_group@,
                report_name@,
                opt_view(environment),
            ),
    {
        let probe = ReportDb {
            id: String::new(),
            name: report_name.clone(),
            folder: report_group.clone(),
            created_on: 0,
            last_update: 0,
        };
        let row = match self.find_report(&probe) {
            Some(row) => row,
            None => {
                return None;
            },
        };
        let asked: Option<String> = match environment {
            Some(e) => if e.as_str().eq("None") {
                None
            } else {
                Some(e)
            },
            None => None,
        };
        let names = read_categories(&self.placements, &row.id);
        let mut cache: Cacher<TestItemDb> = Cacher::new();
        let mut categories: Vec<Category> = Vec::new();
        let mut i: usize = 0;
        while i < names.len()
            invariant
                i <= names.len(),
                categories.len() == i,
                remembers(cache@, self@.test_items),
                forall|k: int|
                    0 <= k < i ==> categories[k]@ == (CategoryView {
                        name: names[k]@,
                        results: category_results(self@, row@.id, names[k]@, opt_view(asked)),
                    }),
            decreases names.len() - i,
        {
            let results = self.read_category(&mut cache, &row.id, &names[i], &asked);
            categories.push(Category { name: names[i].clone(), results });
            i += 1;
        }
        let report = Report {
            name: row.name.clone(),
            group: row.folder.clone(),
            created_on: row.created_on,
            last_update: row.last_update,
            categories: Some(categories),
            environments: read_environments(&self.placements, &row.id),
            summary: None,
        };
        assert(report@.categories->0 =~= full_report(self@, row@, opt_view(asked)).categories->0);
        Some(report)
    }
}

} // verus!
