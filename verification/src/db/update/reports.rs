//! Placing a test result in a report: the report is found or created
//! and touched, then the placement is updated or added.

use vstd::prelude::*;
use crate::db::invariants::well_formed;
use crate::db::laws::lemma_placed_well_formed;
use crate::db::schema::{
    DbExecutor, ReportDb, ReportDbView, Store, TestResultInReportDb, TestResultInReportDbView,
};
use crate::engine::{is_uuid_v4, new_uuid, now_micros};
use crate::engine::report::{ResultForReport, ResultForReportView};
use crate::engine::test_result::status_as_int;
use crate::seqs::{first_where, lemma_first_where_at, lemma_first_where_none};
use crate::text::{clone_opt_string, lemma_views_push, lemma_views_update, opt_string_eq, opt_view, views};

verus! {

/// The report with the given group and name.
pub open spec fn report_index(reports: Seq<ReportDbView>, folder: Seq<char>, name: Seq<char>) -> Option<
    int,
> {
    first_where(reports, |row: ReportDbView| row.folder == folder && row.name == name)
}

/// Whether a report has the identifier.
pub open spec fn has_report_id(reports: Seq<ReportDbView>, id: Seq<char>) -> bool {
    first_where(reports, |row: ReportDbView| row.id == id) is Some
}

/// The report table after a report was touched, and the report's
/// identifier. A report with the group and name of `report` gets its
/// last update; otherwise `report` is added under `new_id`. If that
/// identifier is taken, nothing is added and there is no identifier.
pub open spec fn with_touched_report(reports: Seq<ReportDbView>, report: ReportDbView, new_id: Seq<char>) -> (
    Seq<ReportDbView>,
    Option<Seq<char>>,
) {
    match report_index(reports, report.folder, report.name) {
        Some(i) => (
            reports.update(i, ReportDbView { last_update: report.last_update, ..reports[i] }),
            Some(reports[i].id),
        ),
        None => if has_report_id(reports, new_id) {
            (reports, None)
        } else {
            (reports.push(ReportDbView { id: new_id, ..report }), Some(new_id))
        },
    }
}

/// The placement of a test under a category and an environment in a report.
pub open spec fn placement_index(
    placements: Seq<TestResultInReportDbView>,
    report_id: Seq<char>,
    test_id: Seq<char>,
    category: Seq<char>,
    environment: Option<Seq<char>>,
) -> Option<int> {
    first_where(
        placements,
        |row: TestResultInReportDbView|
            row.report_id == report_id && row.test_id == test_id && row.category == category
                && row.environment == environment,
    )
}

/// The placement table after a placement was written: a placement of
/// the same test in the same report, category and environment takes over
/// the trace and the status; otherwise the row is added.
pub open spec fn with_placement(
    placements: Seq<TestResultInReportDbView>,
    row: TestResultInReportDbView,
) -> Seq<TestResultInReportDbView> {
    match placement_index(placements, row.report_id, row.test_id, row.category, row.environment) {
        Some(i) => placements.update(
            i,
            TestResultInReportDbView { trace_id: row.trace_id, status: row.status, ..placements[i] },
        ),
        None => placements.push(row),
    }
}

/// The report row that an order asks for, at the time `now`.
pub open spec fn report_row(msg: ResultForReportView, now: i64) -> ReportDbView {
    ReportDbView {
        id: "n/a"@,
        name: msg.report_name,
        folder: msg.report_group,
        created_on: now,
        last_update: now,
    }
}

/// The placement row of an order in the report `report_id`.
pub open spec fn placement_row(msg: ResultForReportView, report_id: Seq<char>) -> TestResultInReportDbView {
    TestResultInReportDbView {
        report_id,
        test_id: msg.result.test_id,
        trace_id: msg.result.trace_id,
        category: match msg.category {
            Some(c) => c,
            None => msg.report_name,
        },
        environment: msg.result.environment,
        status: status_as_int(msg.result.status) as i32,
    }
}

/// The store after an order was carried out at the time `now`. Where the
/// report has to be added and `new_id` is taken, nothing is placed.
pub open spec fn placed(s: Store, msg: ResultForReportView, now: i64, new_id: Seq<char>) -> Store {
    let reports = with_touched_report(s.reports, report_row(msg, now), new_id);
    match reports.1 {
        Some(report_id) => Store {
            reports: reports.0,
            placements: with_placement(s.placements, placement_row(msg, report_id)),
            ..s
        },
        None => Store { reports: reports.0, ..s },
    }
}

fn find_report_index(reports: &Vec<ReportDb>, folder: &String, name: &String) -> (r: Option<usize>)
    ensures
        match r {
            Some(i) => report_index(views(reports@), folder@, name@) == Some(i as int) && i
                < reports.len(),
            None => report_index(views(reports@), folder@, name@) is None,
        },
{
    let mut i: usize = 0;
    while i < reports.len()
        invariant
            i <= reports.len(),
            forall|k: int|
                0 <= k < i ==> !(views(reports@)[k].folder == folder@ && views(reports@)[k].name
                    == name@),
        decreases reports.len() - i,
    {
        if reports[i].folder == *folder && reports[i].name == *name {
            proof {
                lemma_first_where_at(
                    views(reports@),
                    |row: ReportDbView| row.folder == folder@ && row.name == name@,
                    i as int,
                );
            }
            return Some(i);
        }
        i += 1;
    }
    proof {
        lemma_first_where_none(
            views(reports@),
            |row: ReportDbView| row.folder == folder@ && row.name == name@,
        );
    }
    None
}

fn report_id_taken(reports: &Vec<ReportDb>, id: &String) -> (r: bool)
    ensures
        r == has_report_id(views(reports@), id@),
{
    let mut i: usize = 0;
    while i < reports.len()
        invariant
            i <= reports.len(),
            forall|k: int| 0 <= k < i ==> views(reports@)[k].id != id@,
        decreases reports.len() - i,
    {
        if reports[i].id == *id {
            proof {
                lemma_first_where_at(views(reports@), |row: ReportDbView| row.id == id@, i as int);
            }
            return true;
        }
        i += 1;
    }
    proof {
        lemma_first_where_none(views(reports@), |row: ReportDbView| row.id == id@);
    }
    false
}

fn find_placement_index(placements: &Vec<TestResultInReportDb>, row: &TestResultInReportDb) -> (r:
    Option<usize>)
    ensures
        match r {
            Some(i) => placement_index(
                views(placements@),
                row@.report_id,
                row@.test_id,
                row@.category,
                row@.environment,
            ) == Some(i as int) && i < placements.len(),
            None => placement_index(
                views(placements@),
                row@.report_id,
                row@.test_id,
                row@.category,
                row@.environment,
            ) is None,
        },
{
    let mut i: usize = 0;
    while i < placements.len()
        invariant
            i <= placements.len(),
            forall|k: int|
                0 <= k < i ==> !(views(placements@)[k].report_id == row@.report_id && views(
                    placements@,
                )[k].test_id == row@.test_id && views(placements@)[k].category == row@.category
                    && views(placements@)[k].environment == row@.environment),
        decreases placements.len() - i,
    {
        if placements[i].report_id == row.report_id && placements[i].test_id == row.test_id
            && placements[i].category == row.category && opt_string_eq(
            &placements[i].environment,
            &row.environment,
        ) {
            proof {
                lemma_first_where_at(
                    views(placements@),
                    |r: TestResultInReportDbView|
                        r.report_id == row@.report_id && r.test_id == row@.test_id && r.category
                            == row@.category && r.environment == row@.environment,
                    i as int,
                );
            }
            return Some(i);
        }
        i += 1;
    }
    proof {
        lemma_first_where_none(
            views(placements@),
            |r: TestResultInReportDbView|
                r.report_id == row@.report_id && r.test_id == row@.test_id && r.category
                    == row@.category && r.environment == row@.environment,
        );
    }
    None
}

fn write_placement(placements: &mut Vec<TestResultInReportDb>, row: TestResultInReportDb)
    ensures
        views(final(placements)@) == with_placement(views(old(placements)@), row@),
{
    match find_placement_index(placements, &row) {
        Some(i) => {
            let mut updated = placements[i].clone();
            updated.trace_id = row.trace_id;
            updated.status = row.status;
            proof {
                lemma_views_update(placements@, i as int, updated);
            }
            placements.set(i, updated);
        },
        None => {
            proof {
                lemma_views_push(placements@, row);
            }
            placements.push(row);
        },
    }
}

impl DbExecutor {
    /// The first report with the group and name of `report_db`.
    pub fn find_report(&self, report_db: &ReportDb) -> (r: Option<ReportDb>)
        ensures
            opt_view(r) == match report_index(self@.reports, report_db@.folder, report_db@.name) {
                Some(i) => Some(self@.reports[i]),
                None => None,
            },
    {
        match find_report_index(&self.reports, &report_db.folder, &report_db.name) {
            Some(i) => Some(self.reports[i].clone()),
            None => None,
        }
    }

    /// Touches the report with the group and name of `report_db`, or
    /// adds it under `new_id`, and gives the report's identifier.
    pub fn update_report_or_create_with_id(&mut self, report_db: &ReportDb, new_id: String) -> (r:
        Option<String>)
        ensures
            final(self)@ == (Store {
                reports: with_touched_report(old(self)@.reports, report_db@, new_id@).0,
                ..old(self)@
            }),
            opt_view(r) == with_touched_report(old(self)@.reports, report_db@, new_id@).1,
    {
        match find_report_index(&self.reports, &report_db.folder, &report_db.name) {
            Some(i) => {
                let mut updated = self.reports[i].clone();
                updated.last_update = report_db.last_update;
                let id = updated.id.clone();
                proof {
                    lemma_views_update(self.reports@, i as int, updated);
                }
                self.reports.set(i, updated);
                Some(id)
            },
            None => {
                if report_id_taken(&self.reports, &new_id) {
                    None
                } else {
                    let row = ReportDb {
                        id: new_id.clone(),
                        name: report_db.name.clone(),
                        folder: report_db.folder.clone(),
                        created_on: report_db.created_on,
                        last_update: report_db.last_update,
                    };
                    proof {
                        lemma_views_push(self.reports@, row);
                    }
                    self.reports.push(row);
                    Some(new_id)
                }
            },
        }
    }

    /// Touches the report with the group and name of `report_db`, or
    /// adds it under a fresh identifier.
    pub fn update_report_or_create(&mut self, report_db: &ReportDb) -> (r: Option<String>)
        ensures
            exists|new_id: Seq<char>|
                {
                    &&& is_uuid_v4(new_id)
                    &&& final(self)@ == (Store {
                        reports: with_touched_report(old(self)@.reports, report_db@, new_id).0,
                        ..old(self)@
                    })
                    &&& opt_view(r) == with_touched_report(old(self)@.reports, report_db@, new_id).1
                },
    {
        let new_id = new_uuid();
        self.update_report_or_create_with_id(report_db, new_id)
    }

    /// Carries out an order at the time `now`: the report is touched or
    /// added under `new_id`, and the test result is placed in it.
    pub fn save_result_for_report_at(&mut self, msg: ResultForReport, now: i64, new_id: String)
        ensures
            final(self)@ == placed(old(self)@, msg@, now, new_id@),
            well_formed(old(self)@) ==> well_formed(final(self)@),
    {
        proof {
            if well_formed(old(self)@) {
                lemma_placed_well_formed(old(self)@, msg@, now, new_id@);
            }
        }
        let report = ReportDb {
            id: "n/a".to_string(),
            name: msg.report_name.clone(),
            folder: msg.report_group.clone(),
            created_on: now,
            last_update: now,
        };
        match self.update_report_or_create_with_id(&report, new_id) {
            Some(found_report_id) => {
                let row = TestResultInReportDb {
                    test_id: msg.result.test_id.clone(),
                    trace_id: msg.result.trace_id.clone(),
                    report_id: found_report_id,
                    category: match &msg.category {
                        Some(c) => c.clone(),
                        None => msg.report_name.clone(),
                    },
                    environment: clone_opt_string(&msg.result.environment),
                    status: msg.result.status.as_i32(),
                };
                write_placement(&mut self.placements, row);
            },
            None => {},
        }
    }

    /// Carries out an order now; a report that has to be added gets a
    /// fresh identifier.
    pub fn save_result_for_report(&mut self, msg: ResultForReport)
        ensures
            exists|now: i64, new_id: Seq<char>|
                is_uuid_v4(new_id) && final(self)@ == placed(old(self)@, msg@, now, new_id),
            well_formed(old(self)@) ==> well_formed(final(self)@),
    {
        let now = now_micros();
        let new_id = new_uuid();
        let ghost shown = new_id@;
        self.save_result_for_report_at(msg, now, new_id);
        assert(is_uuid_v4(shown) && self@ == placed(old(self)@, msg@, now, shown));
    }
}

} // verus!
