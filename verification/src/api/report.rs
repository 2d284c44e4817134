//! Reports as the report endpoints give them.

use vstd::prelude::*;
use vstd::string::StringExecFns;
use crate::api::errors::IkError;
use crate::db::read::reports::{report_found, reports_listed};
use crate::db::schema::DbExecutor;
use crate::engine::test_result::{TestResult, TestResultView};
use crate::text::{opt_view, views};

verus! {

/// How many tests of a report have a result of each status.
#[derive(Debug, Clone, Copy, PartialEq, Eq, Structural)]
pub struct ReportSummary {
    pub success: usize,
    pub failure: usize,
    pub skipped: usize,
}

/// A category of a report with the test results placed under it.
#[derive(Debug)]
pub struct Category {
    pub name: String,
    pub results: Vec<TestResult>,
}

pub ghost struct CategoryView {
    pub name: Seq<char>,
    pub results: Seq<TestResultView>,
}

impl View for Category {
    type V = CategoryView;

    open spec fn view(&self) -> CategoryView {
        CategoryView { name: self.name@, results: views(self.results@) }
    }
}

/// A report: in the list of reports with a summary, alone with its
/// categories. Times are in microseconds.
#[derive(Debug)]
pub struct Report {
    pub name: String,
    pub group: String,
    pub created_on: i64,
    pub last_update: i64,
    pub categories: Option<Vec<Category>>,
    pub environments: Vec<String>,
    pub summary: Option<ReportSummary>,
}

pub ghost struct ReportView {
    pub name: Seq<char>,
    pub group: Seq<char>,
    pub created_on: i64,
    pub last_update: i64,
    pub categories: Option<Seq<CategoryView>>,
    pub environments: Seq<Seq<char>>,
    pub summary: Option<ReportSummary>,
}

impl View for Report {
    type V = ReportView;

    open spec fn view(&self) -> ReportView {
        ReportView {
            name: self.name@,
            group: self.group@,
            created_on: self.created_on,
            last_update: self.last_update,
            categories: match self.categories {
                Some(c) => Some(views(c@)),
                None => None,
            },
            environments: views(self.environments@),
            summary: self.summary,
        }
    }
}

/// A text with every `%20` turned into a space.
pub open spec fn with_spaces(s: Seq<char>) -> Seq<char>
    decreases s.len(),
{
    if s.len() == 0 {
        s
    } else if s.len() >= 3 && s[0] == '%' && s[1] == '2' && s[2] == '0' {
        seq![' '] + with_spaces(s.skip(3))
    } else {
        seq![s[0]] + with_spaces(s.skip(1))
    }
}

/// Turns every `%20` of a path segment into a space.
pub fn decode_spaces(s: &str) -> (r: String)
    ensures
        r@ == with_spaces(s@),
{
    let len: usize = s.unicode_len();
    let mut out = String::new();
    let mut i: usize = 0;
    proof {
        assert(s@.skip(0) =~= s@);
    }
    while i < len
        invariant
            i <= len,
            len == s@.len(),
            out@ + with_spaces(s@.skip(i as int)) == with_spaces(s@),
        decreases len - i,
    {
        let ghost rest = s@.skip(i as int);
        let escaped = len - i >= 3 && s.get_char(i) == '%' && s.get_char(i + 1) == '2'
            && s.get_char(i + 2) == '0';
        proof {
            assert(rest[0] == s@[i as int]);
            if len - i >= 3 {
                assert(rest[1] == s@[i + 1]);
                assert(rest[2] == s@[i + 2]);
            }
        }
        if escaped {
            proof {
                assert(rest.skip(3) =~= s@.skip(i + 3));
                assert((out@ + seq![' ']) + with_spaces(rest.skip(3)) =~= out@ + (seq![' ']
                    + with_spaces(rest.skip(3))));
                reveal_strlit(" ");
                assert(" "@ =~= seq![' ']);
            }
            out.append(" ");
            i += 3;
        } else {
            let one = s.substring_char(i, i + 1);
            proof {
                assert(rest.skip(1) =~= s@.skip(i + 1));
                assert(one@ =~= seq![s@[i as int]]);
                assert((out@ + seq![rest[0]]) + with_spaces(rest.skip(1)) =~= out@ + (seq![rest[0]]
                    + with_spaces(rest.skip(1))));
            }
            out.append(one);
            i += 1;
        }
    }
    proof {
        assert(s@.skip(len as int) =~= Seq::<char>::empty());
        assert(out@ + Seq::<char>::empty() =~= out@);
    }
    out
}

/// What is said where there is no such report.
pub open spec fn report_not_found() -> Seq<char> {
    "report not found"@
}

/// What is said where the path lacks the group or the name.
pub open spec fn missing_path_parameter() -> Seq<char> {
    "missing path parameter"@
}

/// The list of reports.
pub fn get_reports(db: &DbExecutor) -> (reports: Vec<Report>)
    ensures
        views(reports@) == reports_listed(db@),
{
    db.get_all_reports()
}

/// One report by the group and the name of its path, for the
/// environment that the request asks for. The request is bad where a
/// part of the path is missing; the report is not found where the store
/// has none with the group and the name.
pub fn get_report(
    db: &DbExecutor,
    report_group: Option<String>,
    report_name: Option<String>,
    environment: Option<String>,
) -> (r: Result<Report, IkError>)
    ensures
        match r {
            Ok(report) => report_group is Some && report_name is Some && report_found(
                db@,
                with_spaces(report_group->0@),
                with_spaces(report_name->0@),
                opt_view(environment),
            ) == Some(report@),
            Err(IkError::NotFound(msg)) => report_group is Some && report_name is Some
                && report_found(
                db@,
                with_spaces(report_group->0@),
                with_spaces(report_name->0@),
                opt_view(environment),
            ) is None && msg@ == report_not_found(),
            Err(IkError::BadRequest(msg)) => (report_group is None || report_name is None) && msg@
                == missing_path_parameter(),
            Err(IkError::InternalError) => false,
        },
{
    match (report_group, report_name) {
        (Some(group), Some(name)) => {
            let group = decode_spaces(group.as_str());
            let name = decode_spaces(name.as_str());
            match db.get_report(&group, &name, environment) {
                Some(report) => Ok(report),
                None => Err(IkError::NotFound("report not found".to_string())),
            }
        },
        _ => Err(IkError::BadRequest("missing path parameter".to_string())),
    }
}

} // verus!
