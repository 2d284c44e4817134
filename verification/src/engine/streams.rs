//! Scripts and the registry of the scripts that run on every test
//! result. Running a script is the host's business; the registry says
//! which scripts to run and turns what a report filter answers into
//! orders for the reporter.

use vstd::prelude::*;
use vstd::std_specs::convert::FromSpecImpl;
use crate::engine::report::{ResultForReport, ResultForReportView};
use crate::engine::test_result::{TestResult, TestResultView};
use crate::seqs::{first_where, keep_where, lemma_first_where_at, lemma_first_where_none, Row};
use crate::text::{clone_opt_string, lemma_views_push, lemma_views_update, opt_view, views};

verus! {

/// What a script is for. `StreamTest` scripts are called with every test
/// result; `ReportFilterTestResult` scripts answer with the reports a
/// test result belongs in; the `UI` scripts render in the browser.
#[derive(Debug, Clone, Copy, PartialEq, Eq, Structural)]
pub enum ScriptType {
    StreamSpan,
    StreamTest,
    ReportFilterTestResult,
    UITest,
    UITestResult,
}

/// The type a stored number stands for; an unknown number counts as
/// `StreamTest`.
pub open spec fn script_type_of_i32(v: i32) -> ScriptType {
    if v == 0 {
        ScriptType::StreamSpan
    } else if v == 2 {
        ScriptType::UITest
    } else if v == 3 {
        ScriptType::UITestResult
    } else if v == 4 {
        ScriptType::ReportFilterTestResult
    } else {
        ScriptType::StreamTest
    }
}

/// The number a script type is stored as.
pub open spec fn script_type_as_int(t: ScriptType) -> int {
    match t {
        ScriptType::StreamSpan => 0,
        ScriptType::StreamTest => 1,
        ScriptType::UITest => 2,
        ScriptType::UITestResult => 3,
        ScriptType::ReportFilterTestResult => 4,
    }
}

/// The name of a script type.
pub open spec fn script_type_name(t: ScriptType) -> Seq<char> {
    match t {
        ScriptType::StreamSpan => "StreamSpan"@,
        ScriptType::StreamTest => "StreamTest"@,
        ScriptType::UITest => "UITest"@,
        ScriptType::UITestResult => "UITestResult"@,
        ScriptType::ReportFilterTestResult => "ReportFilterTestResult"@,
    }
}

impl ScriptType {
    /// The number the type is stored as.
    pub fn as_i32(self) -> (v: i32)
        ensures
            v == script_type_as_int(self),
    {
        match self {
            ScriptType::StreamSpan => 0,
            ScriptType::StreamTest => 1,
            ScriptType::UITest => 2,
            ScriptType::UITestResult => 3,
            ScriptType::ReportFilterTestResult => 4,
        }
    }

    /// The name of the type.
    pub fn to_string(self) -> (s: String)
        ensures
            s@ == script_type_name(self),
    {
        match self {
            ScriptType::StreamSpan => "StreamSpan".to_string(),
            ScriptType::StreamTest => "StreamTest".to_string(),
            ScriptType::UITest => "UITest".to_string(),
            ScriptType::UITestResult => "UITestResult".to_string(),
            ScriptType::ReportFilterTestResult => "ReportFilterTestResult".to_string(),
        }
    }

    /// Whether the registry runs scripts of this type on test results.
    pub fn runs_on_test_results(self) -> (r: bool)
        ensures
            r == (self == ScriptType::StreamTest || self == ScriptType::ReportFilterTestResult),
    {
        match self {
            ScriptType::StreamTest => true,
            ScriptType::ReportFilterTestResult => true,
            _ => false,
        }
    }
}

impl From<i32> for ScriptType {
    fn from(val: i32) -> (t: ScriptType) {
        if val == 0 {
            ScriptType::StreamSpan
        } else if val == 2 {
            ScriptType::UITest
        } else if val == 3 {
            ScriptType::UITestResult
        } else if val == 4 {
            ScriptType::ReportFilterTestResult
        } else {
            ScriptType::StreamTest
        }
    }
}

impl FromSpecImpl<i32> for ScriptType {
    open spec fn obeys_from_spec() -> bool {
        true
    }

    open spec fn from_spec(val: i32) -> ScriptType {
        script_type_of_i32(val)
    }
}

/// A script type survives being stored as a number.
pub proof fn lemma_script_type_number_round_trip(t: ScriptType)
    ensures
        script_type_of_i32(script_type_as_int(t) as i32) == t,
{
}

/// Whether a script is in use.
#[derive(Debug, Clone, Copy, PartialEq, Eq, Structural)]
pub enum ScriptStatus {
    Enabled,
    Disabled,
}

/// A script. A script that was not saved yet has no identifier, date or
/// status.
#[derive(Debug)]
pub struct Script {
    pub id: Option<String>,
    pub name: String,
    pub source: String,
    pub script_type: ScriptType,
    pub date_added: Option<i64>,
    pub status: Option<ScriptStatus>,
}

pub ghost struct ScriptView {
    pub id: Option<Seq<char>>,
    pub name: Seq<char>,
    pub source: Seq<char>,
    pub script_type: ScriptType,
    pub date_added: Option<i64>,
    pub status: Option<ScriptStatus>,
}

impl View for Script {
    type V = ScriptView;

    open spec fn view(&self) -> ScriptView {
        ScriptView {
            id: opt_view(self.id),
            name: self.name@,
            source: self.source@,
            script_type: self.script_type,
            date_added: self.date_added,
            status: self.status,
        }
    }
}

impl Clone for Script {
    fn clone(&self) -> (r: Self)
        ensures
            r@ == self@,
    {
        Script {
            id: clone_opt_string(&self.id),
            name: self.name.clone(),
            source: self.source.clone(),
            script_type: self.script_type,
            date_added: self.date_added,
            status: self.status,
        }
    }
}

impl Row for Script {
    fn copy(&self) -> (r: Self) {
        self.clone()
    }
}

/// A report that a report filter names for a test result.
#[derive(Debug)]
pub struct ReportTarget {
    pub group: String,
    pub name: String,
    pub category: Option<String>,
}

pub ghost struct ReportTargetView {
    pub group: Seq<char>,
    pub name: Seq<char>,
    pub category: Option<Seq<char>>,
}

impl View for ReportTarget {
    type V = ReportTargetView;

    open spec fn view(&self) -> ReportTargetView {
        ReportTargetView {
            group: self.group@,
            name: self.name@,
            category: opt_view(self.category),
        }
    }
}

/// The registry of the scripts that run on test results.
#[derive(Debug)]
pub struct Streamer {
    pub scripts: Vec<Script>,
}

impl View for Streamer {
    type V = Seq<ScriptView>;

    open spec fn view(&self) -> Seq<ScriptView> {
        views(self.scripts@)
    }
}

/// The first script with the identifier, if it is one.
pub open spec fn script_index(scripts: Seq<ScriptView>, id: Option<Seq<char>>) -> Option<int> {
    first_where(scripts, |s: ScriptView| id is Some && s.id == id)
}

/// The scripts without the first one that has the identifier.
pub open spec fn without_script(scripts: Seq<ScriptView>, id: Option<Seq<char>>) -> Seq<ScriptView> {
    match script_index(scripts, id) {
        Some(i) => scripts.remove(i),
        None => scripts,
    }
}

/// The scripts with the first one that has the identifier of `script`
/// replaced by it.
pub open spec fn with_updated_script(scripts: Seq<ScriptView>, script: ScriptView) -> Seq<ScriptView> {
    match script_index(scripts, script.id) {
        Some(i) => scripts.update(i, script),
        None => scripts,
    }
}

/// The scripts of one type.
pub open spec fn has_type(t: ScriptType) -> spec_fn(ScriptView) -> bool {
    |s: ScriptView| s.script_type == t
}

/// The orders that place `result` in each of the reports.
pub open spec fn orders_for_targets(targets: Seq<ReportTargetView>, result: TestResultView) -> Seq<
    ResultForReportView,
> {
    Seq::new(
        targets.len(),
        |k: int|
            ResultForReportView {
                report_group: targets[k].group,
                report_name: targets[k].name,
                category: targets[k].category,
                result,
            },
    )
}

fn find_script_index(scripts: &Vec<Script>, id: &Option<String>) -> (r: Option<usize>)
    ensures
        match r {
            Some(i) => script_index(views(scripts@), opt_view(*id)) == Some(i as int) && i
                < scripts.len(),
            None => script_index(views(scripts@), opt_view(*id)) is None,
        },
{
    let ghost p = |s: ScriptView| opt_view(*id) is Some && s.id == opt_view(*id);
    match id {
        None => {
            proof {
                lemma_first_where_none(views(scripts@), p);
            }
            None
        },
        Some(wanted) => {
            let mut i: usize = 0;
            while i < scripts.len()
                invariant
                    i <= scripts.len(),
                    opt_view(*id) == Some(wanted@),
                    forall|k: int| 0 <= k < i ==> views(scripts@)[k].id != Some(wanted@),
                decreases scripts.len() - i,
            {
                let same = match &scripts[i].id {
                    Some(have) => *have == *wanted,
                    None => false,
                };
                if same {
                    proof {
                        lemma_first_where_at(
                            views(scripts@),
                            |s: ScriptView| opt_view(*id) is Some && s.id == opt_view(*id),
                            i as int,
                        );
                    }
                    return Some(i);
                }
                i += 1;
            }
            proof {
                lemma_first_where_none(views(scripts@), p);
            }
            None
        },
    }
}

impl Default for Streamer {
    fn default() -> (r: Self)
        ensures
            r@ == Seq::<ScriptView>::empty(),
    {
        let r = Streamer { scripts: Vec::new() };
        assert(r@ =~= Seq::<ScriptView>::empty());
        r
    }
}

impl Streamer {
    /// Replaces the registered scripts by the given ones.
    pub fn update_scripts(&mut self, scripts: Vec<Script>)
        ensures
            final(self)@ == views(scripts@),
    {
        self.scripts = scripts;
    }

    /// Registers one more script.
    pub fn add_script(&mut self, script: Script)
        ensures
            final(self)@ == old(self)@.push(script@),
    {
        proof {
            lemma_views_push(self.scripts@, script);
        }
        self.scripts.push(script);
    }

    /// Takes the script with the identifier of `script` out of the
    /// registry. Nothing changes where no script has it.
    pub fn remove_script(&mut self, script: &Script)
        ensures
            final(self)@ == without_script(old(self)@, script@.id),
    {
        match find_script_index(&self.scripts, &script.id) {
            Some(i) => {
                self.scripts.remove(i);
                assert(views(self.scripts@) =~= views(old(self).scripts@).remove(i as int));
            },
            None => {},
        }
    }

    /// Replaces the registered script that has the identifier of
    /// `script`. Nothing changes where no script has it.
    pub fn update_script(&mut self, script: Script)
        ensures
            final(self)@ == with_updated_script(old(self)@, script@),
    {
        match find_script_index(&self.scripts, &script.id) {
            Some(i) => {
                proof {
                    lemma_views_update(self.scripts@, i as int, script);
                }
                self.scripts.set(i, script);
            },
            None => {},
        }
    }

    /// The registered scripts of one type, in the order of the registry.
    pub fn scripts_of_type(&self, script_type: ScriptType) -> (scripts: Vec<Script>)
        ensures
            views(scripts@) == self@.filter(has_type(script_type)),
    {
        let mut keep: Vec<bool> = Vec::new();
        let mut i: usize = 0;
        while i < self.scripts.len()
            invariant
                i <= self.scripts.len(),
                keep.len() == i,
                forall|k: int|
                    0 <= k < i ==> keep[k] == has_type(script_type)(#[trigger] self.scripts[k]@),
            decreases self.scripts.len() - i,
        {
            keep.push(self.scripts[i].script_type == script_type);
            i += 1;
        }
        keep_where(&self.scripts, &keep, Ghost(has_type(script_type)))
    }

    /// The scripts that are called with every test result.
    pub fn stream_test_scripts(&self) -> (scripts: Vec<Script>)
        ensures
            views(scripts@) == self@.filter(has_type(ScriptType::StreamTest)),
    {
        self.scripts_of_type(ScriptType::StreamTest)
    }

    /// The scripts that are asked for the reports of every test result.
    pub fn report_filter_scripts(&self) -> (scripts: Vec<Script>)
        ensures
            views(scripts@) == self@.filter(has_type(ScriptType::ReportFilterTestResult)),
    {
        self.scripts_of_type(ScriptType::ReportFilterTestResult)
    }
}

/// Turns the reports that a report filter named into orders for the
/// reporter, one for each report, in order.
pub fn results_for_targets(targets: &Vec<ReportTarget>, result: &TestResult) -> (orders: Vec<
    ResultForReport,
>)
    ensures
        views(orders@) == orders_for_targets(views(targets@), result@),
{
    let mut orders: Vec<ResultForReport> = Vec::new();
    let mut i: usize = 0;
    while i < targets.len()
        invariant
            i <= targets.len(),
            orders.len() == i,
            forall|k: int|
                0 <= k < i ==> orders[k]@ == orders_for_targets(views(targets@), result@)[k],
        decreases targets.len() - i,
    {
        assert(views(targets@)[i as int] == targets[i as int]@);
        orders.push(
            ResultForReport {
                report_group: targets[i].group.clone(),
                report_name: targets[i].name.clone(),
                category: clone_opt_string(&targets[i].category),
                result: result.clone(),
            },
        );
        i += 1;
    }
    assert(views(orders@) =~= orders_for_targets(views(targets@), result@));
    orders
}

} // verus!
