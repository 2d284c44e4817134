//! Test results and their derivation from the spans of a finished trace.

use vstd::prelude::*;
use vstd::std_specs::convert::FromSpecImpl;
use crate::db::schema::{DbExecutor, Store};
use crate::db::update::test::saved_test_result;
use crate::db::invariants::well_formed;
use crate::db::laws::lemma_after_trace_done_well_formed;
use crate::db::update::span::fresh_ids;
use crate::engine::{all_uuids, now_micros};
use crate::engine::report::{
    orders_for, placed_all, read_trace, reports_of_spans, trace_spans, Reporter,
    TRACE_SPAN_LIMIT,
};
use crate::seqs::first_rows;
use crate::opentracing::span::{find_tag, tag_value, Span, SpanView};
use crate::opentracing::tags::{ikrelln_tag_name, IkrellnTags, KnownTag, OpenTracingTag};
use crate::seqs::{first_where, lemma_first_where, lemma_first_where_at, lemma_first_where_none};
use crate::text::{
    clone_opt_string, lowercase_of, names_once, opt_view, prefix, to_lowercase, views,
};

verus! {

/// The outcome of a test. `Any` is only a filter value for queries; no
/// derived result carries it.
#[derive(Debug, Clone, Copy, PartialEq, Eq, Hash, Structural)]
pub enum TestStatus {
    Success,
    Failure,
    Skipped,
    Any,
}

/// The status that an already lower-cased text names.
pub open spec fn status_of_lowercase(s: Seq<char>) -> Option<TestStatus> {
    if s == "success"@ {
        Some(TestStatus::Success)
    } else if s == "failure"@ {
        Some(TestStatus::Failure)
    } else if s == "skipped"@ {
        Some(TestStatus::Skipped)
    } else {
        None
    }
}

/// The status a stored number stands for; an unknown number is a failure.
pub open spec fn status_of_i32(v: i32) -> TestStatus {
    if v == 0 {
        TestStatus::Success
    } else if v == 2 {
        TestStatus::Skipped
    } else {
        TestStatus::Failure
    }
}

/// The number a status is stored as.
pub open spec fn status_as_int(s: TestStatus) -> int {
    match s {
        TestStatus::Success => 0,
        TestStatus::Failure => 1,
        TestStatus::Skipped => 2,
        TestStatus::Any => 3,
    }
}

/// The name of a status.
pub open spec fn status_name(s: TestStatus) -> Seq<char> {
    match s {
        TestStatus::Success => "Success"@,
        TestStatus::Failure => "Failure"@,
        TestStatus::Skipped => "Skipped"@,
        TestStatus::Any => "Any"@,
    }
}

impl TestStatus {
    /// Reads a status from a text that is already in lower case. Fails with
    /// the `test.result` tag for any text but the three status names.
    pub fn from_lowercase(lowered: &str) -> (r: Result<TestStatus, KnownTag>)
        ensures
            match r {
                Ok(s) => status_of_lowercase(lowered@) == Some(s),
                Err(tag) => status_of_lowercase(lowered@) is None && tag@ == ikrelln_tag_name(
                    IkrellnTags::Result,
                ),
            },
    {
        if lowered.eq("success") {
            Ok(TestStatus::Success)
        } else if lowered.eq("failure") {
            Ok(TestStatus::Failure)
        } else if lowered.eq("skipped") {
            Ok(TestStatus::Skipped)
        } else {
            Err(KnownTag::ikrelln(IkrellnTags::Result))
        }
    }

    /// Reads a status from a tag value, whatever its case.
    pub fn try_from(s: &str) -> (r: Result<TestStatus, KnownTag>)
        ensures
            match r {
                Ok(st) => status_of_lowercase(lowercase_of(s@)) == Some(st),
                Err(tag) => status_of_lowercase(lowercase_of(s@)) is None && tag@
                    == ikrelln_tag_name(IkrellnTags::Result),
            },
    {
        let lowered = to_lowercase(s);
        TestStatus::from_lowercase(lowered.as_str())
    }

    /// The number the status is stored as.
    pub fn as_i32(&self) -> (v: i32)
        ensures
            v == status_as_int(*self),
    {
        match self {
            TestStatus::Success => 0,
            TestStatus::Failure => 1,
            TestStatus::Skipped => 2,
            TestStatus::Any => 3,
        }
    }

    /// The name of the status.
    pub fn as_str(&self) -> (s: &'static str)
        ensures
            s@ == status_name(*self),
    {
        match self {
            TestStatus::Success => "Success",
            TestStatus::Failure => "Failure",
            TestStatus::Skipped => "Skipped",
            TestStatus::Any => "Any",
        }
    }
}

impl From<i32> for TestStatus {
    fn from(v: i32) -> (s: TestStatus) {
        if v == 0 {
            TestStatus::Success
        } else if v == 2 {
            TestStatus::Skipped
        } else {
            TestStatus::Failure
        }
    }
}

impl FromSpecImpl<i32> for TestStatus {
    open spec fn obeys_from_spec() -> bool {
        true
    }

    open spec fn from_spec(v: i32) -> TestStatus {
        status_of_i32(v)
    }
}

/// A status that a derived result can carry survives being stored as a number.
pub proof fn lemma_status_number_round_trip(s: TestStatus)
    requires
        s != TestStatus::Any,
    ensures
        status_of_i32(status_as_int(s) as i32) == s,
{
}

/// One execution of a test, derived from the root span of a trace.
/// `components_called` pairs each remote service with the number of spans
/// of the trace that called it, the root span counted like any other.
#[derive(Debug)]
pub struct TestResult {
    pub test_id: String,
    pub path: Vec<String>,
    pub name: String,
    pub trace_id: String,
    pub date: i64,
    pub status: TestStatus,
    pub duration: i64,
    pub environment: Option<String>,
    pub components_called: Vec<(String, i32)>,
    pub nb_spans: i32,
    pub main_span: Option<Span>,
}

pub ghost struct TestResultView {
    pub test_id: Seq<char>,
    pub path: Seq<Seq<char>>,
    pub name: Seq<char>,
    pub trace_id: Seq<char>,
    pub date: i64,
    pub status: TestStatus,
    pub duration: i64,
    pub environment: Option<Seq<char>>,
    pub components_called: Seq<(Seq<char>, i32)>,
    pub nb_spans: i32,
    pub main_span: Option<SpanView>,
}

impl View for TestResult {
    type V = TestResultView;

    open spec fn view(&self) -> TestResultView {
        TestResultView {
            test_id: self.test_id@,
            path: views(self.path@),
            name: self.name@,
            trace_id: self.trace_id@,
            date: self.date,
            status: self.status,
            duration: self.duration,
            environment: opt_view(self.environment),
            components_called: self.components_called.deep_view(),
            nb_spans: self.nb_spans,
            main_span: opt_view(self.main_span),
        }
    }
}

/// A copy of a list of texts.
pub fn clone_strings(v: &Vec<String>) -> (r: Vec<String>)
    ensures
        views(r@) == views(v@),
{
    let mut out: Vec<String> = Vec::new();
    let mut i: usize = 0;
    while i < v.len()
        invariant
            i <= v.len(),
            out.len() == i,
            forall|k: int| 0 <= k < i ==> out[k]@ == v[k]@,
        decreases v.len() - i,
    {
        out.push(v[i].clone());
        i += 1;
    }
    assert(views(out@) =~= views(v@));
    out
}

/// A copy of a list of counts.
pub fn clone_counts(v: &Vec<(String, i32)>) -> (r: Vec<(String, i32)>)
    ensures
        r.deep_view() == v.deep_view(),
{
    let mut out: Vec<(String, i32)> = Vec::new();
    let mut i: usize = 0;
    while i < v.len()
        invariant
            i <= v.len(),
            out.len() == i,
            forall|k: int| 0 <= k < i ==> out[k].deep_view() == v[k].deep_view(),
        decreases v.len() - i,
    {
        out.push((v[i].0.clone(), v[i].1));
        i += 1;
    }
    assert(out.deep_view() =~= v.deep_view());
    out
}

impl Clone for TestResult {
    fn clone(&self) -> (r: Self)
        ensures
            r@ == self@,
    {
        TestResult {
            test_id: self.test_id.clone(),
            path: clone_strings(&self.path),
            name: self.name.clone(),
            trace_id: self.trace_id.clone(),
            date: self.date,
            status: self.status,
            duration: self.duration,
            environment: clone_opt_string(&self.environment),
            components_called: clone_counts(&self.components_called),
            nb_spans: self.nb_spans,
            main_span: match &self.main_span {
                Some(s) => Some(s.clone()),
                None => None,
            },
        }
    }
}

/// The root of a trace: its first span without a parent.
pub open spec fn root_index(spans: Seq<SpanView>) -> Option<int> {
    first_where(spans, |s: SpanView| s.parent_id is None)
}

/// The service a span called, when it names one.
pub open spec fn remote_service(span: SpanView) -> Option<Seq<char>> {
    match span.remote_endpoint {
        Some(ep) => ep.service_name,
        None => None,
    }
}

/// The service a span ran in, when it names one.
pub open spec fn local_service(span: SpanView) -> Option<Seq<char>> {
    match span.local_endpoint {
        Some(ep) => ep.service_name,
        None => None,
    }
}

/// Whether a pair counts the calls of `name`.
pub open spec fn call_of(name: Seq<char>) -> spec_fn((Seq<char>, i32)) -> bool {
    |c: (Seq<char>, i32)| c.0 == name
}

/// Counts one more call of `name`: its pair goes up by one, or a new pair
/// with count one is added at the end.
pub open spec fn count_call(counts: Seq<(Seq<char>, i32)>, name: Seq<char>) -> Seq<
    (Seq<char>, i32),
> {
    match first_where(counts, call_of(name)) {
        Some(i) => counts.update(i, (name, (counts[i].1 + 1) as i32)),
        None => counts.push((name, 1i32)),
    }
}

/// Counting a call keeps each name in one pair.
pub proof fn lemma_count_call_once(counts: Seq<(Seq<char>, i32)>, name: Seq<char>)
    requires
        names_once(counts),
    ensures
        names_once(count_call(counts, name)),
{
    lemma_first_where(counts, call_of(name));
    let hit = first_where(counts, call_of(name));
    let out = count_call(counts, name);
    assert forall|i: int, j: int| 0 <= i < j < out.len() implies out[i].0 != out[j].0 by {
        match hit {
            Some(k) => {
                assert(counts[k].0 == name);
                assert(out[i].0 == counts[i].0 && out[j].0 == counts[j].0);
            },
            None => {
                if j < counts.len() {
                    assert(out[i] == counts[i] && out[j] == counts[j]);
                } else {
                    assert(counts[i].0 != name);
                }
            },
        }
    }
}

/// Each remote service has one pair in the counts of the calls.
pub proof fn lemma_components_called_once(spans: Seq<SpanView>)
    ensures
        names_once(components_called(spans)),
    decreases spans.len(),
{
    if spans.len() > 0 {
        lemma_components_called_once(spans.drop_last());
        match remote_service(spans.last()) {
            Some(name) => {
                lemma_count_call_once(components_called(spans.drop_last()), name);
            },
            None => {},
        }
    }
}

/// How often each remote service is called by the spans, in the order in
/// which the services first occur.
pub open spec fn components_called(spans: Seq<SpanView>) -> Seq<(Seq<char>, i32)>
    decreases spans.len(),
{
    if spans.len() == 0 {
        Seq::empty()
    } else {
        let before = components_called(spans.drop_last());
        match remote_service(spans.last()) {
            Some(name) => count_call(before, name),
            None => before,
        }
    }
}

/// The suite of a test: the `test.suite` tag, else the local service.
pub open spec fn suite_of(root: SpanView) -> Option<Seq<char>> {
    match tag_value(root.tags, ikrelln_tag_name(IkrellnTags::Suite)) {
        Some(v) => Some(v),
        None => local_service(root),
    }
}

/// The name of a test: the `test.name` tag, else the span's name.
pub open spec fn test_name_of(root: SpanView) -> Option<Seq<char>> {
    match tag_value(root.tags, ikrelln_tag_name(IkrellnTags::Name)) {
        Some(v) => Some(v),
        None => root.name,
    }
}

/// What an `error` tag says about the result, from its lower-cased value:
/// `true` means a failure, any other text is taken as the result's name.
pub open spec fn result_of_error(lowered: Seq<char>) -> Seq<char> {
    if lowered == "true"@ {
        "failure"@
    } else {
        lowered
    }
}

/// The text that names the result: the `test.result` tag, else what the
/// `error` tag says.
pub open spec fn result_text_of(root: SpanView) -> Option<Seq<char>> {
    match tag_value(root.tags, ikrelln_tag_name(IkrellnTags::Result)) {
        Some(v) => Some(v),
        None => match tag_value(root.tags, "error"@) {
            Some(v) => Some(result_of_error(lowercase_of(v))),
            None => None,
        },
    }
}

/// The status of a test, when the root span names a valid one.
pub open spec fn status_of(root: SpanView) -> Option<TestStatus> {
    match result_text_of(root) {
        Some(text) => status_of_lowercase(lowercase_of(text)),
        None => None,
    }
}

/// The name of the first thing a trace lacks to be a test result, in the
/// order in which derivation looks: a root span (reported as
/// `test.step_type`), the suite, the class, the name, the timestamp (`ts`),
/// a valid result, the duration.
pub open spec fn missing_tag(spans: Seq<SpanView>) -> Option<Seq<char>> {
    match root_index(spans) {
        None => Some(ikrelln_tag_name(IkrellnTags::StepType)),
        Some(i) => {
            let root = spans[i];
            if suite_of(root) is None {
                Some(ikrelln_tag_name(IkrellnTags::Suite))
            } else if tag_value(root.tags, ikrelln_tag_name(IkrellnTags::Class)) is None {
                Some(ikrelln_tag_name(IkrellnTags::Class))
            } else if test_name_of(root) is None {
                Some(ikrelln_tag_name(IkrellnTags::Name))
            } else if root.timestamp is None {
                Some("ts"@)
            } else if status_of(root) is None {
                Some(ikrelln_tag_name(IkrellnTags::Result))
            } else if root.duration is None {
                Some("duration"@)
            } else {
                None
            }
        },
    }
}

/// The test result of a trace that lacks nothing. It is not yet attached
/// to a test item: its `test_id` is `n/a` until it is saved.
pub open spec fn derived_result(spans: Seq<SpanView>) -> TestResultView
    recommends
        missing_tag(spans) is None,
{
    let root = spans[root_index(spans)->0];
    TestResultView {
        test_id: "n/a"@,
        path: seq![
            suite_of(root)->0,
            tag_value(root.tags, ikrelln_tag_name(IkrellnTags::Class))->0,
        ],
        name: test_name_of(root)->0,
        trace_id: root.trace_id,
        date: root.timestamp->0,
        status: status_of(root)->0,
        duration: root.duration->0,
        environment: tag_value(root.tags, ikrelln_tag_name(IkrellnTags::Environment)),
        components_called: components_called(spans),
        nb_spans: spans.len() as i32,
        main_span: Some(root),
    }
}

/// Counts one more call of `name` in `counts`.
pub fn add_call(counts: &mut Vec<(String, i32)>, name: &String)
    requires
        forall|k: int| 0 <= k < old(counts).len() ==> old(counts)[k].1 < i32::MAX,
    ensures
        final(counts).deep_view() == count_call(old(counts).deep_view(), name@),
{
    let mut i: usize = 0;
    while i < counts.len()
        invariant
            i <= counts.len(),
            *counts == *old(counts),
            forall|k: int| 0 <= k < counts.len() ==> counts[k].1 < i32::MAX,
            forall|k: int| 0 <= k < i ==> counts.deep_view()[k].0 != name@,
        decreases counts.len() - i,
    {
        if counts[i].0 == *name {
            proof {
                lemma_first_where_at(
                    counts.deep_view(),
                    call_of(name@),
                    i as int,
                );
            }
            let n: i32 = counts[i].1 + 1;
            counts.set(i, (name.clone(), n));
            assert(counts.deep_view() =~= old(counts).deep_view().update(i as int, (name@, n)));
            return ;
        }
        i += 1;
    }
    proof {
        lemma_first_where_none(counts.deep_view(), call_of(name@));
    }
    counts.push((name.clone(), 1));
    assert(counts.deep_view() =~= old(counts).deep_view().push((name@, 1i32)));
}

/// What an `error` tag says about the result, from its lower-cased value.
pub fn result_from_error(lowered: &str) -> (r: String)
    ensures
        r@ == result_of_error(lowered@),
{
    if lowered.eq("true") {
        "failure".to_string()
    } else {
        lowered.to_string()
    }
}

/// How often each remote service is called by the spans.
pub fn count_components(spans: &Vec<Span>) -> (counts: Vec<(String, i32)>)
    requires
        spans.len() <= i32::MAX,
    ensures
        counts.deep_view() == components_called(views(spans@)),
        names_once(counts.deep_view()),
{
    proof {
        lemma_components_called_once(views(spans@));
    }
    let mut counts: Vec<(String, i32)> = Vec::new();
    let mut i: usize = 0;
    assert(views(spans@).take(0) =~= Seq::<SpanView>::empty());
    while i < spans.len()
        invariant
            i <= spans.len(),
            spans.len() <= i32::MAX,
            counts.deep_view() == components_called(views(spans@).take(i as int)),
            forall|k: int| 0 <= k < counts.len() ==> counts[k].1 <= i,
        decreases spans.len() - i,
    {
        let ghost before = counts.deep_view();
        let ghost before_exec = counts@;
        let ghost all = views(spans@);
        assert(all.take(i + 1).drop_last() =~= all.take(i as int));
        assert(all.take(i + 1).last() == spans[i as int]@);
        match &spans[i].remote_endpoint {
            Some(ep) => match &ep.service_name {
                Some(name) => {
                    add_call(&mut counts, name);
                    proof {
                        let hit = first_where(before, call_of(name@));
                        lemma_first_where(before, call_of(name@));
                        assert forall|k: int| 0 <= k < before.len() implies before[k].1 <= i by {
                            assert(before[k].1 == before_exec[k].1);
                        }
                        let after = counts.deep_view();
                        assert(after == count_call(before, name@));
                        assert forall|k: int| 0 <= k < counts.len() implies counts[k].1 <= i
                            + 1 by {
                            assert(after[k].1 == counts[k].1);
                            match hit {
                                Some(j) => {
                                    assert(after == before.update(
                                        j,
                                        (name@, (before[j].1 + 1) as i32),
                                    ));
                                },
                                None => {
                                    assert(after == before.push((name@, 1i32)));
                                },
                            }
                        }
                    }
                },
                None => {},
            },
            None => {},
        }
        i += 1;
    }
    assert(views(spans@).take(spans.len() as int) =~= views(spans@));
    counts
}

impl TestResult {
    /// The value of one of the `test.*` tags, or the tag's name when the
    /// tags do not hold it.
    pub fn value_from_tag(tags: &Vec<(String, String)>, tag: IkrellnTags) -> (r: Result<
        String,
        KnownTag,
    >)
        ensures
            match r {
                Ok(v) => tag_value(tags.deep_view(), ikrelln_tag_name(tag)) == Some(v@),
                Err(t) => tag_value(tags.deep_view(), ikrelln_tag_name(tag)) is None && t@
                    == ikrelln_tag_name(tag),
            },
    {
        match find_tag(tags, tag.as_str()) {
            Some(v) => Ok(v),
            None => Err(KnownTag::ikrelln(tag)),
        }
    }

    /// The value of one of the `test.*` tags of a span, else the fallback,
    /// else the tag's name as the error.
    pub fn value_from_tag_or(span: &Span, tag: IkrellnTags, fallback: Option<String>) -> (r:
        Result<String, KnownTag>)
        ensures
            match r {
                Ok(v) => Some(v@) == match tag_value(span@.tags, ikrelln_tag_name(tag)) {
                    Some(t) => Some(t),
                    None => opt_view(fallback),
                },
                Err(t) => tag_value(span@.tags, ikrelln_tag_name(tag)) is None && fallback is None
                    && t@ == ikrelln_tag_name(tag),
            },
    {
        match find_tag(&span.tags, tag.as_str()) {
            Some(v) => Ok(v),
            None => match fallback {
                Some(v) => Ok(v),
                None => Err(KnownTag::ikrelln(tag)),
            },
        }
    }

    /// Derives the test result of a trace from its spans. Succeeds exactly
    /// when the trace lacks nothing that a test result needs; otherwise
    /// the error names the first thing that is missing or invalid.
    pub fn try_from(spans: &Vec<Span>) -> (r: Result<TestResult, KnownTag>)
        requires
            spans.len() <= i32::MAX,
        ensures
            match r {
                Ok(tr) => missing_tag(views(spans@)) is None && tr@ == derived_result(
                    views(spans@),
                ) && names_once(tr@.components_called),
                Err(tag) => missing_tag(views(spans@)) == Some(tag@),
            },
    {
        proof {
            lemma_components_called_once(views(spans@));
        }
        let ghost all = views(spans@);
        let ghost is_root = |s: SpanView| s.parent_id is None;
        let mut i: usize = 0;
        while i < spans.len() && spans[i].parent_id.is_some()
            invariant
                i <= spans.len(),
                forall|k: int| 0 <= k < i ==> spans[k].parent_id is Some,
            decreases spans.len() - i,
        {
            i += 1;
        }
        if i >= spans.len() {
            proof {
                assert forall|k: int| 0 <= k < all.len() implies !is_root(all[k]) by {
                    assert(all[k] == spans[k]@);
                }
                lemma_first_where_none(all, is_root);
            }
            return Err(KnownTag::ikrelln(IkrellnTags::StepType));
        }
        proof {
            assert forall|k: int| 0 <= k < i implies !is_root(all[k]) by {
                assert(all[k] == spans[k]@);
            }
            assert(all[i as int] == spans[i as int]@);
            lemma_first_where_at(all, is_root, i as int);
        }
        let main_span = &spans[i];
        let local = match &main_span.local_endpoint {
            Some(ep) => clone_opt_string(&ep.service_name),
            None => None,
        };
        let suite = match TestResult::value_from_tag_or(main_span, IkrellnTags::Suite, local) {
            Ok(v) => v,
            Err(tag) => {
                return Err(tag);
            },
        };
        let class = match TestResult::value_from_tag(&main_span.tags, IkrellnTags::Class) {
            Ok(v) => v,
            Err(tag) => {
                return Err(tag);
            },
        };
        let components = count_components(spans);
        let name = match TestResult::value_from_tag_or(
            main_span,
            IkrellnTags::Name,
            clone_opt_string(&main_span.name),
        ) {
            Ok(v) => v,
            Err(tag) => {
                return Err(tag);
            },
        };
        let date: i64 = match main_span.timestamp {
            Some(ts) => ts,
            None => {
                return Err(KnownTag::named("ts"));
            },
        };
        let from_error = match find_tag(&main_span.tags, OpenTracingTag::Error.as_str()) {
            Some(v) => {
                let lowered = to_lowercase(v.as_str());
                Some(result_from_error(lowered.as_str()))
            },
            None => None,
        };
        let result_text = match TestResult::value_from_tag_or(
            main_span,
            IkrellnTags::Result,
            from_error,
        ) {
            Ok(v) => v,
            Err(tag) => {
                return Err(tag);
            },
        };
        let status = match TestStatus::try_from(result_text.as_str()) {
            Ok(v) => v,
            Err(tag) => {
                return Err(tag);
            },
        };
        let duration: i64 = match main_span.duration {
            Some(d) => d,
            None => {
                return Err(KnownTag::named("duration"));
            },
        };
        let environment = find_tag(&main_span.tags, IkrellnTags::Environment.as_str());
        let mut path: Vec<String> = Vec::new();
        path.push(suite);
        path.push(class);
        let result = TestResult {
            test_id: "n/a".to_string(),
            path,
            name,
            trace_id: main_span.trace_id.clone(),
            date,
            status,
            duration,
            environment,
            components_called: components,
            nb_spans: spans.len() as i32,
            main_span: Some(main_span.clone()),
        };
        assert(result@.path =~= derived_result(all).path);
        Ok(result)
    }
}

/// How the look at a finished trace ended: it was dropped for what it
/// lacks, its test result could not be attached to a test item, or its
/// test result was saved and is emitted with the orders it gave rise to.
#[derive(Debug)]
pub enum TraceOutcome {
    Dropped(KnownTag),
    Unsaved,
    Emitted(TestResult),
}

/// The number of test items that a derived result leads through: its
/// suite, its class and the test itself.
pub const DERIVED_ITEMS: usize = 3;

/// The orders that a saved result of a trace gives rise to by itself.
pub open spec fn orders_of_trace(s: Store, result: TestResultView, now: i64) -> Seq<
    crate::engine::report::ResultForReportView,
> {
    orders_for(reports_of_spans(trace_spans(s, result.trace_id, now)), result)
}

/// The store after a finished trace was looked at, at the time `now`:
/// unchanged where the trace lacks something; else the test result is
/// saved and placed in the reports of the remote endpoints of its trace.
/// `item_ids` are for the test items that have to be added, `report_ids`
/// for the reports, one for each order as far as there are orders.
pub open spec fn after_trace_done(
    s: Store,
    trace_id: Seq<char>,
    now: i64,
    item_ids: Seq<Seq<char>>,
    report_ids: Seq<Seq<char>>,
) -> Store {
    let spans = trace_spans(s, trace_id, now);
    if missing_tag(spans) is Some {
        s
    } else {
        let saved = saved_test_result(s, derived_result(spans), item_ids);
        match saved.1 {
            Some(test_id) => {
                let orders = orders_of_trace(
                    saved.0,
                    TestResultView { test_id, ..derived_result(spans) },
                    now,
                );
                placed_all(saved.0, orders, now, prefix(report_ids, orders.len()))
            },
            None => saved.0,
        }
    }
}

/// Whether an outcome is the one that the look at a trace has to have:
/// the trace is dropped exactly where it lacks something, with the name
/// of what it lacks; else its result is emitted exactly where saving it
/// led to a test item, with the identifier of that item; else it is
/// unsaved.
pub open spec fn is_outcome_of(
    outcome: TraceOutcome,
    s: Store,
    trace_id: Seq<char>,
    now: i64,
    item_ids: Seq<Seq<char>>,
) -> bool {
    let spans = trace_spans(s, trace_id, now);
    let saved = saved_test_result(s, derived_result(spans), item_ids);
    match outcome {
        TraceOutcome::Dropped(tag) => missing_tag(spans) == Some(tag@),
        TraceOutcome::Unsaved => missing_tag(spans) is None && saved.1 is None,
        TraceOutcome::Emitted(result) => missing_tag(spans) is None && saved.1 == Some(
            result@.test_id,
        ) && result@ == (TestResultView { test_id: result@.test_id, ..derived_result(spans) }),
    }
}

/// The actor that looks at finished traces.
#[derive(Debug, Clone, Copy, PartialEq, Eq, Structural)]
pub struct TraceParser;

impl TraceParser {
    /// Derives the test result of a trace from the spans that the store
    /// holds of it at the time `now`.
    pub fn derive(db: &DbExecutor, trace_id: &String, now: i64) -> (r: Result<TestResult, KnownTag>)
        ensures
            match r {
                Ok(tr) => missing_tag(trace_spans(db@, trace_id@, now)) is None && tr@
                    == derived_result(trace_spans(db@, trace_id@, now)),
                Err(tag) => missing_tag(trace_spans(db@, trace_id@, now)) == Some(tag@),
            },
    {
        let spans = read_trace(db, trace_id, now);
        TestResult::try_from(&spans)
    }

    /// Looks at a finished trace at the time `now`: derives its test
    /// result, saves it, and places it in the reports of the remote
    /// endpoints that the trace called. The emitted result is the saved
    /// one, to hand to the scripts. `item_ids` gives the identifiers for
    /// the test items that have to be added, `report_ids` those for the
    /// reports: one for every span that can be looked at.
    pub fn trace_done_with_ids(
        db: &mut DbExecutor,
        trace_id: &String,
        now: i64,
        item_ids: &Vec<String>,
        report_ids: &Vec<String>,
    ) -> (outcome: TraceOutcome)
        requires
            item_ids.len() == DERIVED_ITEMS,
            report_ids.len() >= TRACE_SPAN_LIMIT,
        ensures
            final(db)@ == after_trace_done(
                old(db)@,
                trace_id@,
                now,
                views(item_ids@),
                views(report_ids@),
            ),
            is_outcome_of(outcome, old(db)@, trace_id@, now, views(item_ids@)),
            well_formed(old(db)@) ==> well_formed(final(db)@),
    {
        proof {
            if well_formed(old(db)@) {
                lemma_after_trace_done_well_formed(
                    old(db)@,
                    trace_id@,
                    now,
                    views(item_ids@),
                    views(report_ids@),
                );
            }
        }
        let derived = match TraceParser::derive(db, trace_id, now) {
            Ok(tr) => tr,
            Err(tag) => {
                return TraceOutcome::Dropped(tag);
            },
        };
        assert(views(derived.path@).len() == derived.path.len());
        let saved = match db.save_test_result_with_ids(derived, item_ids) {
            Some(saved) => saved,
            None => {
                return TraceOutcome::Unsaved;
            },
        };
        let orders = Reporter::compute_reports_for_result(db, &saved, now);
        assert(views(orders@).len() == orders.len());
        let ids = first_rows(report_ids, orders.len());
        assert(views(ids@).len() == ids.len());
        Reporter::place_all_with_ids(db, &orders, now, &ids);
        TraceOutcome::Emitted(saved)
    }

    /// Looks at a finished trace at the time `now`, with fresh
    /// identifiers for the test items and reports that have to be added.
    pub fn trace_done_at(db: &mut DbExecutor, trace_id: &String, now: i64) -> (outcome: TraceOutcome)
        ensures
            exists|item_ids: Seq<Seq<char>>, report_ids: Seq<Seq<char>>|
                {
                    &&& all_uuids(item_ids)
                    &&& all_uuids(report_ids)
                    &&& final(db)@ == after_trace_done(
                        old(db)@,
                        trace_id@,
                        now,
                        item_ids,
                        report_ids,
                    )
                    &&& is_outcome_of(outcome, old(db)@, trace_id@, now, item_ids)
                },
            well_formed(old(db)@) ==> well_formed(final(db)@),
    {
        let ghost start = db@;
        let item_ids = fresh_ids(DERIVED_ITEMS);
        let ghost shown_items = views(item_ids@);
        let derived = match TraceParser::derive(db, trace_id, now) {
            Ok(tr) => tr,
            Err(tag) => {
                let ghost none = Seq::<Seq<char>>::empty();
                assert(all_uuids(shown_items) && all_uuids(none) && db@ == after_trace_done(
                    start,
                    trace_id@,
                    now,
                    shown_items,
                    none,
                ) && is_outcome_of(TraceOutcome::Dropped(tag), start, trace_id@, now, shown_items));
                return TraceOutcome::Dropped(tag);
            },
        };
        assert(views(derived.path@).len() == derived.path.len());
        let saved = match db.save_test_result_with_ids(derived, &item_ids) {
            Some(saved) => saved,
            None => {
                let ghost none = Seq::<Seq<char>>::empty();
                assert(all_uuids(shown_items) && all_uuids(none) && db@ == after_trace_done(
                    start,
                    trace_id@,
                    now,
                    shown_items,
                    none,
                ) && is_outcome_of(TraceOutcome::Unsaved, start, trace_id@, now, shown_items));
                return TraceOutcome::Unsaved;
            },
        };
        let orders = Reporter::compute_reports_for_result(db, &saved, now);
        let report_ids = fresh_ids(orders.len());
        let ghost shown_reports = views(report_ids@);
        assert(views(orders@).len() == orders.len());
        assert(prefix(shown_reports, views(orders@).len()) =~= shown_reports);
        Reporter::place_all_with_ids(db, &orders, now, &report_ids);
        let outcome = TraceOutcome::Emitted(saved);
        assert(all_uuids(shown_items) && all_uuids(shown_reports) && db@ == after_trace_done(
            start,
            trace_id@,
            now,
            shown_items,
            shown_reports,
        ) && is_outcome_of(outcome, start, trace_id@, now, shown_items));
        outcome
    }

    /// Looks at a finished trace now.
    pub fn trace_done(db: &mut DbExecutor, trace_id: &String) -> (outcome: TraceOutcome)
        ensures
            exists|now: i64, item_ids: Seq<Seq<char>>, report_ids: Seq<Seq<char>>|
                {
                    &&& all_uuids(item_ids)
                    &&& all_uuids(report_ids)
                    &&& final(db)@ == after_trace_done(
                        old(db)@,
                        trace_id@,
                        now,
                        item_ids,
                        report_ids,
                    )
                    &&& is_outcome_of(outcome, old(db)@, trace_id@, now, item_ids)
                },
            well_formed(old(db)@) ==> well_formed(final(db)@),
    {
        let now = now_micros();
        TraceParser::trace_done_at(db, trace_id, now)
    }
}

} // verus!
