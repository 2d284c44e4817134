//! The pipeline between ingestion and the store: deriving test results from
//! traces, computing report placements, and the script registry.

use vstd::prelude::*;
use vstd::string::StringExecFns;

pub mod ingestor;
pub mod report;
pub mod streams;
pub mod test_result;

verus! {

/// The greeting served at the root of the HTTP surface.
pub fn hello() -> (greeting: &'static str)
    ensures
        greeting@ == "I am i'Krelln"@,
{
    "I am i'Krelln"
}

/// Whether a character is a hexadecimal digit in lower case.
pub open spec fn is_lower_hex(c: char) -> bool {
    ('0' <= c && c <= '9') || ('a' <= c && c <= 'f')
}

/// Whether a text has the shape of a version 4 UUID in the hyphenated
/// form: thirty-six characters in groups of eight, four, four, four and
/// twelve hexadecimal digits in lower case with a hyphen between the
/// groups, the third group starting with the version `4` and the fourth
/// with one of `8`, `9`, `a`, `b` for the variant.
pub open spec fn is_uuid_v4(s: Seq<char>) -> bool {
    &&& s.len() == 36
    &&& forall|i: int|
        0 <= i < 36 ==> if i == 8 || i == 13 || i == 18 || i == 23 {
            #[trigger] s[i] == '-'
        } else {
            is_lower_hex(s[i])
        }
    &&& s[14] == '4'
    &&& (s[19] == '8' || s[19] == '9' || s[19] == 'a' || s[19] == 'b')
}

/// Whether every one of the texts has the shape of a version 4 UUID.
pub open spec fn all_uuids(ids: Seq<Seq<char>>) -> bool {
    forall|k: int| 0 <= k < ids.len() ==> is_uuid_v4(#[trigger] ids[k])
}

/// A fresh identifier: a version 4 UUID from `uuid::Uuid::new_v4`, in the
/// hyphenated form. Which one it is is left to chance; the contract says
/// what every one of them looks like, as `new_v4` sets version and variant
/// and the hyphenated form writes them. Not proved.
/// (uuid gives up where the system has no random bytes to offer.)
#[verifier::external_body]
pub(crate) fn new_uuid() -> (id: String)
    ensures
        is_uuid_v4(id@),
{
    uuid::Uuid::new_v4().hyphenated().to_string()
}

/// The time of the call in microseconds since the epoch, from
/// `chrono::Utc::now`. Nothing is promised about it: it is the clock's.
/// (chrono gives up where the clock stands before the epoch.)
#[verifier::external_body]
pub(crate) fn now_micros() -> (now: i64) {
    chrono::Utc::now().timestamp_micros()
}

/// `kind(id)`, the form in which a typed identifier is shown.
pub open spec fn shown(kind: Seq<char>, id: Seq<char>) -> Seq<char> {
    kind + "("@ + id + ")"@
}

fn show(kind: &str, id: &str) -> (s: String)
    ensures
        s@ == shown(kind@, id@),
{
    let mut s = kind.to_string();
    s.append("(");
    s.append(id);
    s.append(")");
    s
}

/// The identifier of one accepted batch of spans.
#[derive(Debug)]
pub struct IngestId(pub String);

impl View for IngestId {
    type V = Seq<char>;

    open spec fn view(&self) -> Seq<char> {
        self.0@
    }
}

impl Clone for IngestId {
    fn clone(&self) -> (r: Self)
        ensures
            r@ == self@,
    {
        IngestId(self.0.clone())
    }
}

impl IngestId {
    /// A fresh, random identifier: a version 4 UUID in the hyphenated form.
    pub fn new() -> (id: IngestId)
        ensures
            is_uuid_v4(id@),
    {
        IngestId(new_uuid())
    }

    pub fn from(v: String) -> (r: IngestId)
        ensures
            r@ == v@,
    {
        IngestId(v)
    }

    pub fn to_string(&self) -> (s: String)
        ensures
            s@ == shown("IngestId"@, self@),
    {
        show("IngestId", self.0.as_str())
    }
}

/// The identifier of an instrumented application.
#[derive(Debug)]
pub struct ApplicationId(pub String);

impl View for ApplicationId {
    type V = Seq<char>;

    open spec fn view(&self) -> Seq<char> {
        self.0@
    }
}

impl ApplicationId {
    /// A fresh, random identifier: a version 4 UUID in the hyphenated form.
    pub fn new() -> (id: ApplicationId)
        ensures
            is_uuid_v4(id@),
    {
        ApplicationId(new_uuid())
    }

    pub fn from(v: String) -> (r: ApplicationId)
        ensures
            r@ == v@,
    {
        ApplicationId(v)
    }

    pub fn to_string(&self) -> (s: String)
        ensures
            s@ == shown("ApplicationId"@, self@),
    {
        show("ApplicationId", self.0.as_str())
    }
}

/// The identifier of a free-form tag of an application.
#[derive(Debug)]
pub struct TagId(pub String);

impl View for TagId {
    type V = Seq<char>;

    open spec fn view(&self) -> Seq<char> {
        self.0@
    }
}

impl TagId {
    /// A fresh, random identifier: a version 4 UUID in the hyphenated form.
    pub fn new() -> (id: TagId)
        ensures
            is_uuid_v4(id@),
    {
        TagId(new_uuid())
    }

    pub fn from(v: String) -> (r: TagId)
        ensures
            r@ == v@,
    {
        TagId(v)
    }

    pub fn to_string(&self) -> (s: String)
        ensures
            s@ == shown("TagId"@, self@),
    {
        show("TagId", self.0.as_str())
    }
}

/// The identifier of a test of an application.
#[derive(Debug)]
pub struct TestId(pub String);

impl View for TestId {
    type V = Seq<char>;

    open spec fn view(&self) -> Seq<char> {
        self.0@
    }
}

impl TestId {
    /// A fresh, random identifier: a version 4 UUID in the hyphenated form.
    pub fn new() -> (id: TestId)
        ensures
            is_uuid_v4(id@),
    {
        TestId(new_uuid())
    }

    pub fn from(v: String) -> (r: TestId)
        ensures
            r@ == v@,
    {
        TestId(v)
    }

    pub fn to_string(&self) -> (s: String)
        ensures
            s@ == shown("TestId"@, self@),
    {
        show("TestId", self.0.as_str())
    }
}

/// The identifier of a step of a test.
#[derive(Debug)]
pub struct StepId(pub String);

impl View for StepId {
    type V = Seq<char>;

    open spec fn view(&self) -> Seq<char> {
        self.0@
    }
}

impl StepId {
    /// A fresh, random identifier: a version 4 UUID in the hyphenated form.
    pub fn new() -> (id: StepId)
        ensures
            is_uuid_v4(id@),
    {
        StepId(new_uuid())
    }

    pub fn from(v: String) -> (r: StepId)
        ensures
            r@ == v@,
    {
        StepId(v)
    }

    pub fn to_string(&self) -> (s: String)
        ensures
            s@ == shown("StepId"@, self@),
    {
        show("StepId", self.0.as_str())
    }
}

/// A free-form tag of an application.
#[derive(Debug)]
pub struct Tag {
    pub id: TagId,
    pub name: String,
}

/// An instrumented application and its tags.
#[derive(Debug)]
pub struct Application {
    pub id: ApplicationId,
    pub name: String,
    pub tags: Vec<Tag>,
}

impl Application {
    /// The identifier.
    pub fn id(&self) -> (id: &ApplicationId)
        ensures
            *id == self.id,
    {
        &self.id
    }
}

/// A test of an application. The duration is in microseconds.
#[derive(Debug)]
pub struct Test {
    pub id: TestId,
    pub application: Application,
    pub name: String,
    pub duration: u64,
    pub tags: Vec<Tag>,
}

/// A step of a test, possibly run in another application.
#[derive(Debug)]
pub struct Step {
    pub id: StepId,
    pub test: Test,
    pub application: Option<Application>,
    pub name: String,
    pub duration: u64,
    pub tags: Vec<Tag>,
}

impl Step {
    /// The identifier.
    pub fn id(&self) -> (id: &StepId)
        ensures
            *id == self.id,
    {
        &self.id
    }
}

} // verus!
