//! The tag names this service knows: the OpenTracing semantic conventions
//! (v1.1) and the `test.*` names that mark a trace as a test execution.

use vstd::prelude::*;

verus! {

/// The name of a tag that was looked for, kept for the warning that says
/// which tag a trace lacked.
#[derive(Debug)]
pub struct KnownTag {
    pub tag: String,
}

impl View for KnownTag {
    type V = Seq<char>;

    open spec fn view(&self) -> Seq<char> {
        self.tag@
    }
}

/// The tags of the OpenTracing semantic conventions.
#[derive(Debug, Clone, Copy, PartialEq, Eq, Structural)]
pub enum OpenTracingTag {
    Component,
    DbInstance,
    DbStatement,
    DbType,
    DbUser,
    Error,
    HttpMethod,
    HttpStatusCode,
    HttpUrl,
    MessageBusDestination,
    PeerAddress,
    PeerHostname,
    PeerIpv4,
    PeerIpv6,
    PeerPort,
    PeerService,
    SamplingPriority,
    SpanKind,
}

/// Marks a text that is no OpenTracing tag name.
#[derive(Debug, Clone, Copy, PartialEq, Eq, Structural)]
pub struct NonOpenTracingTag;

/// The name of an OpenTracing tag.
pub open spec fn open_tracing_tag_name(tag: OpenTracingTag) -> Seq<char> {
    match tag {
        OpenTracingTag::Component => "component"@,
        OpenTracingTag::DbInstance => "db.instance"@,
        OpenTracingTag::DbStatement => "db.statement"@,
        OpenTracingTag::DbType => "db.type"@,
        OpenTracingTag::DbUser => "db.user"@,
        OpenTracingTag::Error => "error"@,
        OpenTracingTag::HttpMethod => "http.method"@,
        OpenTracingTag::HttpStatusCode => "http.status_code"@,
        OpenTracingTag::HttpUrl => "http.url"@,
        OpenTracingTag::MessageBusDestination => "message_bus.destination"@,
        OpenTracingTag::PeerAddress => "peer.address"@,
        OpenTracingTag::PeerHostname => "peer.hostname"@,
        OpenTracingTag::PeerIpv4 => "peer.ipv4"@,
        OpenTracingTag::PeerIpv6 => "peer.ipv6"@,
        OpenTracingTag::PeerPort => "peer.port"@,
        OpenTracingTag::PeerService => "peer.service"@,
        OpenTracingTag::SamplingPriority => "sampling.priority"@,
        OpenTracingTag::SpanKind => "span.kind"@,
    }
}

impl OpenTracingTag {
    pub fn as_str(self) -> (s: &'static str)
        ensures
            s@ == open_tracing_tag_name(self),
    {
        match self {
            OpenTracingTag::Component => "component",
            OpenTracingTag::DbInstance => "db.instance",
            OpenTracingTag::DbStatement => "db.statement",
            OpenTracingTag::DbType => "db.type",
            OpenTracingTag::DbUser => "db.user",
            OpenTracingTag::Error => "error",
            OpenTracingTag::HttpMethod => "http.method",
            OpenTracingTag::HttpStatusCode => "http.status_code",
            OpenTracingTag::HttpUrl => "http.url",
            OpenTracingTag::MessageBusDestination => "message_bus.destination",
            OpenTracingTag::PeerAddress => "peer.address",
            OpenTracingTag::PeerHostname => "peer.hostname",
            OpenTracingTag::PeerIpv4 => "peer.ipv4",
            OpenTracingTag::PeerIpv6 => "peer.ipv6",
            OpenTracingTag::PeerPort => "peer.port",
            OpenTracingTag::PeerService => "peer.service",
            OpenTracingTag::SamplingPriority => "sampling.priority",
            OpenTracingTag::SpanKind => "span.kind",
        }
    }

    /// Reads a tag from its name: `Ok` for the eighteen names, `Err` for
    /// every other text.
    pub fn from_str(s: &str) -> (r: Result<OpenTracingTag, NonOpenTracingTag>)
        ensures
            match r {
                Ok(tag) => open_tracing_tag_name(tag) == s@,
                Err(_) => forall|tag: OpenTracingTag| open_tracing_tag_name(tag) != s@,
            },
    {
        if s.eq("component") {
            Ok(OpenTracingTag::Component)
        } else if s.eq("db.instance") {
            Ok(OpenTracingTag::DbInstance)
        } else if s.eq("db.statement") {
            Ok(OpenTracingTag::DbStatement)
        } else if s.eq("db.type") {
            Ok(OpenTracingTag::DbType)
        } else if s.eq("db.user") {
            Ok(OpenTracingTag::DbUser)
        } else if s.eq("error") {
            Ok(OpenTracingTag::Error)
        } else if s.eq("http.method") {
            Ok(OpenTracingTag::HttpMethod)
        } else if s.eq("http.status_code") {
            Ok(OpenTracingTag::HttpStatusCode)
        } else if s.eq("http.url") {
            Ok(OpenTracingTag::HttpUrl)
        } else if s.eq("message_bus.destination") {
            Ok(OpenTracingTag::MessageBusDestination)
        } else if s.eq("peer.address") {
            Ok(OpenTracingTag::PeerAddress)
        } else if s.eq("peer.hostname") {
            Ok(OpenTracingTag::PeerHostname)
        } else if s.eq("peer.ipv4") {
            Ok(OpenTracingTag::PeerIpv4)
        } else if s.eq("peer.ipv6") {
            Ok(OpenTracingTag::PeerIpv6)
        } else if s.eq("peer.port") {
            Ok(OpenTracingTag::PeerPort)
        } else if s.eq("peer.service") {
            Ok(OpenTracingTag::PeerService)
        } else if s.eq("sampling.priority") {
            Ok(OpenTracingTag::SamplingPriority)
        } else if s.eq("span.kind") {
            Ok(OpenTracingTag::SpanKind)
        } else {
            Err(NonOpenTracingTag)
        }
    }
}

/// The tags that mark a span as a test execution.
#[derive(Debug, Clone, Copy, PartialEq, Eq, Structural)]
pub enum IkrellnTags {
    Class,
    Environment,
    Name,
    Result,
    StepParameters,
    StepStatus,
    StepType,
    Suite,
}

/// Marks a text that is none of the `test.*` tag names.
#[derive(Debug, Clone, Copy, PartialEq, Eq, Structural)]
pub struct NonIkrellnTag;

/// The name of one of the `test.*` tags.
pub open spec fn ikrelln_tag_name(tag: IkrellnTags) -> Seq<char> {
    match tag {
        IkrellnTags::Class => "test.class"@,
        IkrellnTags::Environment => "test.environment"@,
        IkrellnTags::Name => "test.name"@,
        IkrellnTags::Result => "test.result"@,
        IkrellnTags::StepParameters => "test.step_parameters"@,
        IkrellnTags::StepStatus => "test.step_status"@,
        IkrellnTags::StepType => "test.step_type"@,
        IkrellnTags::Suite => "test.suite"@,
    }
}

impl IkrellnTags {
    pub fn as_str(self) -> (s: &'static str)
        ensures
            s@ == ikrelln_tag_name(self),
    {
        match self {
            IkrellnTags::Class => "test.class",
            IkrellnTags::Environment => "test.environment",
            IkrellnTags::Name => "test.name",
            IkrellnTags::Result => "test.result",
            IkrellnTags::StepParameters => "test.step_parameters",
            IkrellnTags::StepStatus => "test.step_status",
            IkrellnTags::StepType => "test.step_type",
            IkrellnTags::Suite => "test.suite",
        }
    }

    /// Reads a tag from its name: `Ok` for the eight names, `Err` for
    /// every other text.
    pub fn from_str(s: &str) -> (r: Result<IkrellnTags, NonIkrellnTag>)
        ensures
            match r {
                Ok(tag) => ikrelln_tag_name(tag) == s@,
                Err(_) => forall|tag: IkrellnTags| ikrelln_tag_name(tag) != s@,
            },
    {
        if s.eq("test.class") {
            Ok(IkrellnTags::Class)
        } else if s.eq("test.environment") {
            Ok(IkrellnTags::Environment)
        } else if s.eq("test.name") {
            Ok(IkrellnTags::Name)
        } else if s.eq("test.result") {
            Ok(IkrellnTags::Result)
        } else if s.eq("test.step_parameters") {
            Ok(IkrellnTags::StepParameters)
        } else if s.eq("test.step_status") {
            Ok(IkrellnTags::StepStatus)
        } else if s.eq("test.step_type") {
            Ok(IkrellnTags::StepType)
        } else if s.eq("test.suite") {
            Ok(IkrellnTags::Suite)
        } else {
            Err(NonIkrellnTag)
        }
    }
}

impl KnownTag {
    /// The known tag that names an OpenTracing tag.
    pub fn open_tracing(tag: OpenTracingTag) -> (r: KnownTag)
        ensures
            r@ == open_tracing_tag_name(tag),
    {
        KnownTag { tag: tag.as_str().to_string() }
    }

    /// The known tag that names one of the `test.*` tags.
    pub fn ikrelln(tag: IkrellnTags) -> (r: KnownTag)
        ensures
            r@ == ikrelln_tag_name(tag),
    {
        KnownTag { tag: tag.as_str().to_string() }
    }

    /// A known tag with a name given as text.
    pub fn named(name: &str) -> (r: KnownTag)
        ensures
            r@ == name@,
    {
        KnownTag { tag: name.to_string() }
    }
}

} // verus!
