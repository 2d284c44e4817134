//! Spans as they arrive on the wire and as queries hand them back.

use vstd::prelude::*;
use vstd::std_specs::convert::FromSpecImpl;
use crate::text::{clone_opt_string, clone_pairs, find_pair, opt_view, pair_value, views};

verus! {

/// The role a span plays in a remote call.
#[derive(Debug, Clone, Copy, PartialEq, Eq, Structural)]
pub enum Kind {
    CLIENT,
    SERVER,
    PRODUCER,
    CONSUMER,
}

/// The kind a stored text stands for; an unknown text counts as `CLIENT`.
pub open spec fn kind_of_text(s: Seq<char>) -> Kind {
    if s == "SERVER"@ {
        Kind::SERVER
    } else if s == "PRODUCER"@ {
        Kind::PRODUCER
    } else if s == "CONSUMER"@ {
        Kind::CONSUMER
    } else {
        Kind::CLIENT
    }
}

/// The text a kind is stored and shown as.
pub open spec fn kind_text(k: Kind) -> Seq<char> {
    match k {
        Kind::CLIENT => "CLIENT"@,
        Kind::SERVER => "SERVER"@,
        Kind::PRODUCER => "PRODUCER"@,
        Kind::CONSUMER => "CONSUMER"@,
    }
}

impl Kind {
    /// The upper-case name of the kind.
    pub fn to_string(&self) -> (s: String)
        ensures
            s@ == kind_text(*self),
    {
        match self {
            Kind::CLIENT => "CLIENT".to_string(),
            Kind::SERVER => "SERVER".to_string(),
            Kind::PRODUCER => "PRODUCER".to_string(),
            Kind::CONSUMER => "CONSUMER".to_string(),
        }
    }

    /// Reads a kind back from its name; anything unknown is a `CLIENT`.
    pub fn from_text(s: &str) -> (k: Kind)
        ensures
            k == kind_of_text(s@),
    {
        if s.eq("SERVER") {
            Kind::SERVER
        } else if s.eq("PRODUCER") {
            Kind::PRODUCER
        } else if s.eq("CONSUMER") {
            Kind::CONSUMER
        } else {
            Kind::CLIENT
        }
    }
}

impl From<String> for Kind {
    fn from(string: String) -> (k: Kind) {
        Kind::from_text(string.as_str())
    }
}

impl FromSpecImpl<String> for Kind {
    open spec fn obeys_from_spec() -> bool {
        true
    }

    open spec fn from_spec(string: String) -> Kind {
        kind_of_text(string@)
    }
}

/// Naming a kind and reading the name back gives the same kind.
pub proof fn lemma_kind_text_round_trip(k: Kind)
    ensures
        kind_of_text(kind_text(k)) == k,
{
    reveal_strlit("CLIENT");
    reveal_strlit("SERVER");
    reveal_strlit("PRODUCER");
    reveal_strlit("CONSUMER");
    assert("CLIENT"@.len() == 6);
    assert("SERVER"@.len() == 6);
    assert("PRODUCER"@.len() == 8);
    assert("CONSUMER"@.len() == 8);
    assert("CLIENT"@[0] == 'C');
    assert("SERVER"@[0] == 'S');
    assert("PRODUCER"@[0] == 'P');
    assert("CONSUMER"@[0] == 'C');
}

/// One side of a span's network context.
#[derive(Debug)]
pub struct Endpoint {
    pub service_name: Option<String>,
    pub ipv4: Option<String>,
    pub ipv6: Option<String>,
    pub port: Option<i32>,
}

pub ghost struct EndpointView {
    pub service_name: Option<Seq<char>>,
    pub ipv4: Option<Seq<char>>,
    pub ipv6: Option<Seq<char>>,
    pub port: Option<i32>,
}

impl View for Endpoint {
    type V = EndpointView;

    open spec fn view(&self) -> EndpointView {
        EndpointView {
            service_name: opt_view(self.service_name),
            ipv4: opt_view(self.ipv4),
            ipv6: opt_view(self.ipv6),
            port: self.port,
        }
    }
}

impl Clone for Endpoint {
    fn clone(&self) -> (r: Self)
        ensures
            r@ == self@,
    {
        Endpoint {
            service_name: clone_opt_string(&self.service_name),
            ipv4: clone_opt_string(&self.ipv4),
            ipv6: clone_opt_string(&self.ipv6),
            port: self.port,
        }
    }
}

impl Default for Endpoint {
    fn default() -> (r: Self)
        ensures
            r@ == (EndpointView { service_name: None, ipv4: None, ipv6: None, port: None }),
    {
        Endpoint { service_name: None, ipv4: None, ipv6: None, port: None }
    }
}

/// A timed event inside a span; the timestamp is in microseconds.
#[derive(Debug)]
pub struct Annotation {
    pub value: String,
    pub timestamp: i64,
}

pub ghost struct AnnotationView {
    pub value: Seq<char>,
    pub timestamp: i64,
}

impl View for Annotation {
    type V = AnnotationView;

    open spec fn view(&self) -> AnnotationView {
        AnnotationView { value: self.value@, timestamp: self.timestamp }
    }
}

impl Clone for Annotation {
    fn clone(&self) -> (r: Self)
        ensures
            r@ == self@,
    {
        Annotation { value: self.value.clone(), timestamp: self.timestamp }
    }
}

/// A tag in the older "binary annotation" shape, with the endpoint it was seen on.
#[derive(Debug)]
pub struct BinaryTag {
    pub key: String,
    pub value: String,
    pub endpoint: Option<Endpoint>,
}

pub ghost struct BinaryTagView {
    pub key: Seq<char>,
    pub value: Seq<char>,
    pub endpoint: Option<EndpointView>,
}

impl View for BinaryTag {
    type V = BinaryTagView;

    open spec fn view(&self) -> BinaryTagView {
        BinaryTagView { key: self.key@, value: self.value@, endpoint: opt_view(self.endpoint) }
    }
}

impl Clone for BinaryTag {
    fn clone(&self) -> (r: Self)
        ensures
            r@ == self@,
    {
        BinaryTag {
            key: self.key.clone(),
            value: self.value.clone(),
            endpoint: clone_opt_endpoint(&self.endpoint),
        }
    }
}

/// A copy of an endpoint that may be missing.
pub fn clone_opt_endpoint(o: &Option<Endpoint>) -> (r: Option<Endpoint>)
    ensures
        opt_view(r) == opt_view(*o),
{
    match o {
        Some(e) => Some(e.clone()),
        None => None,
    }
}

/// A span. Durations and timestamps are in microseconds. `tags` holds
/// name/value pairs; where a name occurs twice the first pair is the one
/// that lookups see.
#[derive(Debug)]
pub struct Span {
    pub trace_id: String,
    pub id: String,
    pub parent_id: Option<String>,
    pub name: Option<String>,
    pub kind: Option<Kind>,
    pub duration: Option<i64>,
    pub timestamp: Option<i64>,
    pub debug: bool,
    pub shared: bool,
    pub local_endpoint: Option<Endpoint>,
    pub remote_endpoint: Option<Endpoint>,
    pub annotations: Vec<Annotation>,
    pub tags: Vec<(String, String)>,
    pub binary_annotations: Vec<BinaryTag>,
}

pub ghost struct SpanView {
    pub trace_id: Seq<char>,
    pub id: Seq<char>,
    pub parent_id: Option<Seq<char>>,
    pub name: Option<Seq<char>>,
    pub kind: Option<Kind>,
    pub duration: Option<i64>,
    pub timestamp: Option<i64>,
    pub debug: bool,
    pub shared: bool,
    pub local_endpoint: Option<EndpointView>,
    pub remote_endpoint: Option<EndpointView>,
    pub annotations: Seq<AnnotationView>,
    pub tags: Seq<(Seq<char>, Seq<char>)>,
    pub binary_annotations: Seq<BinaryTagView>,
}

impl View for Span {
    type V = SpanView;

    open spec fn view(&self) -> SpanView {
        SpanView {
            trace_id: self.trace_id@,
            id: self.id@,
            parent_id: opt_view(self.parent_id),
            name: opt_view(self.name),
            kind: self.kind,
            duration: self.duration,
            timestamp: self.timestamp,
            debug: self.debug,
            shared: self.shared,
            local_endpoint: opt_view(self.local_endpoint),
            remote_endpoint: opt_view(self.remote_endpoint),
            annotations: views(self.annotations@),
            tags: self.tags.deep_view(),
            binary_annotations: views(self.binary_annotations@),
        }
    }
}

/// A copy of a list of annotations.
pub fn clone_annotations(v: &Vec<Annotation>) -> (r: Vec<Annotation>)
    ensures
        views(r@) == views(v@),
{
    let mut out: Vec<Annotation> = Vec::new();
    let mut i: usize = 0;
    while i < v.len()
        invariant
            i <= v.len(),
            out.len() == i,
            forall|k: int| 0 <= k < i ==> out[k]@ == v[k]@,
        decreases v.len() - i,
    {
        out.push(v[i].clone());
        i += 1;
    }
    assert(views(out@) =~= views(v@));
    out
}

/// A copy of a list of tags in the older shape.
pub fn clone_binary_tags(v: &Vec<BinaryTag>) -> (r: Vec<BinaryTag>)
    ensures
        views(r@) == views(v@),
{
    let mut out: Vec<BinaryTag> = Vec::new();
    let mut i: usize = 0;
    while i < v.len()
        invariant
            i <= v.len(),
            out.len() == i,
            forall|k: int| 0 <= k < i ==> out[k]@ == v[k]@,
        decreases v.len() - i,
    {
        out.push(v[i].clone());
        i += 1;
    }
    assert(views(out@) =~= views(v@));
    out
}

impl Clone for Span {
    fn clone(&self) -> (r: Self)
        ensures
            r@ == self@,
    {
        Span {
            trace_id: self.trace_id.clone(),
            id: self.id.clone(),
            parent_id: clone_opt_string(&self.parent_id),
            name: clone_opt_string(&self.name),
            kind: self.kind,
            duration: self.duration,
            timestamp: self.timestamp,
            debug: self.debug,
            shared: self.shared,
            local_endpoint: clone_opt_endpoint(&self.local_endpoint),
            remote_endpoint: clone_opt_endpoint(&self.remote_endpoint),
            annotations: clone_annotations(&self.annotations),
            tags: clone_pairs(&self.tags),
            binary_annotations: clone_binary_tags(&self.binary_annotations),
        }
    }
}

/// The value of the tag named `name`: that of the last pair with the
/// name, which is the only one in a span that was read from the store.
pub open spec fn tag_value(tags: Seq<(Seq<char>, Seq<char>)>, name: Seq<char>) -> Option<Seq<char>> {
    pair_value(tags, name)
}

/// Looks a tag up by name.
pub fn find_tag(tags: &Vec<(String, String)>, name: &str) -> (r: Option<String>)
    ensures
        opt_view(r) == tag_value(tags.deep_view(), name@),
{
    find_pair(tags, name)
}

} // verus!
