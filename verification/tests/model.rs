use ikrelln::db::helper::Cacher;
use ikrelln::engine::{hello, Application, ApplicationId, IngestId, Tag, TagId};
use ikrelln::engine::ingestor::IngestEvents;
use ikrelln::opentracing::span::{find_tag, Endpoint, Kind};
use ikrelln::opentracing::tags::{IkrellnTags, KnownTag, OpenTracingTag};
use std::cell::Cell;

#[test]
fn says_hello() {
    assert_eq!(hello(), "I am i'Krelln");
}

#[test]
fn kinds_are_read_from_their_names() {
    for kind in [Kind::CLIENT, Kind::SERVER, Kind::PRODUCER, Kind::CONSUMER] {
        assert_eq!(Kind::from(kind.to_string()), kind);
        assert_eq!(Kind::from_text(&format!("{:?}", kind)), kind);
    }
    assert_eq!(Kind::SERVER.to_string(), "SERVER");
    assert_eq!(Kind::from("server".to_string()), Kind::CLIENT);
    assert_eq!(Kind::from(String::new()), Kind::CLIENT);
}

#[test]
fn tag_names_are_read_back() {
    let open_tracing = [
        (OpenTracingTag::Component, "component"),
        (OpenTracingTag::DbInstance, "db.instance"),
        (OpenTracingTag::DbStatement, "db.statement"),
        (OpenTracingTag::DbType, "db.type"),
        (OpenTracingTag::DbUser, "db.user"),
        (OpenTracingTag::Error, "error"),
        (OpenTracingTag::HttpMethod, "http.method"),
        (OpenTracingTag::HttpStatusCode, "http.status_code"),
        (OpenTracingTag::HttpUrl, "http.url"),
        (OpenTracingTag::MessageBusDestination, "message_bus.destination"),
        (OpenTracingTag::PeerAddress, "peer.address"),
        (OpenTracingTag::PeerHostname, "peer.hostname"),
        (OpenTracingTag::PeerIpv4, "peer.ipv4"),
        (OpenTracingTag::PeerIpv6, "peer.ipv6"),
        (OpenTracingTag::PeerPort, "peer.port"),
        (OpenTracingTag::PeerService, "peer.service"),
        (OpenTracingTag::SamplingPriority, "sampling.priority"),
        (OpenTracingTag::SpanKind, "span.kind"),
    ];
    for (tag, name) in open_tracing {
        assert_eq!(tag.as_str(), name);
        assert_eq!(OpenTracingTag::from_str(name), Ok(tag));
        assert_eq!(KnownTag::open_tracing(tag).tag, name);
    }
    assert!(OpenTracingTag::from_str("Error").is_err());
    assert!(OpenTracingTag::from_str("test.class").is_err());

    let ikrelln = [
        (IkrellnTags::Class, "test.class"),
        (IkrellnTags::Environment, "test.environment"),
        (IkrellnTags::Name, "test.name"),
        (IkrellnTags::Result, "test.result"),
        (IkrellnTags::StepParameters, "test.step_parameters"),
        (IkrellnTags::StepStatus, "test.step_status"),
        (IkrellnTags::StepType, "test.step_type"),
        (IkrellnTags::Suite, "test.suite"),
    ];
    for (tag, name) in ikrelln {
        assert_eq!(tag.as_str(), name);
        assert_eq!(IkrellnTags::from_str(name), Ok(tag));
        assert_eq!(KnownTag::ikrelln(tag).tag, name);
    }
    assert!(IkrellnTags::from_str("test.suites").is_err());
    assert!(IkrellnTags::from_str("").is_err());
    assert_eq!(KnownTag::named("ts").tag, "ts");
}

#[test]
fn the_last_tag_with_a_name_counts() {
    let tags = vec![
        ("a".to_string(), "1".to_string()),
        ("b".to_string(), "2".to_string()),
        ("a".to_string(), "3".to_string()),
    ];
    assert_eq!(find_tag(&tags, "a"), Some("3".to_string()));
    assert_eq!(find_tag(&tags, "b"), Some("2".to_string()));
    assert_eq!(find_tag(&tags, "A"), None);
    assert_eq!(find_tag(&vec![], "a"), None);
    let default = Endpoint::default();
    assert!(default.service_name.is_none() && default.port.is_none());
}

#[test]
fn the_memo_asks_once_per_key() {
    let asked = Cell::new(0);
    let lookup = |key: &str| {
        asked.set(asked.get() + 1);
        if key == "missing" {
            None
        } else {
            Some(key.len())
        }
    };
    let mut cache: Cacher<usize> = Cacher::new();
    assert_eq!(*cache.get("abc", lookup), Some(3));
    assert_eq!(*cache.get("abc", lookup), Some(3));
    assert_eq!(*cache.get("missing", lookup), None);
    assert_eq!(*cache.get("missing", lookup), None);
    assert_eq!(asked.get(), 2);

    let mut known = Cacher::new_with(vec![
        ("a".to_string(), Some(1)),
        ("b".to_string(), None),
        ("a".to_string(), Some(2)),
    ]);
    assert_eq!(*known.get("a", lookup), Some(2));
    assert_eq!(*known.get("b", lookup), None);
    assert_eq!(*known.get("cc", lookup), Some(2));
    assert_eq!(asked.get(), 3);
}

#[test]
fn typed_identifiers_show_their_type() {
    assert_eq!(IngestId::from("x".to_string()).to_string(), "IngestId(x)");
    assert_eq!(ApplicationId::from("y".to_string()).to_string(), "ApplicationId(y)");
    assert_eq!(TagId::from("z".to_string()).to_string(), "TagId(z)");
    let fresh = IngestId::new();
    assert_eq!(fresh.0.len(), 36);
    assert_ne!(fresh.0, IngestId::new().0);
    assert_ne!(ApplicationId::new().0, ApplicationId::new().0);
    let app = Application {
        id: ApplicationId::from("app".to_string()),
        name: "name".to_string(),
        tags: vec![Tag { id: TagId::new(), name: "tag".to_string() }],
    };
    assert_eq!(app.id().0, "app");

    let batch = IngestEvents::new(vec![1, 2, 3]);
    assert_eq!(batch.events, vec![1, 2, 3]);
    assert_eq!(batch.processed_at, None);
    assert!(batch.created_at > 1_600_000_000_000_000);
    let at = IngestEvents::new_at(vec![1], IngestId::from("i".to_string()), 7);
    assert_eq!((at.created_at, at.ingest_id.0.as_str()), (7, "i"));
}

fn has_the_shape_of_a_random_uuid(id: &str) -> bool {
    let chars: Vec<char> = id.chars().collect();
    chars.len() == 36
        && chars.iter().enumerate().all(|(i, c)| {
            if i == 8 || i == 13 || i == 18 || i == 23 {
                *c == '-'
            } else {
                matches!(*c, '0'..='9' | 'a'..='f')
            }
        })
        && chars[14] == '4'
        && matches!(chars[19], '8' | '9' | 'a' | 'b')
}

#[test]
fn fresh_identifiers_are_random_uuids() {
    for _ in 0..50 {
        assert!(has_the_shape_of_a_random_uuid(&IngestId::new().0));
        assert!(has_the_shape_of_a_random_uuid(&ApplicationId::new().0));
        assert!(has_the_shape_of_a_random_uuid(&TagId::new().0));
        assert!(has_the_shape_of_a_random_uuid(&ikrelln::engine::TestId::new().0));
        assert!(has_the_shape_of_a_random_uuid(&ikrelln::engine::StepId::new().0));
    }
    assert!(!has_the_shape_of_a_random_uuid("n/a"));
    assert!(!has_the_shape_of_a_random_uuid("00000000-0000-0000-0000-000000000000"));
    assert!(has_the_shape_of_a_random_uuid("00000000-0000-4000-8000-000000000000"));
}
