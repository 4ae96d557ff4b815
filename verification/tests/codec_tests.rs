//! The interchange codec: encoding, decoding, and the round trip.

use dictum::codec::{encode, LinkSummary};
use dictum::decode::decode;
use dictum::model::{Decision, Kind, Level, Link, LinkKind, Status, Weight};
use dictum::DictumError;

fn sample(id: &str) -> Decision {
    Decision {
        id: id.to_string(),
        title: "Choose a store".to_string(),
        body: None,
        level: Level::Tactical,
        status: Status::Active,
        superseded_by: None,
        author: "ada".to_string(),
        created_at: "2025-01-01T00:00:00Z".to_string(),
        updated_at: "2025-01-01T00:00:00Z".to_string(),
        labels: Vec::new(),
        kind: Kind::Choice,
        weight: Weight::Should,
        rebuttal: None,
        scope: None,
    }
}

fn same_decision(a: &Decision, b: &Decision) -> bool {
    a.id == b.id && a.title == b.title && a.body == b.body && a.level == b.level
        && a.status == b.status && a.superseded_by == b.superseded_by && a.author == b.author
        && a.created_at == b.created_at && a.updated_at == b.updated_at && a.labels == b.labels
        && a.kind == b.kind && a.weight == b.weight && a.rebuttal == b.rebuttal
        && a.scope == b.scope
}

#[test]
fn encode_minimal_record() {
    let line = String::from_utf8(encode(&sample("d-1"), &Vec::new())).unwrap();
    assert_eq!(
        line,
        "{\"id\":\"d-1\",\"title\":\"Choose a store\",\"level\":\"tactical\",\
         \"status\":\"active\",\"author\":\"ada\",\"created_at\":\"2025-01-01T00:00:00Z\",\
         \"updated_at\":\"2025-01-01T00:00:00Z\",\"kind\":\"choice\",\"weight\":\"should\"}"
    );
}

#[test]
fn round_trip_minimal() {
    let line = String::from_utf8(encode(&sample("d-1"), &Vec::new())).unwrap();
    let (d, links) = decode(&line).unwrap();
    assert!(same_decision(&d, &sample("d-1")));
    assert!(links.is_empty());
}

#[test]
fn round_trip_full() {
    let mut d = sample("d-2");
    d.body = Some("line one\nline \"two\"\t\\slash".to_string());
    d.superseded_by = Some("d-9".to_string());
    d.labels = vec!["alpha".to_string(), "beta".to_string()];
    d.kind = Kind::Rule;
    d.weight = Weight::Must;
    d.rebuttal = Some("unless offline".to_string());
    d.scope = Some("storage".to_string());
    let links = vec![
        Link {
            source_id: "d-2".to_string(),
            target_id: "d-1".to_string(),
            kind: LinkKind::Refines,
            created_at: "2025-01-02T00:00:00Z".to_string(),
            reason: Some("narrows it".to_string()),
        },
        Link {
            source_id: "d-3".to_string(),
            target_id: "d-2".to_string(),
            kind: LinkKind::Supports,
            created_at: "2025-01-03T00:00:00Z".to_string(),
            reason: None,
        },
    ];
    let line = String::from_utf8(encode(&d, &links)).unwrap();
    let (got, got_links) = decode(&line).unwrap();
    assert!(same_decision(&got, &d));
    assert_eq!(got_links.len(), 2);
    assert_eq!(got_links[0].kind, LinkKind::Refines);
    assert_eq!(got_links[0].source, "d-2");
    assert_eq!(got_links[0].target, "d-1");
    assert_eq!(got_links[0].reason.as_deref(), Some("narrows it"));
    assert_eq!(got_links[1].kind, LinkKind::Supports);
    assert_eq!(got_links[1].source, "d-3");
    assert_eq!(got_links[1].target, "d-2");
    assert_eq!(got_links[1].reason, None);
}

#[test]
fn round_trip_non_ascii() {
    // a wrapper handing bytes back unchanged, or mangling UTF-8, breaks this
    let mut d = sample("d-3");
    d.title = "caf\u{e9} d\u{e9}cisions \u{1f4dd}".to_string();
    d.author = "Ren\u{e9}e".to_string();
    let line = String::from_utf8(encode(&d, &Vec::new())).unwrap();
    let (got, _) = decode(&line).unwrap();
    assert_eq!(got.title, d.title);
    assert_eq!(got.author, d.author);
}

#[test]
fn control_bytes_escape_as_hex() {
    let mut d = sample("d-4");
    d.title = "a\u{1}b".to_string();
    let line = String::from_utf8(encode(&d, &Vec::new())).unwrap();
    assert!(line.contains("a\\u0001b"));
    let (got, _) = decode(&line).unwrap();
    assert_eq!(got.title, d.title);
}

#[test]
fn decode_defaults_optional_members() {
    let line = "{\"id\":\"d-5\",\"title\":\"t\",\"level\":\"strategic\",\
                \"status\":\"draft\",\"author\":\"a\",\"created_at\":\"c\",\"updated_at\":\"u\"}";
    let (d, links) = decode(line).unwrap();
    assert_eq!(d.kind, Kind::Choice);
    assert_eq!(d.weight, Weight::Should);
    assert!(d.body.is_none() && d.rebuttal.is_none() && d.scope.is_none());
    assert!(d.labels.is_empty());
    assert!(links.is_empty());
}

#[test]
fn decode_is_strict_about_enum_case() {
    // the record format carries the canonical lower-case names only
    let line = "{\"id\":\"d\",\"title\":\"t\",\"level\":\"Tactical\",\"status\":\"active\",\
                \"author\":\"a\",\"created_at\":\"c\",\"updated_at\":\"u\"}";
    assert!(matches!(decode(line), Err(DictumError::SerializationError(_))));
}

#[test]
fn decode_rejects_malformed() {
    for bad in [
        "",
        "{",
        "{\"id\":\"d\"}",
        "{\"id\":\"d\",\"title\":\"t\",\"level\":\"sideways\",\"status\":\"active\",\
         \"author\":\"a\",\"created_at\":\"c\",\"updated_at\":\"u\"}",
        "not json at all",
    ] {
        match decode(bad) {
            Err(DictumError::SerializationError(_)) => {},
            other => panic!("expected a serialization error, got {:?}", other),
        }
    }
}

#[test]
fn decode_drops_malformed_links_portion() {
    let line = "{\"id\":\"d-6\",\"title\":\"t\",\"level\":\"tactical\",\"status\":\"active\",\
                \"author\":\"a\",\"created_at\":\"c\",\"updated_at\":\"u\",\
                \"links\":[{\"kind\":\"sideways\",\"source\":\"x\",\"target\":\"y\"}]}";
    let (d, links) = decode(line).unwrap();
    assert_eq!(d.id, "d-6");
    assert!(links.is_empty());
}

#[test]
fn summary_type_carries_fields() {
    let s = LinkSummary {
        kind: LinkKind::Entails,
        source: "a".to_string(),
        target: "b".to_string(),
        reason: None,
    };
    assert_eq!(s.kind, LinkKind::Entails);
}
