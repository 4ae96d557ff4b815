//! The repositories over the in-memory store: filtered listing, lookups
//! with labels, status updates, links and labels.

use dictum::decisions::{self, ListFilter};
use dictum::labels;
use dictum::links;
use dictum::model::{Decision, Kind, Level, LinkKind, Status, Weight};
use dictum::store::Store;
use dictum::DictumError;

fn empty_store() -> Store {
    Store { decisions: Vec::new(), links: Vec::new(), labels: Vec::new() }
}

fn make_decision(id: &str, kind: Kind, weight: Weight, scope: Option<&str>) -> Decision {
    Decision {
        id: id.to_string(),
        title: format!("Decision {}", id),
        body: None,
        level: Level::Tactical,
        status: Status::Active,
        superseded_by: None,
        author: "test".to_string(),
        created_at: "2025-01-01T00:00:00Z".to_string(),
        updated_at: "2025-01-01T00:00:00Z".to_string(),
        labels: Vec::new(),
        kind,
        weight,
        rebuttal: None,
        scope: scope.map(|s| s.to_string()),
    }
}

fn no_filter() -> ListFilter {
    ListFilter { level: None, status: None, label: None, kind: None, weight: None, scope: None }
}

#[test]
fn filter_by_kind() {
    let mut store = empty_store();
    decisions::insert(&mut store, &make_decision("d-1", Kind::Rule, Weight::Must, None)).unwrap();
    decisions::insert(&mut store, &make_decision("d-2", Kind::Choice, Weight::Should, None))
        .unwrap();
    decisions::insert(&mut store, &make_decision("d-3", Kind::Rule, Weight::Should, None))
        .unwrap();

    let results = decisions::list(
        &store,
        &ListFilter { kind: Some(Kind::Rule), ..no_filter() },
    );

    assert_eq!(results.len(), 2);
    assert!(results.iter().all(|d| d.kind == Kind::Rule));
}

#[test]
fn filter_by_weight() {
    let mut store = empty_store();
    decisions::insert(&mut store, &make_decision("d-1", Kind::Rule, Weight::Must, None)).unwrap();
    decisions::insert(&mut store, &make_decision("d-2", Kind::Choice, Weight::Should, None))
        .unwrap();

    let results = decisions::list(
        &store,
        &ListFilter { weight: Some(Weight::Must), ..no_filter() },
    );

    assert_eq!(results.len(), 1);
    assert_eq!(results[0].id, "d-1");
}

#[test]
fn filter_by_scope() {
    let mut store = empty_store();
    decisions::insert(&mut store, &make_decision("d-1", Kind::Rule, Weight::Must, Some("auth")))
        .unwrap();
    decisions::insert(
        &mut store,
        &make_decision("d-2", Kind::Rule, Weight::Must, Some("logging")),
    )
    .unwrap();
    decisions::insert(&mut store, &make_decision("d-3", Kind::Rule, Weight::Must, None)).unwrap();

    let results = decisions::list(
        &store,
        &ListFilter { scope: Some("auth".to_string()), ..no_filter() },
    );

    assert_eq!(results.len(), 1);
    assert_eq!(results[0].id, "d-1");
}

#[test]
fn filter_combined_kind_and_weight() {
    let mut store = empty_store();
    decisions::insert(&mut store, &make_decision("d-1", Kind::Rule, Weight::Must, None)).unwrap();
    decisions::insert(&mut store, &make_decision("d-2", Kind::Rule, Weight::Should, None))
        .unwrap();
    decisions::insert(&mut store, &make_decision("d-3", Kind::Choice, Weight::Must, None))
        .unwrap();

    let results = decisions::list(
        &store,
        &ListFilter { kind: Some(Kind::Rule), weight: Some(Weight::Must), ..no_filter() },
    );

    assert_eq!(results.len(), 1);
    assert_eq!(results[0].id, "d-1");
}

#[test]
fn new_fields_roundtrip_through_db() {
    let mut store = empty_store();
    let d = Decision {
        rebuttal: Some("unless audit requires it".to_string()),
        scope: Some("auth".to_string()),
        ..make_decision("d-1", Kind::Assumption, Weight::May, None)
    };
    decisions::insert(&mut store, &d).unwrap();

    let got = decisions::get(&store, "d-1").unwrap();
    assert_eq!(got.kind, Kind::Assumption);
    assert_eq!(got.weight, Weight::May);
    assert_eq!(got.rebuttal.as_deref(), Some("unless audit requires it"));
    assert_eq!(got.scope.as_deref(), Some("auth"));
}

#[test]
fn insert_get_round_trip_with_labels() {
    let mut store = empty_store();
    let mut d = make_decision("d-1", Kind::Rule, Weight::Must, Some("auth"));
    d.body = Some("because".to_string());
    d.labels = vec!["alpha".to_string(), "beta".to_string()];
    decisions::insert(&mut store, &d).unwrap();
    labels::add(&mut store, "d-1", "beta");
    labels::add(&mut store, "d-1", "alpha");

    let got = decisions::get(&store, "d-1").unwrap();
    assert_eq!(got.id, d.id);
    assert_eq!(got.title, d.title);
    assert_eq!(got.body, d.body);
    assert_eq!(got.level, d.level);
    assert_eq!(got.status, d.status);
    assert_eq!(got.superseded_by, d.superseded_by);
    assert_eq!(got.author, d.author);
    assert_eq!(got.created_at, d.created_at);
    assert_eq!(got.updated_at, d.updated_at);
    assert_eq!(got.labels, vec!["alpha".to_string(), "beta".to_string()]);
    assert_eq!(got.kind, d.kind);
    assert_eq!(got.weight, d.weight);
    assert_eq!(got.rebuttal, d.rebuttal);
    assert_eq!(got.scope, d.scope);
}

#[test]
fn duplicate_id_rejected() {
    let mut store = empty_store();
    decisions::insert(&mut store, &make_decision("d-1", Kind::Rule, Weight::Must, None)).unwrap();
    let second = decisions::insert(&mut store, &make_decision("d-1", Kind::Goal, Weight::May, None));
    assert_eq!(second, Err(DictumError::DuplicateId));
}

#[test]
fn get_absent_is_not_found() {
    let store = empty_store();
    match decisions::get(&store, "d-9") {
        Err(DictumError::DecisionNotFound(t)) => assert_eq!(t, "d-9"),
        other => panic!("unexpected: {:?}", other),
    }
}

#[test]
fn update_status_bumps_timestamp() {
    let mut store = empty_store();
    decisions::insert(&mut store, &make_decision("d-1", Kind::Rule, Weight::Must, None)).unwrap();
    decisions::update_status(&mut store, "d-1", Status::Deprecated, None, "2025-02-02T00:00:00Z")
        .unwrap();
    let got = decisions::get(&store, "d-1").unwrap();
    assert_eq!(got.status, Status::Deprecated);
    assert_eq!(got.updated_at, "2025-02-02T00:00:00Z");
    assert_eq!(got.created_at, "2025-01-01T00:00:00Z");

    let missing = decisions::update_status(&mut store, "d-9", Status::Draft, None, "t");
    assert!(matches!(missing, Err(DictumError::DecisionNotFound(_))));
}

#[test]
fn list_orders_newest_first() {
    let mut store = empty_store();
    let mut a = make_decision("d-a", Kind::Rule, Weight::Must, None);
    a.created_at = "2025-01-01T00:00:00Z".to_string();
    let mut b = make_decision("d-b", Kind::Rule, Weight::Must, None);
    b.created_at = "2025-03-01T00:00:00Z".to_string();
    let mut c = make_decision("d-c", Kind::Rule, Weight::Must, None);
    c.created_at = "2025-02-01T00:00:00Z".to_string();
    decisions::insert(&mut store, &a).unwrap();
    decisions::insert(&mut store, &b).unwrap();
    decisions::insert(&mut store, &c).unwrap();

    let all = decisions::get_all(&store);
    let ids: Vec<&str> = all.iter().map(|d| d.id.as_str()).collect();
    assert_eq!(ids, vec!["d-b", "d-c", "d-a"]);
}

#[test]
fn search_is_case_sensitive_substring() {
    let mut store = empty_store();
    let mut d = make_decision("d-1", Kind::Rule, Weight::Must, None);
    d.title = "Use Postgres".to_string();
    d.body = Some("the relational store".to_string());
    decisions::insert(&mut store, &d).unwrap();

    assert_eq!(decisions::search(&store, "Postgres").len(), 1);
    assert_eq!(decisions::search(&store, "postgres").len(), 0);
    assert_eq!(decisions::search(&store, "relational").len(), 1);
    assert_eq!(decisions::search(&store, "absent").len(), 0);
}

#[test]
fn link_self_rejected_for_every_kind() {
    let mut store = empty_store();
    for kind in [
        LinkKind::Refines,
        LinkKind::Supports,
        LinkKind::Supersedes,
        LinkKind::Conflicts,
        LinkKind::Requires,
        LinkKind::Entails,
        LinkKind::Excludes,
    ] {
        let link = dictum::model::Link {
            source_id: "d-1".to_string(),
            target_id: "d-1".to_string(),
            kind,
            created_at: "t".to_string(),
            reason: None,
        };
        assert_eq!(links::insert(&mut store, &link), Err(DictumError::SelfLink));
    }
    assert!(store.links.is_empty());
}

#[test]
fn link_triple_unique_but_kinds_independent() {
    let mut store = empty_store();
    let link = |kind| dictum::model::Link {
        source_id: "d-1".to_string(),
        target_id: "d-2".to_string(),
        kind,
        created_at: "t".to_string(),
        reason: None,
    };
    assert_eq!(links::insert(&mut store, &link(LinkKind::Refines)), Ok(()));
    assert_eq!(
        links::insert(&mut store, &link(LinkKind::Refines)),
        Err(DictumError::LinkAlreadyExists)
    );
    assert_eq!(links::insert(&mut store, &link(LinkKind::Supports)), Ok(()));
    assert_eq!(store.links.len(), 2);
}

#[test]
fn link_delete_and_incident_order() {
    let mut store = empty_store();
    let mk = |s: &str, t: &str, at: &str| dictum::model::Link {
        source_id: s.to_string(),
        target_id: t.to_string(),
        kind: LinkKind::Supports,
        created_at: at.to_string(),
        reason: None,
    };
    links::insert(&mut store, &mk("d-2", "d-1", "2025-02-01")).unwrap();
    links::insert(&mut store, &mk("d-3", "d-1", "2025-01-01")).unwrap();

    let incident = links::get_for_decision(&store, "d-1");
    assert_eq!(incident.len(), 2);
    assert_eq!(incident[0].source_id, "d-3");
    assert_eq!(incident[1].source_id, "d-2");

    assert_eq!(
        links::delete(&mut store, "d-9", &LinkKind::Supports, "d-1"),
        Err(DictumError::LinkNotFound)
    );
    assert_eq!(links::delete(&mut store, "d-2", &LinkKind::Supports, "d-1"), Ok(()));
    assert_eq!(store.links.len(), 1);
}

#[test]
fn labels_dedupe_and_sort() {
    let mut store = empty_store();
    labels::add(&mut store, "d-1", "zeta");
    labels::add(&mut store, "d-1", "alpha");
    labels::add(&mut store, "d-1", "zeta");
    labels::add(&mut store, "d-2", "other");
    let got = labels::get_for_decision(&store, "d-1");
    assert_eq!(got, vec!["alpha".to_string(), "zeta".to_string()]);
}
