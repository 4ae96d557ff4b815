//! Orchestration: adding, amending, linking with the supersedes side
//! effect, importing, exporting, the tree, and format selection.

use dictum::format::OutputFormat;
use dictum::schema::{ensure_current, needs_upgrade, LegacyDecision, LegacyStore, StorageShape};
use dictum::model::{Decision, Kind, Level, LinkKind, Status, Weight};
use dictum::ops::{self, AddArgs, AmendArgs};
use dictum::store::Store;
use dictum::{decisions, links, tree, DictumError};

fn empty_store() -> Store {
    Store { decisions: Vec::new(), links: Vec::new(), labels: Vec::new() }
}

fn add_args(title: &str) -> AddArgs {
    AddArgs {
        title: title.to_string(),
        level: Level::Tactical,
        parent: None,
        label: Vec::new(),
        body: None,
        author: None,
        format: None,
        kind: Kind::Choice,
        weight: Weight::Should,
        rebuttal: None,
        scope: None,
    }
}

#[test]
fn add_stores_decision_and_labels() {
    let mut store = empty_store();
    let mut args = add_args("pick a queue");
    args.label = vec!["infra".to_string()];
    args.author = Some("ada".to_string());
    let d = ops::add(&mut store, &args, "d", None, "2025-01-01T00:00:00Z").unwrap();
    assert!(d.id.starts_with("d-"));
    assert_eq!(d.author, "ada");
    assert_eq!(d.status, Status::Active);
    let got = decisions::get(&store, &d.id).unwrap();
    assert_eq!(got.labels, vec!["infra".to_string()]);
}

#[test]
fn add_uses_default_author_then_unknown() {
    let mut store = empty_store();
    let d = ops::add(&mut store, &add_args("one"), "d", Some("bee"), "t1").unwrap();
    assert_eq!(d.author, "bee");
    let d2 = ops::add(&mut store, &add_args("two"), "d", None, "t2").unwrap();
    assert_eq!(d2.author, "unknown");
}

#[test]
fn add_with_parent_records_refines_link() {
    let mut store = empty_store();
    let parent = ops::add(&mut store, &add_args("parent"), "d", None, "t1").unwrap();
    let mut child_args = add_args("child");
    child_args.parent = Some(parent.id.clone());
    let child = ops::add(&mut store, &child_args, "d", None, "t2").unwrap();
    assert_eq!(store.links.len(), 1);
    assert_eq!(store.links[0].kind, LinkKind::Refines);
    assert_eq!(store.links[0].source_id, child.id);
    assert_eq!(store.links[0].target_id, parent.id);

    let mut orphan_args = add_args("orphan");
    orphan_args.parent = Some("d-none".to_string());
    match ops::add(&mut store, &orphan_args, "d", None, "t3") {
        Err(DictumError::DecisionNotFound(t)) => assert_eq!(t, "d-none"),
        other => panic!("unexpected: {:?}", other),
    }
}

#[test]
fn amend_supersedes_old_decision() {
    let mut store = empty_store();
    let old = ops::add(&mut store, &add_args("old title"), "d", None, "t1").unwrap();
    let before = store.decisions.len();
    let args = AmendArgs {
        id: old.id.clone(),
        title: Some("new title".to_string()),
        body: None,
        format: None,
    };
    let new_d = ops::amend(&mut store, &args, "d", "t2").unwrap();

    // exactly one new decision
    assert_eq!(store.decisions.len(), before + 1);
    // the old decision is superseded and points at the new id
    let old_now = decisions::get(&store, &old.id).unwrap();
    assert_eq!(old_now.status, Status::Superseded);
    assert_eq!(old_now.superseded_by.as_deref(), Some(new_d.id.as_str()));
    // the new decision carries a supersedes link to the old id
    let incident = links::get_for_decision(&store, &new_d.id);
    assert_eq!(incident.len(), 1);
    assert_eq!(incident[0].kind, LinkKind::Supersedes);
    assert_eq!(incident[0].source_id, new_d.id);
    assert_eq!(incident[0].target_id, old.id);
    assert_eq!(new_d.title, "new title");
    assert_eq!(new_d.status, Status::Active);
}

#[test]
fn amend_missing_decision_fails() {
    let mut store = empty_store();
    let args = AmendArgs { id: "d-none".to_string(), title: None, body: None, format: None };
    assert!(matches!(
        ops::amend(&mut store, &args, "d", "t"),
        Err(DictumError::DecisionNotFound(_))
    ));
}

#[test]
fn deprecate_flips_status_in_place() {
    let mut store = empty_store();
    let d = ops::add(&mut store, &add_args("kept"), "d", None, "t1").unwrap();
    let before = store.decisions.len();
    ops::deprecate(&mut store, &d.id, "t2").unwrap();
    assert_eq!(store.decisions.len(), before);
    let got = decisions::get(&store, &d.id).unwrap();
    assert_eq!(got.status, Status::Deprecated);
    assert_eq!(got.superseded_by, None);
}

#[test]
fn create_link_checks_endpoints_and_supersedes_side_effect() {
    let mut store = empty_store();
    let a = ops::add(&mut store, &add_args("a"), "d", None, "t1").unwrap();
    let b = ops::add(&mut store, &add_args("b"), "d", None, "t2").unwrap();

    match ops::create_link(&mut store, &a.id, LinkKind::Refines, "d-none", None, "t3") {
        Err(DictumError::DecisionNotFound(t)) => assert_eq!(t, "d-none"),
        other => panic!("unexpected: {:?}", other),
    }
    assert_eq!(
        ops::create_link(&mut store, &a.id, LinkKind::Refines, &a.id, None, "t3"),
        Err(DictumError::SelfLink)
    );

    ops::create_link(&mut store, &a.id, LinkKind::Supersedes, &b.id, Some("renewed"), "t4")
        .unwrap();
    let b_now = decisions::get(&store, &b.id).unwrap();
    assert_eq!(b_now.status, Status::Superseded);
    assert_eq!(b_now.superseded_by.as_deref(), Some(a.id.as_str()));
    assert_eq!(store.links.len(), 1);
    assert_eq!(store.links[0].reason.as_deref(), Some("renewed"));
}

#[test]
fn import_skips_duplicates_and_counts() {
    let mut store = empty_store();
    let line = "{\"id\":\"d-1\",\"title\":\"t\",\"level\":\"tactical\",\"status\":\"active\",\
                \"author\":\"a\",\"created_at\":\"c\",\"updated_at\":\"u\",\
                \"labels\":[\"x\"],\
                \"kind\":\"rule\",\"weight\":\"must\",\
                \"links\":[{\"kind\":\"refines\",\"source\":\"d-1\",\"target\":\"d-0\"}]}";
    let (imported, linked) = ops::import_record(&mut store, line, "now").unwrap();
    assert!(imported);
    assert_eq!(linked, 1);
    // a duplicate decision id is a silent skip
    let (again, linked2) = ops::import_record(&mut store, line, "now").unwrap();
    assert!(!again);
    assert_eq!(linked2, 0);
    assert_eq!(store.decisions.len(), 1);
    assert_eq!(store.links.len(), 1);
    let got = decisions::get(&store, "d-1").unwrap();
    assert_eq!(got.labels, vec!["x".to_string()]);
}

#[test]
fn export_import_round_trip() {
    let mut store = empty_store();
    let mut args = add_args("exported");
    args.label = vec!["keep".to_string()];
    let d = ops::add(&mut store, &args, "d", None, "t1").unwrap();
    let line = String::from_utf8(ops::export_line(&store, &d)).unwrap();

    let mut other = empty_store();
    let (imported, _) = ops::import_record(&mut other, &line, "t2").unwrap();
    assert!(imported);
    let got = decisions::get(&other, &d.id).unwrap();
    assert_eq!(got.title, "exported");
    assert_eq!(got.labels, vec!["keep".to_string()]);
}

#[test]
fn tree_sole_root_children_in_edge_order() {
    // children follow edge order even against the ids' lexicographic order
    let mk = |id: &str, title: &str| Decision {
        id: id.to_string(),
        title: title.to_string(),
        body: None,
        level: Level::Tactical,
        status: Status::Active,
        superseded_by: None,
        author: "t".to_string(),
        created_at: "c".to_string(),
        updated_at: "c".to_string(),
        labels: Vec::new(),
        kind: Kind::Choice,
        weight: Weight::Should,
        rebuttal: None,
        scope: None,
    };
    let decisions = vec![mk("d-a", "root"), mk("d-z", "first child"), mk("d-b", "second child")];
    let edges = vec![
        ("d-z".to_string(), "d-a".to_string()),
        ("d-b".to_string(), "d-a".to_string()),
    ];
    let out = tree::format_tree(&decisions, &edges);
    assert_eq!(
        out,
        "d-a root\n\u{251c}\u{2500}\u{2500} d-z first child\n\u{2514}\u{2500}\u{2500} d-b second child\n"
    );
    // flipped insertion order flips the children
    let edges2 = vec![
        ("d-b".to_string(), "d-a".to_string()),
        ("d-z".to_string(), "d-a".to_string()),
    ];
    let out2 = tree::format_tree(&decisions, &edges2);
    assert_eq!(
        out2,
        "d-a root\n\u{251c}\u{2500}\u{2500} d-b second child\n\u{2514}\u{2500}\u{2500} d-z first child\n"
    );
}

#[test]
fn tree_unknown_and_empty() {
    let out = tree::format_tree(&Vec::new(), &Vec::new());
    assert_eq!(out, "No decisions found.\n");

    let d = Decision {
        id: "d-a".to_string(),
        title: "root".to_string(),
        body: None,
        level: Level::Tactical,
        status: Status::Active,
        superseded_by: None,
        author: "t".to_string(),
        created_at: "c".to_string(),
        updated_at: "c".to_string(),
        labels: Vec::new(),
        kind: Kind::Choice,
        weight: Weight::Should,
        rebuttal: None,
        scope: None,
    };
    let edges = vec![("d-x".to_string(), "d-a".to_string())];
    let out = tree::format_tree(&vec![d], &edges);
    assert_eq!(out, "d-a root\n\u{2514}\u{2500}\u{2500} d-x (unknown)\n");
}

#[test]
fn format_selection_and_fallback() {
    assert_eq!(OutputFormat::from_str_or_auto(Some("json"), true), OutputFormat::Json);
    assert_eq!(OutputFormat::from_str_or_auto(Some("jsonl"), true), OutputFormat::Jsonl);
    assert_eq!(OutputFormat::from_str_or_auto(Some("text"), false), OutputFormat::Text);
    assert_eq!(OutputFormat::from_str_or_auto(Some("csv"), true), OutputFormat::Text);
    assert_eq!(OutputFormat::from_str_or_auto(None, true), OutputFormat::Text);
    assert_eq!(OutputFormat::from_str_or_auto(None, false), OutputFormat::Json);
}

#[test]
fn ensure_init_and_defaults() {
    assert_eq!(ops::ensure_init(true), Ok(()));
    assert_eq!(ops::ensure_init(false), Err(DictumError::NotInitialized));
    let c = dictum::config::Config::default();
    assert_eq!(c.prefix, "d");
    assert_eq!(c.default_author, None);
    assert_eq!(c.default_format, "auto");
}

#[test]
fn migration_idempotent_and_detectable() {
    let old_columns: Vec<String> =
        ["id", "title", "body", "level", "status"].iter().map(|s| s.to_string()).collect();
    assert!(needs_upgrade(&old_columns));
    let new_columns: Vec<String> =
        ["id", "title", "kind", "weight"].iter().map(|s| s.to_string()).collect();
    assert!(!needs_upgrade(&new_columns));

    let legacy = LegacyStore {
        decisions: vec![LegacyDecision {
            id: "d-1".to_string(),
            title: "old row".to_string(),
            body: None,
            level: Level::Strategic,
            status: Status::Active,
            superseded_by: None,
            author: "a".to_string(),
            created_at: "c".to_string(),
            updated_at: "u".to_string(),
        }],
        links: Vec::new(),
        labels: Vec::new(),
    };
    let once = ensure_current(StorageShape::Legacy(legacy));
    assert_eq!(once.decisions.len(), 1);
    assert_eq!(once.decisions[0].kind, Kind::Choice);
    assert_eq!(once.decisions[0].weight, Weight::Should);
    assert_eq!(once.decisions[0].rebuttal, None);
    assert_eq!(once.decisions[0].scope, None);
    // running the upgrade again against the current shape changes nothing
    let again = ensure_current(StorageShape::Current(once));
    assert_eq!(again.decisions.len(), 1);
    assert_eq!(again.decisions[0].id, "d-1");
    assert_eq!(again.decisions[0].kind, Kind::Choice);
}

#[test]
fn parse_filter_rejects_bad_names() {
    let args = ops::ListArgs {
        tree: false,
        level: Some("sideways".to_string()),
        status: None,
        label: None,
        format: None,
        kind: None,
        weight: None,
        scope: None,
    };
    assert!(matches!(ops::parse_filter(&args), Err(DictumError::InvalidLevel(_))));
}

#[test]
fn parse_filter_errors_name_the_first_failure() {
    // level is checked before weight, and the offending text is carried
    let args = ops::ListArgs {
        tree: false,
        level: Some("sideways".to_string()),
        status: None,
        label: None,
        format: None,
        kind: None,
        weight: Some("banana".to_string()),
        scope: None,
    };
    match ops::parse_filter(&args) {
        Err(DictumError::InvalidLevel(t)) => assert_eq!(t, "sideways"),
        other => panic!("unexpected: {:?}", other),
    }
    let good = ops::ListArgs {
        tree: false,
        level: Some("tactical".to_string()),
        status: Some("active".to_string()),
        label: Some("infra".to_string()),
        format: None,
        kind: Some("rule".to_string()),
        weight: Some("must".to_string()),
        scope: Some("auth".to_string()),
    };
    let f = ops::parse_filter(&good).unwrap();
    assert_eq!(f.level, Some(Level::Tactical));
    assert_eq!(f.kind, Some(Kind::Rule));
    assert_eq!(f.weight, Some(Weight::Must));
    assert_eq!(f.label.as_deref(), Some("infra"));
    assert_eq!(f.scope.as_deref(), Some("auth"));
}
