//! The renderers: plain text detail and listing.

use dictum::model::{Decision, Kind, Level, Link, LinkKind, Status, Weight};
use dictum::context;
use dictum::format::OutputFormat;
use dictum::store::Store;
use dictum::textfmt;

fn sample() -> Decision {
    Decision {
        id: "d-1".to_string(),
        title: "Pick a store".to_string(),
        body: Some("We need durability".to_string()),
        level: Level::Strategic,
        status: Status::Active,
        superseded_by: None,
        author: "ada".to_string(),
        created_at: "2025-01-01".to_string(),
        updated_at: "2025-01-01".to_string(),
        labels: vec!["infra".to_string(), "storage".to_string()],
        kind: Kind::Rule,
        weight: Weight::Must,
        rebuttal: Some("unless embedded".to_string()),
        scope: Some("backend".to_string()),
    }
}

#[test]
fn text_detail_layout() {
    let links = vec![Link {
        source_id: "d-1".to_string(),
        target_id: "d-0".to_string(),
        kind: LinkKind::Refines,
        created_at: "t".to_string(),
        reason: Some("narrows".to_string()),
    }];
    let out = textfmt::format_decision(&sample(), &links);
    assert_eq!(
        out,
        "[d-1] Pick a store\n  Level: strategic  Status: active  Kind: rule  Weight: must\n  Scope: backend\n  Unless: unless embedded\n  Author: ada\n  Created: 2025-01-01\n  Labels: infra, storage\n\n  We need durability\n\n  Links:\n    refines -> d-0 (narrows)\n"
    );
}

#[test]
fn text_listing_layout() {
    let out = textfmt::format_decision_list(&vec![sample()]);
    assert_eq!(
        out,
        "d-1 | strategic    | active     | rule       | Pick a store [infra, storage]\n"
    );
    let none = textfmt::format_decision_list(&Vec::new());
    assert_eq!(none, "No decisions found.\n");
}

#[test]
fn context_briefing_groups_by_level() {
    let mut store = Store { decisions: Vec::new(), links: Vec::new(), labels: Vec::new() };
    let mut top = sample();
    top.id = "d-top".to_string();
    top.title = "Own the data".to_string();
    top.body = None;
    top.rebuttal = None;
    top.scope = None;
    top.labels = Vec::new();
    top.level = Level::Strategic;
    let mut mid = top.clone();
    mid.id = "d-mid".to_string();
    mid.title = "Use one file".to_string();
    mid.level = Level::Tactical;
    mid.created_at = "2024-12-31".to_string();
    mid.scope = Some("storage".to_string());
    let mut old = top.clone();
    old.id = "d-old".to_string();
    old.status = Status::Deprecated;
    old.created_at = "2024-01-01".to_string();
    dictum::decisions::insert(&mut store, &top).unwrap();
    dictum::decisions::insert(&mut store, &mid).unwrap();
    dictum::decisions::insert(&mut store, &old).unwrap();
    dictum::links::insert(
        &mut store,
        &Link {
            source_id: "d-mid".to_string(),
            target_id: "d-top".to_string(),
            kind: LinkKind::Refines,
            created_at: "2024-12-31".to_string(),
            reason: None,
        },
    )
    .unwrap();

    let out = context::run(&store, OutputFormat::Text).unwrap();
    assert_eq!(
        out,
        "# Active Decisions\n\n## Strategic\n\n- [d-top] (rule/must) Own the data\n\n## Tactical\n\n- [d-mid] (rule/must) Use one file [scope: storage] (refines d-top)\n\n"
    );

    let machine = context::run(&store, OutputFormat::Json).unwrap();
    assert_eq!(machine.lines().count(), 2);
    assert!(machine.contains("\"id\":\"d-top\""));
    assert!(!machine.contains("d-old"));

    let empty = Store { decisions: Vec::new(), links: Vec::new(), labels: Vec::new() };
    assert_eq!(context::run(&empty, OutputFormat::Text).unwrap(), "No active decisions.\n");
}
