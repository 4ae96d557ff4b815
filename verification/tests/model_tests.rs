//! The closed enumerations: round trips between values and their canonical
//! text, and rejection of anything else.

use dictum::model::{Kind, Level, LinkKind, Status, Weight};

#[test]
fn kind_roundtrips() {
    let all = [
        Kind::Principle,
        Kind::Constraint,
        Kind::Assumption,
        Kind::Choice,
        Kind::Rule,
        Kind::Goal,
    ];
    for variant in &all {
        let s = variant.as_text();
        let parsed: Kind = Kind::parse(&s).unwrap();
        assert_eq!(&parsed, variant);
    }
}

#[test]
fn weight_roundtrips() {
    let all = [Weight::Must, Weight::Should, Weight::May];
    for variant in &all {
        let s = variant.as_text();
        let parsed: Weight = Weight::parse(&s).unwrap();
        assert_eq!(&parsed, variant);
    }
}

#[test]
fn invalid_kind_errors() {
    assert!(Kind::parse("banana").is_err());
}

#[test]
fn invalid_weight_errors() {
    assert!(Weight::parse("banana").is_err());
}

#[test]
fn link_kind_roundtrips() {
    let all = [
        LinkKind::Refines,
        LinkKind::Supports,
        LinkKind::Supersedes,
        LinkKind::Conflicts,
        LinkKind::Requires,
        LinkKind::Entails,
        LinkKind::Excludes,
    ];
    for variant in &all {
        let s = variant.as_text();
        let parsed: LinkKind = LinkKind::parse(&s).unwrap();
        assert_eq!(&parsed, variant);
    }
}

#[test]
fn level_and_status_roundtrip() {
    for level in [Level::Strategic, Level::Tactical, Level::Operational] {
        assert_eq!(Level::parse(&level.as_text()).unwrap(), level);
    }
    for status in [Status::Active, Status::Superseded, Status::Deprecated, Status::Draft] {
        assert_eq!(Status::parse(&status.as_text()).unwrap(), status);
    }
}

#[test]
fn invalid_level_carries_text() {
    match Level::parse("sideways") {
        Err(dictum::DictumError::InvalidLevel(t)) => assert_eq!(t, "sideways"),
        other => panic!("unexpected: {:?}", other),
    }
}

#[test]
fn parse_folds_ascii_case() {
    // any casing of the canonical names parses; other text still fails
    assert_eq!(Level::parse("Tactical").unwrap(), Level::Tactical);
    assert_eq!(Status::parse("ACTIVE").unwrap(), Status::Active);
    assert_eq!(Kind::parse("PRINCIPLE").unwrap(), Kind::Principle);
    assert_eq!(Weight::parse("MUST").unwrap(), Weight::Must);
    assert_eq!(LinkKind::parse("Refines").unwrap(), LinkKind::Refines);
    assert_eq!(Level::parse("tactical").unwrap(), Level::Tactical);
    assert!(Level::parse("Sideways").is_err());
}

#[test]
fn strict_matcher_takes_canonical_case_only() {
    // the interchange decoder's matcher stays exact, as the stored CHECK
    // constraints and the record format are
    assert_eq!(Level::from_text("tactical"), Some(Level::Tactical));
    assert_eq!(Level::from_text("Tactical"), None);
    assert_eq!(Kind::from_text("Rule"), None);
    assert_eq!(Weight::from_text("must"), Some(Weight::Must));
    assert_eq!(LinkKind::from_text("REFINES"), None);
}
