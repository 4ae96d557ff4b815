//! The schema manager's model.  The stored shape is either missing (fresh
//! location), the older shape (decisions without kind, weight, rebuttal or
//! scope; links without reason), or the current one.  Upgrading is additive:
//! missing decision fields get fixed defaults, links keep their rows and
//! gain an absent reason.  The marker that detects an already-current shape
//! is the presence of the kind field, so running the upgrade against a
//! current store changes nothing.

use vstd::prelude::*;

use crate::model::{Decision, DecisionV, Kind, Level, Link, LinkKind, LinkV, Status, Weight};
use crate::store::{LabelRow, Store, StoreV};

verus! {

/// A decision row as the older shape stored it.
#[derive(Debug)]
pub struct LegacyDecision {
    pub id: String,
    pub title: String,
    pub body: Option<String>,
    pub level: Level,
    pub status: Status,
    pub superseded_by: Option<String>,
    pub author: String,
    pub created_at: String,
    pub updated_at: String,
}

/// A link row as the older shape stored it.
#[derive(Debug)]
pub struct LegacyLink {
    pub source_id: String,
    pub target_id: String,
    pub kind: LinkKind,
    pub created_at: String,
}

/// The three record sets in the older shape.
#[derive(Debug)]
pub struct LegacyStore {
    pub decisions: Vec<LegacyDecision>,
    pub links: Vec<LegacyLink>,
    pub labels: Vec<LabelRow>,
}

/// What sits at a storage location before the schema manager has run.
#[derive(Debug)]
pub enum StorageShape {
    /// Nothing stored yet.
    Missing,
    /// The older shape.
    Legacy(LegacyStore),
    /// The current shape.
    Current(Store),
}

/// The decision an older row upgrades to: the missing classification fields
/// get their fixed defaults.
pub open spec fn upgraded_decision_spec(d: &LegacyDecision) -> DecisionV {
    DecisionV {
        id: d.id@,
        title: d.title@,
        body: d.body.deep_view(),
        level: d.level,
        status: d.status,
        superseded_by: d.superseded_by.deep_view(),
        author: d.author@,
        created_at: d.created_at@,
        updated_at: d.updated_at@,
        labels: Seq::empty(),
        kind: Kind::Choice,
        weight: Weight::Should,
        rebuttal: None,
        scope: None,
    }
}

/// The link an older row upgrades to: the same row with no reason.
pub open spec fn upgraded_link_spec(l: &LegacyLink) -> LinkV {
    LinkV {
        source_id: l.source_id@,
        target_id: l.target_id@,
        kind: l.kind,
        created_at: l.created_at@,
        reason: None,
    }
}

/// The current-shape content of an older store: rows kept, one by one.
pub open spec fn upgraded_store_spec(l: &LegacyStore) -> StoreV {
    StoreV {
        decisions: Seq::new(l.decisions@.len(), |i: int| upgraded_decision_spec(&l.decisions@[i])),
        links: Seq::new(l.links@.len(), |i: int| upgraded_link_spec(&l.links@[i])),
        labels: l.labels.deep_view(),
    }
}

/// The empty store.
pub open spec fn empty_store_spec() -> StoreV {
    StoreV { decisions: Seq::empty(), links: Seq::empty(), labels: Seq::empty() }
}

/// The current-shape content of whatever is stored: the terminal state of
/// the upgrade steps.
pub open spec fn ensure_current_spec(shape: &StorageShape) -> StoreV {
    match shape {
        StorageShape::Missing => empty_store_spec(),
        StorageShape::Legacy(l) => upgraded_store_spec(l),
        StorageShape::Current(s) => s@,
    }
}

/// Whether a decision record set with these field names still needs the
/// upgrade: the marker is the absence of the kind field.
pub fn needs_upgrade(columns: &Vec<String>) -> (r: bool)
    ensures
        r == !columns.deep_view().contains("kind"@),
{
    let n = columns.len();
    for i in 0..n
        invariant
            n == columns@.len(),
            forall|j: int| 0 <= j < i ==> columns.deep_view()[j] != "kind"@,
    {
        proof {
            assert(columns.deep_view()[i as int] == columns@[i as int]@);
        }
        if crate::strutil::str_eq(columns[i].as_str(), "kind") {
            proof {
                assert(columns.deep_view()[i as int] == "kind"@);
            }
            return false;
        }
    }
    proof {
        if columns.deep_view().contains("kind"@) {
            let w = choose|j: int|
                0 <= j < columns.deep_view().len() && columns.deep_view()[j] == "kind"@;
            assert(columns.deep_view()[w] != "kind"@);
        }
    }
    true
}

/// Builds the current-shape store from whatever was found: creates an empty
/// store at a fresh location, upgrades the older shape row for row, and
/// passes a current store through untouched.
pub fn ensure_current(shape: StorageShape) -> (r: Store)
    ensures
        r@ == ensure_current_spec(&shape),
{
    match shape {
        StorageShape::Missing => {
            let s = Store { decisions: Vec::new(), links: Vec::new(), labels: Vec::new() };
            proof {
                assert(s@.decisions =~= empty_store_spec().decisions);
                assert(s@.links =~= empty_store_spec().links);
                assert(s@.labels =~= empty_store_spec().labels);
            }
            s
        },
        StorageShape::Legacy(l) => {
            let LegacyStore { decisions: old_ds, links: old_ls, labels } = l;
            let mut decisions: Vec<Decision> = Vec::new();
            let dn = old_ds.len();
            for i in 0..dn
                invariant
                    dn == old_ds@.len(),
                    decisions@.len() == i,
                    forall|j: int|
                        0 <= j < i ==> (#[trigger] decisions@[j])@
                            == upgraded_decision_spec(&old_ds@[j]),
            {
                let d = &old_ds[i];
                let row = Decision {
                    id: d.id.clone(),
                    title: d.title.clone(),
                    body: crate::strutil::clone_opt_string(&d.body),
                    level: d.level,
                    status: d.status,
                    superseded_by: crate::strutil::clone_opt_string(&d.superseded_by),
                    author: d.author.clone(),
                    created_at: d.created_at.clone(),
                    updated_at: d.updated_at.clone(),
                    labels: Vec::new(),
                    kind: Kind::Choice,
                    weight: Weight::Should,
                    rebuttal: None,
                    scope: None,
                };
                proof {
                    assert(row@.labels =~= Seq::<Seq<char>>::empty());
                    assert(row@ == upgraded_decision_spec(&old_ds@[i as int]));
                }
                decisions.push(row);
                proof {
                    assert forall|j: int|
                        0 <= j < i + 1 implies (#[trigger] decisions@[j])@
                        == upgraded_decision_spec(&old_ds@[j]) by {}
                }
            }
            let mut links: Vec<Link> = Vec::new();
            let ln = old_ls.len();
            for i in 0..ln
                invariant
                    ln == old_ls@.len(),
                    links@.len() == i,
                    forall|j: int|
                        0 <= j < i ==> (#[trigger] links@[j])@ == upgraded_link_spec(
                            &old_ls@[j],
                        ),
            {
                let k = &old_ls[i];
                let row = Link {
                    source_id: k.source_id.clone(),
                    target_id: k.target_id.clone(),
                    kind: k.kind,
                    created_at: k.created_at.clone(),
                    reason: None,
                };
                proof {
                    assert(row@ == upgraded_link_spec(&old_ls@[i as int]));
                }
                links.push(row);
                proof {
                    assert forall|j: int|
                        0 <= j < i + 1 implies (#[trigger] links@[j])@
                        == upgraded_link_spec(&old_ls@[j]) by {}
                }
            }
            let s = Store { decisions, links, labels };
            proof {
                assert(s@.decisions =~= ensure_current_spec(&shape).decisions);
                assert(s@.links =~= ensure_current_spec(&shape).links);
            }
            s
        },
        StorageShape::Current(s) => s,
    }
}

/// Law: the upgrade is idempotent.  Once a store is in the current shape,
/// running the schema manager against it again yields the identical
/// content.
pub proof fn lemma_upgrade_idempotent(shape: &StorageShape, s: Store)
    requires
        s@ == ensure_current_spec(shape),
    ensures
        ensure_current_spec(&StorageShape::Current(s)) == ensure_current_spec(shape),
{
}

} // verus!
