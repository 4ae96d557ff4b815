//! Orchestration over the repositories: creating a decision with its labels
//! and optional parent link, amending (supersession), deprecation, and
//! linking with the supersedes side effect.  Each operation is a sequence of
//! repository steps; the contracts say exactly which steps took effect, also
//! when a later step fails.

use vstd::prelude::*;

use vstd::string::StringSliceAdditionalSpecFns;

use crate::decisions::{row_of, status_updated};
use crate::error::DictumError;
use crate::id::id_spec;
use crate::model::{Decision, DecisionV, Kind, Level, Link, LinkKind, Status, Weight};
use crate::store::{LabelRowV, Store, StoreV};

verus! {

/// What a caller asks for when adding a decision.
#[derive(Debug)]
pub struct AddArgs {
    pub title: String,
    pub level: Level,
    pub parent: Option<String>,
    pub label: Vec<String>,
    pub body: Option<String>,
    pub author: Option<String>,
    pub format: Option<String>,
    pub kind: Kind,
    pub weight: Weight,
    pub rebuttal: Option<String>,
    pub scope: Option<String>,
}

/// What a caller asks for when amending a decision.
#[derive(Debug)]
pub struct AmendArgs {
    pub id: String,
    pub title: Option<String>,
    pub body: Option<String>,
    pub format: Option<String>,
}


/// What a caller asks for when listing decisions.
#[derive(Debug)]
pub struct ListArgs {
    pub tree: bool,
    pub level: Option<String>,
    pub status: Option<String>,
    pub label: Option<String>,
    pub format: Option<String>,
    pub kind: Option<String>,
    pub weight: Option<String>,
    pub scope: Option<String>,
}

/// Parses the textual filter conditions of a listing request into the
/// typed filter; the first unrecognized name is the error.
pub fn parse_filter(args: &ListArgs) -> (r: Result<crate::decisions::ListFilter, DictumError>)
    ensures
        ({
            match r {
                Ok(f) => {
                    &&& f@.level == (match args.level.deep_view() {
                        Some(t) => crate::model::Level::level_of_text(crate::strutil::fold_chars(t)),
                        None => None,
                    })
                    &&& (args.level.deep_view() matches Some(t) ==> crate::model::Level::level_of_text(crate::strutil::fold_chars(t)) is Some)
                    &&& f@.status == (match args.status.deep_view() {
                        Some(t) => crate::model::Status::status_of_text(crate::strutil::fold_chars(t)),
                        None => None,
                    })
                    &&& (args.status.deep_view() matches Some(t) ==> crate::model::Status::status_of_text(crate::strutil::fold_chars(t)) is Some)
                    &&& f@.kind == (match args.kind.deep_view() {
                        Some(t) => Kind::kind_of_text(crate::strutil::fold_chars(t)),
                        None => None,
                    })
                    &&& (args.kind.deep_view() matches Some(t) ==> Kind::kind_of_text(crate::strutil::fold_chars(t)) is Some)
                    &&& f@.weight == (match args.weight.deep_view() {
                        Some(t) => Weight::weight_of_text(crate::strutil::fold_chars(t)),
                        None => None,
                    })
                    &&& (args.weight.deep_view() matches Some(t) ==> Weight::weight_of_text(crate::strutil::fold_chars(t)) is Some)
                    &&& f@.label == args.label.deep_view()
                    &&& f@.scope == args.scope.deep_view()
                },
                Err(e) => {
                    let level_ok = match args.level.deep_view() {
                        Some(t) => crate::model::Level::level_of_text(crate::strutil::fold_chars(t)) is Some,
                        None => true,
                    };
                    let status_ok = match args.status.deep_view() {
                        Some(t) => crate::model::Status::status_of_text(crate::strutil::fold_chars(t)) is Some,
                        None => true,
                    };
                    let kind_ok = match args.kind.deep_view() {
                        Some(t) => Kind::kind_of_text(crate::strutil::fold_chars(t)) is Some,
                        None => true,
                    };
                    match e {
                        DictumError::InvalidLevel(t) => args.level.deep_view() == Some(t@)
                            && crate::model::Level::level_of_text(crate::strutil::fold_chars(t@)) is None,
                        DictumError::InvalidStatus(t) => level_ok && args.status.deep_view()
                            == Some(t@) && crate::model::Status::status_of_text(crate::strutil::fold_chars(t@))
                            is None,
                        DictumError::InvalidKind(t) => level_ok && status_ok
                            && args.kind.deep_view() == Some(t@) && Kind::kind_of_text(crate::strutil::fold_chars(t@))
                            is None,
                        DictumError::InvalidWeight(t) => level_ok && status_ok && kind_ok
                            && args.weight.deep_view() == Some(t@)
                            && Weight::weight_of_text(crate::strutil::fold_chars(t@)) is None,
                        _ => false,
                    }
                },
            }
        }),
{
    let level = match &args.level {
        Some(t) => match crate::model::Level::parse(t.as_str()) {
            Ok(v) => Some(v),
            Err(e) => {
                return Err(e);
            },
        },
        None => None,
    };
    let status = match &args.status {
        Some(t) => match crate::model::Status::parse(t.as_str()) {
            Ok(v) => Some(v),
            Err(e) => {
                return Err(e);
            },
        },
        None => None,
    };
    let kind = match &args.kind {
        Some(t) => match Kind::parse(t.as_str()) {
            Ok(v) => Some(v),
            Err(e) => {
                return Err(e);
            },
        },
        None => None,
    };
    let weight = match &args.weight {
        Some(t) => match Weight::parse(t.as_str()) {
            Ok(v) => Some(v),
            Err(e) => {
                return Err(e);
            },
        },
        None => None,
    };
    Ok(crate::decisions::ListFilter {
        level,
        status,
        label: crate::strutil::clone_opt_string(&args.label),
        kind,
        weight,
        scope: crate::strutil::clone_opt_string(&args.scope),
    })
}

/// Refuses repository work before the storage location is set up.
pub fn ensure_init(initialized: bool) -> (r: Result<(), DictumError>)
    ensures
        initialized ==> r == Ok::<(), DictumError>(()),
        !initialized ==> r == Err::<(), DictumError>(DictumError::NotInitialized),
{
    if initialized {
        Ok(())
    } else {
        Err(DictumError::NotInitialized)
    }
}

/// Whether a label row with this pair sits in the run.
pub open spec fn label_in(rows: Seq<LabelRowV>, id: Seq<char>, lab: Seq<char>) -> bool {
    exists|i: int|
        0 <= i < rows.len() && (#[trigger] rows[i]).decision_id == id && rows[i].label
            == lab
}

/// The label rows after attaching one label (already-present pairs change
/// nothing).
pub open spec fn add_label_row(rows: Seq<LabelRowV>, id: Seq<char>, lab: Seq<char>) -> Seq<
    LabelRowV,
> {
    if label_in(rows, id, lab) {
        rows
    } else {
        rows.push(LabelRowV { decision_id: id, label: lab })
    }
}

/// The label rows after attaching each label of `ls` in order.
pub open spec fn add_label_rows(rows: Seq<LabelRowV>, id: Seq<char>, ls: Seq<Seq<char>>) -> Seq<
    LabelRowV,
>
    decreases ls.len(),
{
    if ls.len() == 0 {
        rows
    } else {
        add_label_row(add_label_rows(rows, id, ls.drop_last()), id, ls.last())
    }
}

/// Attaches every given label to the decision, in order.
fn add_all_labels(store: &mut Store, id: &str, labels: &Vec<String>)
    ensures
        final(store)@.decisions == old(store)@.decisions,
        final(store)@.links == old(store)@.links,
        final(store)@.labels == add_label_rows(
            old(store)@.labels,
            id@,
            labels.deep_view(),
        ),
        old(store)@.wf() ==> final(store)@.wf(),
{
    let ghost ls = labels.deep_view();
    let n = labels.len();
    proof {
        assert(ls.take(0) =~= Seq::<Seq<char>>::empty());
        assert(store@.labels == add_label_rows(old(store)@.labels, id@, ls.take(0)));
    }
    for i in 0..n
        invariant
            n == labels@.len(),
            n == ls.len(),
            ls == labels.deep_view(),
            store@.decisions == old(store)@.decisions,
            store@.links == old(store)@.links,
            store@.labels == add_label_rows(old(store)@.labels, id@, ls.take(i as int)),
            old(store)@.wf() ==> store@.wf(),
    {
        proof {
            assert(ls[i as int] == labels@[i as int]@);
            assert(ls.take(i + 1).drop_last() =~= ls.take(i as int));
            assert(ls.take(i + 1).last() == ls[i as int]);
        }
        crate::labels::add(store, id, labels[i].as_str());
    }
    proof {
        assert(ls.take(n as int) =~= ls);
    }
}

/// The supersedes link an amendment records.
pub open spec fn supersedes_link(source: Seq<char>, target: Seq<char>, now: Seq<char>) -> crate::model::LinkV {
    crate::model::LinkV {
        source_id: source,
        target_id: target,
        kind: LinkKind::Supersedes,
        created_at: now,
        reason: None,
    }
}

/// The decision a successful `add` builds.
pub open spec fn added_decision(
    args: AddArgsV,
    prefix: Seq<char>,
    default_author: Option<Seq<char>>,
    now: Seq<char>,
) -> DecisionV {
    DecisionV {
        id: id_spec(prefix, args.title, now),
        title: args.title,
        body: args.body,
        level: args.level,
        status: Status::Active,
        superseded_by: None,
        author: match args.author {
            Some(a) => a,
            None => match default_author {
                Some(a) => a,
                None => "unknown"@,
            },
        },
        created_at: now,
        updated_at: now,
        labels: args.label,
        kind: args.kind,
        weight: args.weight,
        rebuttal: args.rebuttal,
        scope: args.scope,
    }
}

/// The mathematical content of the add request.
pub ghost struct AddArgsV {
    pub title: Seq<char>,
    pub level: Level,
    pub parent: Option<Seq<char>>,
    pub label: Seq<Seq<char>>,
    pub body: Option<Seq<char>>,
    pub author: Option<Seq<char>>,
    pub format: Option<Seq<char>>,
    pub kind: Kind,
    pub weight: Weight,
    pub rebuttal: Option<Seq<char>>,
    pub scope: Option<Seq<char>>,
}

impl View for AddArgs {
    type V = AddArgsV;

    open spec fn view(&self) -> AddArgsV {
        AddArgsV {
            title: self.title@,
            level: self.level,
            parent: self.parent.deep_view(),
            label: self.label.deep_view(),
            body: self.body.deep_view(),
            author: self.author.deep_view(),
            format: self.format.deep_view(),
            kind: self.kind,
            weight: self.weight,
            rebuttal: self.rebuttal.deep_view(),
            scope: self.scope.deep_view(),
        }
    }
}

/// Creates a decision: derives its id, stores its row, attaches its labels,
/// and, when a parent is named, records a refines link to it.  Fails with
/// DuplicateId when the derived id is taken (store unchanged), and with
/// DecisionNotFound when the named parent is absent (decision and labels
/// stored, no link).
pub fn add(
    store: &mut Store,
    args: &AddArgs,
    prefix: &str,
    default_author: Option<&str>,
    now: &str,
) -> (r: Result<Decision, DictumError>)
    requires
        old(store)@.wf(),
    ensures
        final(store)@.wf(),
        ({
            let d = added_decision(args@, prefix@, default_author.deep_view(), now@);
            match r {
                Ok(out) => out@ == d && !old(store)@.has_decision(d.id) && final(store)@.decisions
                    == old(store)@.decisions.push(row_of(d)) && final(store)@.labels
                    == add_label_rows(old(store)@.labels, d.id, args@.label) && (match args@.parent {
                    None => final(store)@.links == old(store)@.links,
                    Some(p) => old(store)@.has_decision(p) && d.id != p && !old(
                        store,
                    )@.has_link(d.id, p, LinkKind::Refines) && final(store)@.links == old(
                        store,
                    )@.links.push(
                        crate::model::LinkV {
                            source_id: d.id,
                            target_id: p,
                            kind: LinkKind::Refines,
                            created_at: now@,
                            reason: None,
                        },
                    ),
                }),
                Err(e) => match e {
                    DictumError::DuplicateId => old(store)@.has_decision(d.id) && final(store)@ == old(store)@,
                    DictumError::DecisionNotFound(t) => args@.parent == Some(t@)
                        && !old(store)@.has_decision(t@) && final(store)@.decisions == old(
                        store,
                    )@.decisions.push(row_of(d)) && final(store)@.labels == add_label_rows(
                        old(store)@.labels,
                        d.id,
                        args@.label,
                    ) && final(store)@.links == old(store)@.links,
                    DictumError::SelfLink => args@.parent == Some(d.id)
                        && !old(store)@.has_decision(d.id)
                        && final(store)@.decisions == old(store)@.decisions.push(row_of(d))
                        && final(store)@.labels == add_label_rows(
                        old(store)@.labels,
                        d.id,
                        args@.label,
                    ) && final(store)@.links == old(store)@.links,
                    DictumError::LinkAlreadyExists => (args@.parent matches Some(p) && p
                        != d.id && old(store)@.has_decision(p) && old(store)@.has_link(
                        d.id,
                        p,
                        LinkKind::Refines,
                    )) && !old(store)@.has_decision(d.id)
                        && final(store)@.decisions == old(store)@.decisions.push(row_of(d))
                        && final(store)@.labels == add_label_rows(
                        old(store)@.labels,
                        d.id,
                        args@.label,
                    ) && final(store)@.links == old(store)@.links,
                    _ => false,
                },
            }
        }),
{
    let id = crate::id::generate_id(prefix, args.title.as_str(), now);
    let author: String = match &args.author {
        Some(a) => a.clone(),
        None => match default_author {
            Some(a) => a.to_owned(),
            None => "unknown".to_owned(),
        },
    };
    let decision = Decision {
        id: id.clone(),
        title: args.title.clone(),
        body: crate::strutil::clone_opt_string(&args.body),
        level: args.level,
        status: Status::Active,
        superseded_by: None,
        author,
        created_at: now.to_owned(),
        updated_at: now.to_owned(),
        labels: crate::strutil::clone_string_vec(&args.label),
        kind: args.kind,
        weight: args.weight,
        rebuttal: crate::strutil::clone_opt_string(&args.rebuttal),
        scope: crate::strutil::clone_opt_string(&args.scope),
    };
    proof {
        assert(decision@ == added_decision(args@, prefix@, default_author.deep_view(), now@));
    }
    match crate::decisions::insert(store, &decision) {
        Ok(()) => {},
        Err(e) => {
            return Err(e);
        },
    }
    add_all_labels(store, id.as_str(), &args.label);
    if let Some(parent_id) = &args.parent {
        match crate::decisions::get(store, parent_id.as_str()) {
            Ok(_) => {
                proof {
                    let sv = old(store)@;
                    let d = added_decision(args@, prefix@, default_author.deep_view(), now@);
                    let w = choose|i: int|
                        0 <= i < store@.decisions.len() && (#[trigger] store@.decisions[i]).id
                            == parent_id@;
                    if w < sv.decisions.len() {
                        assert(sv.decisions[w] == store@.decisions[w]);
                        assert(sv.has_decision(parent_id@));
                    } else {
                        assert(store@.decisions[w] == row_of(d));
                        assert(sv.has_decision(parent_id@) || parent_id@ == d.id);
                    }
                }
            },
            Err(e) => {
                proof {
                    let sv = old(store)@;
                    if sv.has_decision(parent_id@) {
                        let w = choose|i: int|
                            0 <= i < sv.decisions.len() && (#[trigger] sv.decisions[i]).id
                                == parent_id@;
                        assert(store@.decisions[w] == sv.decisions[w]);
                        assert(store@.has_decision(parent_id@));
                    }
                }
                return Err(e);
            },
        }
        let link = Link {
            source_id: id.clone(),
            target_id: parent_id.clone(),
            kind: LinkKind::Refines,
            created_at: now.to_owned(),
            reason: None,
        };
        match crate::links::insert(store, &link) {
            Ok(()) => {},
            Err(e) => {
                return Err(e);
            },
        }
    }
    Ok(decision)
}

/// The decision a successful `amend` builds from the old one.
pub open spec fn amended_decision(
    old_d: DecisionV,
    title: Option<Seq<char>>,
    body: Option<Seq<char>>,
    prefix: Seq<char>,
    now: Seq<char>,
) -> DecisionV {
    let new_title = match title {
        Some(t) => t,
        None => old_d.title,
    };
    DecisionV {
        id: id_spec(prefix, new_title, now),
        title: new_title,
        body: match body {
            Some(b) => Some(b),
            None => old_d.body,
        },
        level: old_d.level,
        status: Status::Active,
        superseded_by: None,
        author: old_d.author,
        created_at: now,
        updated_at: now,
        labels: old_d.labels,
        kind: old_d.kind,
        weight: old_d.weight,
        rebuttal: old_d.rebuttal,
        scope: old_d.scope,
    }
}

/// Supersedes a decision with a new one: stores the new decision carrying
/// the old one's classification and labels, records a supersedes link from
/// new to old, and flips the old decision to superseded with its pointer on
/// the new id.  Fails with DecisionNotFound when the id is absent and with
/// DuplicateId when the derived id is taken (store unchanged either way);
/// fails with LinkAlreadyExists when a stale supersedes link between the two
/// ids exists (new decision and labels stored, old decision untouched).
pub fn amend(store: &mut Store, args: &AmendArgs, prefix: &str, now: &str) -> (r: Result<
    Decision,
    DictumError,
>)
    requires
        old(store)@.wf(),
    ensures
        final(store)@.wf(),
        ({
            let sv = old(store)@;
            let present = sv.has_decision(args.id@);
            let oi = sv.decision_index(args.id@);
            let old_row = sv.decisions[oi];
            let d = amended_decision(
                crate::decisions::with_labels(sv, old_row),
                args.title.deep_view(),
                args.body.deep_view(),
                prefix@,
                now@,
            );
            match r {
                Ok(out) => present && out@ == d && !sv.has_decision(d.id) && d.id != args.id@
                    && final(store)@.decisions == sv.decisions.push(row_of(d)).update(
                    oi,
                    status_updated(old_row, Status::Superseded, Some(d.id), now@),
                ) && final(store)@.links == sv.links.push(
                    supersedes_link(d.id, args.id@, now@),
                ) && final(store)@.labels == add_label_rows(sv.labels, d.id, d.labels),
                Err(e) => match e {
                    DictumError::DecisionNotFound(t) => t@ == args.id@ && !present && final(store)@ == sv,
                    DictumError::DuplicateId => present && sv.has_decision(d.id) && final(store)@ == sv,
                    DictumError::LinkAlreadyExists => present && sv.has_link(
                        d.id,
                        args.id@,
                        LinkKind::Supersedes,
                    ) && final(store)@.decisions == sv.decisions.push(row_of(d)) && final(store)@.links == sv.links && final(store)@.labels == add_label_rows(
                        sv.labels,
                        d.id,
                        d.labels,
                    ),
                    _ => false,
                },
            }
        }),
{
    let old_d = match crate::decisions::get(store, args.id.as_str()) {
        Ok(d) => d,
        Err(e) => {
            return Err(e);
        },
    };
    let new_title: String = match &args.title {
        Some(t) => t.clone(),
        None => old_d.title.clone(),
    };
    let new_id = crate::id::generate_id(prefix, new_title.as_str(), now);
    let new_decision = Decision {
        id: new_id.clone(),
        title: new_title,
        body: match &args.body {
            Some(b) => Some(b.clone()),
            None => crate::strutil::clone_opt_string(&old_d.body),
        },
        level: old_d.level,
        status: Status::Active,
        superseded_by: None,
        author: old_d.author.clone(),
        created_at: now.to_owned(),
        updated_at: now.to_owned(),
        labels: crate::strutil::clone_string_vec(&old_d.labels),
        kind: old_d.kind,
        weight: old_d.weight,
        rebuttal: crate::strutil::clone_opt_string(&old_d.rebuttal),
        scope: crate::strutil::clone_opt_string(&old_d.scope),
    };
    match crate::decisions::insert(store, &new_decision) {
        Ok(()) => {},
        Err(e) => {
            return Err(e);
        },
    }
    add_all_labels(store, new_id.as_str(), &new_decision.labels);
    let link = Link {
        source_id: new_id.clone(),
        target_id: args.id.clone(),
        kind: LinkKind::Supersedes,
        created_at: now.to_owned(),
        reason: None,
    };
    match crate::links::insert(store, &link) {
        Ok(()) => {},
        Err(e) => {
            return Err(e);
        },
    }
    match crate::decisions::update_status(
        store,
        args.id.as_str(),
        Status::Superseded,
        Some(new_id.as_str()),
        now,
    ) {
        Ok(()) => {},
        Err(e) => {
            proof {
                let sv = old(store)@;
                let w = choose|i: int|
                    0 <= i < sv.decisions.len() && (#[trigger] sv.decisions[i]).id
                        == args.id@;
                assert(store@.decisions[w] == sv.decisions[w]);
                assert(store@.has_decision(args.id@));
                assert(false);
            }
            return Err(e);
        },
    }
    Ok(new_decision)
}

/// Marks a decision deprecated in place, clearing its supersession pointer
/// and bumping its update timestamp.  Fails with DecisionNotFound when the
/// id is absent.
pub fn deprecate(store: &mut Store, id: &str, now: &str) -> (r: Result<(), DictumError>)
    requires
        old(store)@.wf(),
    ensures
        final(store)@.wf(),
        final(store)@.links == old(store)@.links,
        final(store)@.labels == old(store)@.labels,
        match r {
            Ok(()) => old(store)@.has_decision(id@) && final(store)@.decisions == old(
                store,
            )@.decisions.update(
                old(store)@.decision_index(id@),
                status_updated(
                    old(store)@.decisions[old(store)@.decision_index(id@)],
                    Status::Deprecated,
                    None,
                    now@,
                ),
            ),
            Err(e) => !old(store)@.has_decision(id@) && (e
                matches DictumError::DecisionNotFound(t) && t@ == id@) && final(store)@
                == old(store)@,
        },
{
    crate::decisions::update_status(store, id, Status::Deprecated, None, now)
}

/// Records a link after checking that both endpoints exist; a supersedes
/// link additionally flips the target to superseded, pointing at the
/// source.  Fails with DecisionNotFound for a missing endpoint, SelfLink
/// for equal endpoints, and LinkAlreadyExists for a stored triple, all with
/// the store unchanged.
pub fn create_link(
    store: &mut Store,
    source_id: &str,
    kind: LinkKind,
    target_id: &str,
    reason: Option<&str>,
    now: &str,
) -> (r: Result<(), DictumError>)
    requires
        old(store)@.wf(),
    ensures
        final(store)@.wf(),
        final(store)@.labels == old(store)@.labels,
        ({
            let sv = old(store)@;
            let lv = crate::model::LinkV {
                source_id: source_id@,
                target_id: target_id@,
                kind: kind,
                created_at: now@,
                reason: reason.deep_view(),
            };
            match r {
                Ok(()) => sv.has_decision(source_id@) && sv.has_decision(target_id@)
                    && source_id@ != target_id@ && !sv.has_link(source_id@, target_id@, kind)
                    && final(store)@.links == sv.links.push(lv) && (if kind
                    == LinkKind::Supersedes {
                    final(store)@.decisions == sv.decisions.update(
                        sv.decision_index(target_id@),
                        status_updated(
                            sv.decisions[sv.decision_index(target_id@)],
                            Status::Superseded,
                            Some(source_id@),
                            now@,
                        ),
                    )
                } else {
                    final(store)@.decisions == sv.decisions
                }),
                Err(e) => final(store)@ == sv && match e {
                    DictumError::DecisionNotFound(t) => (t@ == source_id@
                        && !sv.has_decision(source_id@)) || (t@ == target_id@
                        && sv.has_decision(source_id@) && !sv.has_decision(target_id@)),
                    DictumError::SelfLink => sv.has_decision(source_id@)
                        && sv.has_decision(target_id@) && source_id@ == target_id@,
                    DictumError::LinkAlreadyExists => sv.has_decision(source_id@)
                        && sv.has_decision(target_id@) && source_id@ != target_id@
                        && sv.has_link(source_id@, target_id@, kind),
                    _ => false,
                },
            }
        }),
{
    match crate::decisions::get(store, source_id) {
        Ok(_) => {},
        Err(e) => {
            return Err(e);
        },
    }
    match crate::decisions::get(store, target_id) {
        Ok(_) => {},
        Err(e) => {
            return Err(e);
        },
    }
    let link = Link {
        source_id: source_id.to_owned(),
        target_id: target_id.to_owned(),
        kind: kind,
        created_at: now.to_owned(),
        reason: match reason {
            Some(t) => Some(t.to_owned()),
            None => None,
        },
    };
    match crate::links::insert(store, &link) {
        Ok(()) => {},
        Err(e) => {
            return Err(e);
        },
    }
    if kind == LinkKind::Supersedes {
        match crate::decisions::update_status(
            store,
            target_id,
            Status::Superseded,
            Some(source_id),
            now,
        ) {
            Ok(()) => {},
            Err(e) => {
                proof {
                    assert(false);
                }
                return Err(e);
            },
        }
    }
    Ok(())
}


/// Whether a (source, target, kind) triple sits in a run of links.
pub open spec fn triple_in(
    links: Seq<crate::model::LinkV>,
    source: Seq<char>,
    target: Seq<char>,
    kind: LinkKind,
) -> bool {
    exists|i: int|
        0 <= i < links.len() && (#[trigger] links[i]).source_id == source
            && links[i].target_id == target && links[i].kind == kind
}

/// The stored link an imported summary becomes, stamped with the import
/// time.
pub open spec fn link_of_summary(
    s: crate::codec::LinkSummaryV,
    now: Seq<char>,
) -> crate::model::LinkV {
    crate::model::LinkV {
        source_id: s.source,
        target_id: s.target,
        kind: s.kind,
        created_at: now,
        reason: s.reason,
    }
}

/// What importing a run of link summaries does to the stored links: each
/// summary in turn is skipped when its triple is already stored, appended
/// otherwise, and a self-link stops the run as an error.  The result is the
/// final link run, how many were appended, and whether the run completed.
pub open spec fn import_links_spec(
    links: Seq<crate::model::LinkV>,
    ls: Seq<crate::codec::LinkSummaryV>,
    now: Seq<char>,
) -> (Seq<crate::model::LinkV>, int, bool)
    decreases ls.len(),
{
    if ls.len() == 0 {
        (links, 0, true)
    } else {
        let s0 = ls[0];
        if s0.source == s0.target {
            (links, 0, false)
        } else if triple_in(links, s0.source, s0.target, s0.kind) {
            import_links_spec(links, ls.drop_first(), now)
        } else {
            let (rest, n, ok) = import_links_spec(
                links.push(link_of_summary(s0, now)),
                ls.drop_first(),
                now,
            );
            (rest, n + 1, ok)
        }
    }
}

/// Imports one interchange record: the decision is stored unless its id is
/// already taken (a silent skip), its labels are attached, and its link
/// summaries are stored with duplicates skipped.  Returns whether the
/// decision was stored and how many links were.  Fails with
/// SerializationError on a malformed record (store unchanged) and with
/// SelfLink on a self-link summary (the decision and earlier links kept).
#[verifier::rlimit(100)]
#[verifier::spinoff_prover]
pub fn import_record(store: &mut Store, line: &str, now: &str) -> (r: Result<
    (bool, usize),
    DictumError,
>)
    requires
        old(store)@.wf(),
    ensures
        final(store)@.wf(),
        ({
            let sv = old(store)@;
            match crate::decode::dec_spec(line.spec_bytes()) {
                Some(rec) => {
                    let d = rec.0;
                    let ls = rec.1;
                    if sv.has_decision(d.id) {
                        r == Ok::<(bool, usize), DictumError>((false, 0)) && final(store)@
                            == sv
                    } else {
                        let (linked, n, ok) = import_links_spec(sv.links, ls, now@);
                        &&& final(store)@.decisions == sv.decisions.push(
                            crate::decisions::row_of(d),
                        )
                        &&& final(store)@.labels == add_label_rows(sv.labels, d.id, d.labels)
                        &&& final(store)@.links == linked
                        &&& (ok ==> r == Ok::<(bool, usize), DictumError>((true, n as usize)))
                        &&& (!ok ==> r == Err::<(bool, usize), DictumError>(
                            DictumError::SelfLink,
                        ))
                    }
                },
                None => (r matches Err(e) && e matches DictumError::SerializationError(_))
                    && final(store)@ == old(store)@,
            }
        }),
{
    let (decision, summaries) = match crate::decode::decode(line) {
        Ok(p) => p,
        Err(e) => {
            return Err(e);
        },
    };
    match crate::decisions::insert(store, &decision) {
        Ok(()) => {},
        Err(_) => {
            return Ok((false, 0));
        },
    }
    add_all_labels(store, decision.id.as_str(), &decision.labels);
    let ghost ls = summaries.deep_view();
    let ghost dd = decision@;
    let ghost links0 = store@.links;
    let mut count: usize = 0;
    let n = summaries.len();
    proof {
        assert(ls.skip(0) =~= ls);
    }
    for i in 0..n
        invariant
            n == summaries@.len(),
            n == ls.len(),
            ls == summaries.deep_view(),
            count <= i,
            links0 == old(store)@.links,
            crate::decode::dec_spec(line.spec_bytes()) == Some((dd, ls)),
            !old(store)@.has_decision(dd.id),
            store@.wf(),
            store@.decisions == old(store)@.decisions.push(crate::decisions::row_of(dd)),
            store@.labels == add_label_rows(old(store)@.labels, dd.id, dd.labels),
            import_links_spec(links0, ls, now@) == {
                let (rest, m, ok) = import_links_spec(store@.links, ls.skip(i as int), now@);
                (rest, m + count, ok)
            },
            old(store)@.wf(),
    {
        proof {
            assert(ls[i as int] == summaries@[i as int]@);
            assert(ls.skip(i as int)[0] == ls[i as int]);
            assert(ls.skip(i as int).drop_first() =~= ls.skip(i + 1));
        }
        let link = Link {
            source_id: summaries[i].source.clone(),
            target_id: summaries[i].target.clone(),
            kind: summaries[i].kind,
            created_at: now.to_owned(),
            reason: crate::strutil::clone_opt_string(&summaries[i].reason),
        };
        proof {
            assert(link@ == link_of_summary(ls[i as int], now@));
        }
        let ghost lpre = store@.links;
        match crate::links::insert(store, &link) {
            Ok(()) => {
                count = count + 1;
                proof {
                    assert(!triple_in(lpre, ls[i as int].source, ls[i as int].target, ls[
                    i as int].kind));
                    assert(ls[i as int].source != ls[i as int].target);
                    assert(store@.links == lpre.push(link_of_summary(ls[i as int], now@)));
                }
            },
            Err(e) => {
                match e {
                    DictumError::LinkAlreadyExists => {
                        proof {
                            assert(triple_in(lpre, ls[i as int].source, ls[
                            i as int].target, ls[i as int].kind));
                            assert(ls[i as int].source != ls[i as int].target);
                        }
                    },
                    other => {
                        proof {
                            assert(ls[i as int].source == ls[i as int].target);
                            assert(other == DictumError::SelfLink);
                            assert(import_links_spec(store@.links, ls.skip(i as int), now@)
                                == (store@.links, 0int, false));
                        }
                        return Err(other);
                    },
                }
            },
        }
    }
    proof {
        assert(ls.skip(n as int).len() == 0);
    }
    Ok((true, count))
}

/// Encodes one decision with its stored incident links as its interchange
/// record.
pub fn export_line(store: &Store, decision: &Decision) -> (r: Vec<u8>)
    ensures
        r@ == crate::codec::enc_spec(
            decision@,
            crate::codec::summaries_of(
                crate::links::sort_links_asc(
                    crate::links::incident(store@.links, decision@.id),
                ),
            ),
        ),
{
    let links = crate::links::get_for_decision(store, decision.id.as_str());
    crate::codec::encode(decision, &links)
}

} // verus!
