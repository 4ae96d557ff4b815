//! The decision repository: insert, lookup with labels, filtered listing,
//! substring search, and status updates, all over the in-memory store.
//! Listings are ordered by creation timestamp descending; a decision's
//! labels are always returned sorted.

use vstd::prelude::*;

use crate::error::DictumError;
use crate::model::{Decision, DecisionV, Kind, Level, Status, Weight};
use crate::store::{labels_for, Store, StoreV};
use crate::strutil::{str_contains, str_lt};

verus! {

use vstd::pervasive::VecAdditionalExecFns;

/// A conjunction of optional per-field conditions; an absent condition
/// matches everything.
#[derive(Debug)]
pub struct ListFilter {
    pub level: Option<Level>,
    pub status: Option<Status>,
    pub label: Option<String>,
    pub kind: Option<Kind>,
    pub weight: Option<Weight>,
    pub scope: Option<String>,
}

/// The mathematical content of a filter.
pub ghost struct ListFilterV {
    pub level: Option<Level>,
    pub status: Option<Status>,
    pub label: Option<Seq<char>>,
    pub kind: Option<Kind>,
    pub weight: Option<Weight>,
    pub scope: Option<Seq<char>>,
}

impl View for ListFilter {
    type V = ListFilterV;

    open spec fn view(&self) -> ListFilterV {
        ListFilterV {
            level: self.level,
            status: self.status,
            label: self.label.deep_view(),
            kind: self.kind,
            weight: self.weight,
            scope: self.scope.deep_view(),
        }
    }
}

/// The filter that matches every decision.
pub open spec fn empty_filter() -> ListFilterV {
    ListFilterV {
        level: None,
        status: None,
        label: None,
        kind: None,
        weight: None,
        scope: None,
    }
}

/// A decision as it sits in the store: scalar fields only, no labels.
pub open spec fn row_of(d: DecisionV) -> DecisionV {
    DecisionV { labels: Seq::empty(), ..d }
}

/// A stored decision with its labels attached, sorted.
pub open spec fn with_labels(sv: StoreV, d: DecisionV) -> DecisionV {
    DecisionV { labels: labels_for(sv, d.id), ..d }
}

/// Whether a stored decision satisfies every condition of the filter.
/// Scalar conditions are exact equality; the label condition asks that the
/// label is attached to the decision; an absent optional field never equals
/// a given scope.
pub open spec fn matches_filter(sv: StoreV, d: DecisionV, f: ListFilterV) -> bool {
    &&& match f.level {
        Some(l) => d.level == l,
        None => true,
    }
    &&& match f.status {
        Some(st) => d.status == st,
        None => true,
    }
    &&& match f.label {
        Some(lab) => sv.has_label(d.id, lab),
        None => true,
    }
    &&& match f.kind {
        Some(k) => d.kind == k,
        None => true,
    }
    &&& match f.weight {
        Some(w) => d.weight == w,
        None => true,
    }
    &&& match f.scope {
        Some(sc) => d.scope == Some(sc),
        None => true,
    }
}

/// The stored decisions satisfying the filter, in stored order, each with
/// its labels attached.
pub open spec fn filter_spec(sv: StoreV, ds: Seq<DecisionV>, f: ListFilterV) -> Seq<
    DecisionV,
>
    decreases ds.len(),
{
    if ds.len() == 0 {
        Seq::empty()
    } else {
        let rest = filter_spec(sv, ds.drop_last(), f);
        if matches_filter(sv, ds.last(), f) {
            rest + seq![with_labels(sv, ds.last())]
        } else {
            rest
        }
    }
}

/// Whether the search text occurs in the title, body, rebuttal or scope of
/// a decision (case-sensitive); absent optional fields never match.
pub open spec fn matches_text(d: DecisionV, q: Seq<char>) -> bool {
    ||| str_contains(d.title, q)
    ||| (d.body matches Some(b) && str_contains(b, q))
    ||| (d.rebuttal matches Some(b) && str_contains(b, q))
    ||| (d.scope matches Some(b) && str_contains(b, q))
}

/// The stored decisions whose text matches, in stored order, each with its
/// labels attached.
pub open spec fn search_spec(sv: StoreV, ds: Seq<DecisionV>, q: Seq<char>) -> Seq<DecisionV>
    decreases ds.len(),
{
    if ds.len() == 0 {
        Seq::empty()
    } else {
        let rest = search_spec(sv, ds.drop_last(), q);
        if matches_text(ds.last(), q) {
            rest + seq![with_labels(sv, ds.last())]
        } else {
            rest
        }
    }
}

/// Stable insertion of a decision into a run ordered by creation timestamp
/// descending: it goes in front of the first strictly older element.
pub open spec fn sorted_insert_desc(s: Seq<DecisionV>, d: DecisionV) -> Seq<DecisionV>
    decreases s.len(),
{
    if s.len() == 0 {
        seq![d]
    } else if str_lt(s[0].created_at, d.created_at) {
        seq![d] + s
    } else {
        seq![s[0]] + sorted_insert_desc(s.drop_first(), d)
    }
}

/// Stable insertion sort by creation timestamp descending.
pub open spec fn sort_desc(s: Seq<DecisionV>) -> Seq<DecisionV>
    decreases s.len(),
{
    if s.len() == 0 {
        Seq::empty()
    } else {
        sorted_insert_desc(sort_desc(s.drop_last()), s.last())
    }
}

/// What `list` returns: the matching decisions, labels attached, newest
/// first.
pub open spec fn list_spec(sv: StoreV, f: ListFilterV) -> Seq<DecisionV> {
    sort_desc(filter_spec(sv, sv.decisions, f))
}

/// What `search` returns: the matching decisions, labels attached, newest
/// first.
pub open spec fn search_result_spec(sv: StoreV, q: Seq<char>) -> Seq<DecisionV> {
    sort_desc(search_spec(sv, sv.decisions, q))
}

/// Where `sorted_insert_desc` puts the new decision.
proof fn lemma_sorted_insert_desc_at(s: Seq<DecisionV>, d: DecisionV, pos: int)
    requires
        0 <= pos <= s.len(),
        forall|j: int| 0 <= j < pos ==> !str_lt((#[trigger] s[j]).created_at, d.created_at),
        pos < s.len() ==> str_lt(s[pos].created_at, d.created_at),
    ensures
        sorted_insert_desc(s, d) == s.insert(pos, d),
    decreases s.len(),
{
    if s.len() == 0 {
        assert(sorted_insert_desc(s, d) =~= s.insert(0, d));
    } else if pos == 0 {
        assert(seq![d] + s =~= s.insert(0, d));
    } else {
        assert(!str_lt(s[0].created_at, d.created_at));
        lemma_sorted_insert_desc_at(s.drop_first(), d, pos - 1);
        assert(seq![s[0]] + s.drop_first().insert(pos - 1, d) =~= s.insert(pos, d));
    }
}

/// Inserts a decision into a newest-first run, keeping the order.
fn push_sorted_desc(out: &mut Vec<Decision>, d: Decision)
    ensures
        final(out).deep_view() == sorted_insert_desc(old(out).deep_view(), d@),
{
    let ghost dv = out.deep_view();
    let n = out.len();
    let mut pos: usize = 0;
    loop
        invariant_except_break
            pos <= n,
            n == out@.len(),
            *out == *old(out),
            dv == out.deep_view(),
            n == dv.len(),
            forall|j: int|
                0 <= j < pos ==> !str_lt((#[trigger] dv[j]).created_at, d@.created_at),
        ensures
            pos <= n,
            *out == *old(out),
            dv == out.deep_view(),
            n == dv.len(),
            forall|j: int|
                0 <= j < pos ==> !str_lt((#[trigger] dv[j]).created_at, d@.created_at),
            pos < n ==> str_lt(dv[pos as int].created_at, d@.created_at),
        decreases n - pos,
    {
        if pos == n {
            break;
        }
        proof {
            assert(dv[pos as int] == out@[pos as int]@);
        }
        if crate::strutil::str_less(out[pos].created_at.as_str(), d.created_at.as_str()) {
            break;
        }
        pos = pos + 1;
    }
    out.insert(pos, d);
    proof {
        lemma_sorted_insert_desc_at(dv, d@, pos as int);
        assert(out.deep_view() =~= dv.insert(pos as int, d@));
    }
}

/// Sorts decisions newest first; the input is consumed.
fn sort_desc_vec(v: Vec<Decision>) -> (r: Vec<Decision>)
    ensures
        r.deep_view() == sort_desc(v.deep_view()),
{
    let ghost dv = v.deep_view();
    let mut out: Vec<Decision> = Vec::new();
    let mut rest = v;
    let mut taken: usize = 0;
    proof {
        assert(dv.take(0) =~= Seq::<DecisionV>::empty());
        assert(out.deep_view() =~= sort_desc(dv.take(0)));
    }
    let n = rest.len();
    while taken < n
        invariant
            taken <= n,
            n == dv.len(),
            rest.deep_view() =~= dv,
            rest@.len() == n,
            out.deep_view() == sort_desc(dv.take(taken as int)),
        decreases n - taken,
    {
        let x = rest[taken].clone();
        proof {
            assert(x@ == dv[taken as int]);
        }
        push_sorted_desc(&mut out, x);
        proof {
            assert(dv.take(taken + 1).drop_last() =~= dv.take(taken as int));
            assert(dv.take(taken + 1).last() == dv[taken as int]);
        }
        taken = taken + 1;
    }
    proof {
        assert(dv.take(n as int) =~= dv);
    }
    out
}

/// Whether the given label is attached to the given decision.
fn has_label_exec(store: &Store, id: &str, label: &str) -> (r: bool)
    ensures
        r == store@.has_label(id@, label@),
{
    let n = store.labels.len();
    for i in 0..n
        invariant
            n == store@.labels.len(),
            forall|j: int|
                0 <= j < i ==> !((#[trigger] store@.labels[j]).decision_id == id@
                    && store@.labels[j].label == label@),
    {
        proof {
            assert(store@.labels[i as int] == store.labels@[i as int]@);
        }
        if crate::strutil::str_eq(store.labels[i].decision_id.as_str(), id)
            && crate::strutil::str_eq(store.labels[i].label.as_str(), label) {
            return true;
        }
    }
    false
}

/// Clones a stored decision and attaches its labels, sorted.
fn attach_labels(store: &Store, d: &Decision) -> (r: Decision)
    ensures
        r@ == with_labels(store@, d@),
{
    let labs = crate::labels::get_for_decision(store, d.id.as_str());
    let mut c = d.clone();
    c.labels = labs;
    c
}

/// Whether a stored decision satisfies every condition of the filter.
fn matches_filter_exec(store: &Store, d: &Decision, f: &ListFilter) -> (r: bool)
    ensures
        r == matches_filter(store@, d@, f@),
{
    let level_ok = match &f.level {
        Some(l) => *l == d.level,
        None => true,
    };
    let status_ok = match &f.status {
        Some(st) => *st == d.status,
        None => true,
    };
    let label_ok = match &f.label {
        Some(lab) => has_label_exec(store, d.id.as_str(), lab.as_str()),
        None => true,
    };
    let kind_ok = match &f.kind {
        Some(k) => *k == d.kind,
        None => true,
    };
    let weight_ok = match &f.weight {
        Some(w) => *w == d.weight,
        None => true,
    };
    let scope_ok = match (&f.scope, &d.scope) {
        (Some(want), Some(have)) => crate::strutil::str_eq(have.as_str(), want.as_str()),
        (Some(_), None) => false,
        (None, _) => true,
    };
    level_ok && status_ok && label_ok && kind_ok && weight_ok && scope_ok
}

/// Whether the search text occurs in one of the decision's text fields.
fn matches_text_exec(d: &Decision, q: &str) -> (r: bool)
    ensures
        r == matches_text(d@, q@),
{
    if crate::strutil::contains(d.title.as_str(), q) {
        return true;
    }
    if let Some(b) = &d.body {
        if crate::strutil::contains(b.as_str(), q) {
            return true;
        }
    }
    if let Some(b) = &d.rebuttal {
        if crate::strutil::contains(b.as_str(), q) {
            return true;
        }
    }
    if let Some(b) = &d.scope {
        if crate::strutil::contains(b.as_str(), q) {
            return true;
        }
    }
    false
}

/// Inserts a decision's scalar fields as a new row.  Fails with DuplicateId
/// when the id is already present; the caller persists labels separately.
pub fn insert(store: &mut Store, decision: &Decision) -> (r: Result<(), DictumError>)
    requires
        old(store)@.wf(),
    ensures
        final(store)@.wf(),
        final(store)@.links == old(store)@.links,
        final(store)@.labels == old(store)@.labels,
        match r {
            Ok(()) => !old(store)@.has_decision(decision@.id) && final(store)@.decisions
                == old(store)@.decisions.push(row_of(decision@)),
            Err(e) => e == DictumError::DuplicateId && old(store)@.has_decision(
                decision@.id,
            ) && final(store)@ == old(store)@,
        },
{
    let n = store.decisions.len();
    for i in 0..n
        invariant
            n == store@.decisions.len(),
            *store == *old(store),
            old(store)@.wf(),
            forall|j: int|
                0 <= j < i ==> (#[trigger] store@.decisions[j]).id != decision@.id,
    {
        proof {
            assert(store@.decisions[i as int] == store.decisions@[i as int]@);
        }
        if crate::strutil::str_eq(store.decisions[i].id.as_str(), decision.id.as_str()) {
            return Err(DictumError::DuplicateId);
        }
    }
    let mut row = decision.clone();
    row.labels = Vec::new();
    proof {
        assert(row.labels.deep_view() =~= Seq::<Seq<char>>::empty());
        assert(row@ == row_of(decision@));
    }
    store.decisions.push(row);
    proof {
        assert(store.decisions.deep_view() =~= old(store).decisions.deep_view().push(
            row_of(decision@),
        ));
        let fv = store@;
        let ov = old(store)@;
        assert(fv.links == ov.links);
        assert(fv.labels == ov.labels);
        assert forall|i: int, j: int|
            #![trigger fv.decisions[i], fv.decisions[j]]
            0 <= i < j < fv.decisions.len() implies fv.decisions[i].id != fv.decisions[j].id by {
            assert(fv.decisions[i] == ov.decisions[i]);
            if j < fv.decisions.len() - 1 {
                assert(fv.decisions[j] == ov.decisions[j]);
            }
        }
    }
    Ok(())
}

/// Looks a decision up by id and returns it with its labels attached,
/// sorted.  Fails with DecisionNotFound when the id is absent.
pub fn get(store: &Store, id: &str) -> (r: Result<Decision, DictumError>)
    requires
        store@.wf(),
    ensures
        match r {
            Ok(d) => store@.has_decision(id@) && d@ == with_labels(
                store@,
                store@.decisions[store@.decision_index(id@)],
            ),
            Err(e) => !store@.has_decision(id@) && (e
                matches DictumError::DecisionNotFound(t) && t@ == id@),
        },
{
    let n = store.decisions.len();
    for i in 0..n
        invariant
            n == store@.decisions.len(),
            store@.wf(),
            forall|j: int| 0 <= j < i ==> (#[trigger] store@.decisions[j]).id != id@,
    {
        proof {
            assert(store@.decisions[i as int] == store.decisions@[i as int]@);
        }
        if crate::strutil::str_eq(store.decisions[i].id.as_str(), id) {
            proof {
                let ci = store@.decision_index(id@);
                assert(store@.has_decision(id@));
                assert(0 <= ci < store@.decisions.len() && store@.decisions[ci].id == id@);
                if ci != i as int {
                    if ci < i as int {
                        assert(store@.decisions[ci].id != store@.decisions[i as int].id);
                    } else {
                        assert(store@.decisions[i as int].id != store@.decisions[ci].id);
                    }
                }
            }
            return Ok(attach_labels(store, &store.decisions[i]));
        }
    }
    Err(DictumError::DecisionNotFound(id.to_owned()))
}

/// Lists the decisions matching the filter, labels attached, ordered by
/// creation timestamp descending (ties keep stored order).
pub fn list(store: &Store, filter: &ListFilter) -> (r: Vec<Decision>)
    ensures
        r.deep_view() == list_spec(store@, filter@),
{
    let mut picked: Vec<Decision> = Vec::new();
    let n = store.decisions.len();
    proof {
        assert(store@.decisions.take(0) =~= Seq::<DecisionV>::empty());
        assert(picked.deep_view() =~= filter_spec(store@, store@.decisions.take(0), filter@));
    }
    for i in 0..n
        invariant
            n == store@.decisions.len(),
            picked.deep_view() == filter_spec(store@, store@.decisions.take(i as int), filter@),
    {
        proof {
            assert(store@.decisions[i as int] == store.decisions@[i as int]@);
            assert(store@.decisions.take(i + 1).drop_last() =~= store@.decisions.take(
                i as int,
            ));
            assert(store@.decisions.take(i + 1).last() == store@.decisions[i as int]);
        }
        if matches_filter_exec(store, &store.decisions[i], filter) {
            let with = attach_labels(store, &store.decisions[i]);
            picked.push(with);
            proof {
                assert(picked.deep_view() =~= filter_spec(
                    store@,
                    store@.decisions.take(i + 1),
                    filter@,
                ));
            }
        }
    }
    proof {
        assert(store@.decisions.take(n as int) =~= store@.decisions);
    }
    sort_desc_vec(picked)
}

/// Searches title, body, rebuttal and scope for the text (case-sensitive),
/// labels attached, ordered newest first.
pub fn search(store: &Store, query: &str) -> (r: Vec<Decision>)
    ensures
        r.deep_view() == search_result_spec(store@, query@),
{
    let mut picked: Vec<Decision> = Vec::new();
    let n = store.decisions.len();
    proof {
        assert(store@.decisions.take(0) =~= Seq::<DecisionV>::empty());
        assert(picked.deep_view() =~= search_spec(store@, store@.decisions.take(0), query@));
    }
    for i in 0..n
        invariant
            n == store@.decisions.len(),
            picked.deep_view() == search_spec(store@, store@.decisions.take(i as int), query@),
    {
        proof {
            assert(store@.decisions[i as int] == store.decisions@[i as int]@);
            assert(store@.decisions.take(i + 1).drop_last() =~= store@.decisions.take(
                i as int,
            ));
            assert(store@.decisions.take(i + 1).last() == store@.decisions[i as int]);
        }
        if matches_text_exec(&store.decisions[i], query) {
            let with = attach_labels(store, &store.decisions[i]);
            picked.push(with);
            proof {
                assert(picked.deep_view() =~= search_spec(
                    store@,
                    store@.decisions.take(i + 1),
                    query@,
                ));
            }
        }
    }
    proof {
        assert(store@.decisions.take(n as int) =~= store@.decisions);
    }
    sort_desc_vec(picked)
}

/// Lists every decision, labels attached, newest first.
pub fn get_all(store: &Store) -> (r: Vec<Decision>)
    ensures
        r.deep_view() == list_spec(store@, empty_filter()),
{
    let filter = ListFilter {
        level: None,
        status: None,
        label: None,
        kind: None,
        weight: None,
        scope: None,
    };
    list(store, &filter)
}

/// The row as it stands after a status update.
pub open spec fn status_updated(
    d: DecisionV,
    status: Status,
    superseded_by: Option<Seq<char>>,
    now: Seq<char>,
) -> DecisionV {
    DecisionV { status: status, superseded_by: superseded_by, updated_at: now, ..d }
}

/// Sets a decision's status and supersession pointer and bumps its update
/// timestamp to `now`.  Fails with DecisionNotFound when the id is absent.
pub fn update_status(
    store: &mut Store,
    id: &str,
    status: Status,
    superseded_by: Option<&str>,
    now: &str,
) -> (r: Result<(), DictumError>)
    requires
        old(store)@.wf(),
    ensures
        final(store)@.wf(),
        final(store)@.links == old(store)@.links,
        final(store)@.labels == old(store)@.labels,
        match r {
            Ok(()) => old(store)@.has_decision(id@) && final(store)@.decisions == old(
                store,
            )@.decisions.update(
                old(store)@.decision_index(id@),
                status_updated(
                    old(store)@.decisions[old(store)@.decision_index(id@)],
                    status,
                    superseded_by.deep_view(),
                    now@,
                ),
            ),
            Err(e) => !old(store)@.has_decision(id@) && (e
                matches DictumError::DecisionNotFound(t) && t@ == id@) && final(store)@
                == old(store)@,
        },
{
    let n = store.decisions.len();
    for i in 0..n
        invariant
            n == store@.decisions.len(),
            *store == *old(store),
            old(store)@.wf(),
            forall|j: int| 0 <= j < i ==> (#[trigger] store@.decisions[j]).id != id@,
    {
        proof {
            assert(store@.decisions[i as int] == store.decisions@[i as int]@);
        }
        if crate::strutil::str_eq(store.decisions[i].id.as_str(), id) {
            proof {
                let ci = old(store)@.decision_index(id@);
                assert(old(store)@.has_decision(id@));
                assert(0 <= ci < store@.decisions.len() && store@.decisions[ci].id == id@);
                if ci != i as int {
                    if ci < i as int {
                        assert(store@.decisions[ci].id != store@.decisions[i as int].id);
                    } else {
                        assert(store@.decisions[i as int].id != store@.decisions[ci].id);
                    }
                }
            }
            let mut row = store.decisions[i].clone();
            row.status = status;
            row.superseded_by = match superseded_by {
                Some(s) => Some(s.to_owned()),
                None => None,
            };
            row.updated_at = now.to_owned();
            proof {
                assert(row@ == status_updated(
                    old(store)@.decisions[i as int],
                    status,
                    superseded_by.deep_view(),
                    now@,
                ));
            }
            store.decisions.set(i, row);
            proof {
                assert(store.decisions.deep_view() =~= old(store).decisions.deep_view().update(
                    i as int,
                    row@,
                ));
                let fv = store@;
                let ov = old(store)@;
                assert(fv.links == ov.links);
                assert(fv.labels == ov.labels);
                assert forall|p: int, q: int|
                    #![trigger fv.decisions[p], fv.decisions[q]]
                    0 <= p < q < fv.decisions.len() implies fv.decisions[p].id
                    != fv.decisions[q].id by {
                    assert(ov.decisions[p].id != ov.decisions[q].id);
                    assert(fv.decisions[p].id == ov.decisions[p].id);
                    assert(fv.decisions[q].id == ov.decisions[q].id);
                }
            }
            return Ok(());
        }
    }
    Err(DictumError::DecisionNotFound(id.to_owned()))
}

} // verus!
