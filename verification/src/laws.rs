//! The library's cross-operation laws, stated over the same spec functions
//! the operations' contracts use: supersession, link uniqueness, the
//! insert/get round trip, and the filter conjunction of listings.

use vstd::prelude::*;

use crate::decisions::{
    empty_filter, filter_spec, list_spec, matches_filter, row_of, sort_desc,
    sorted_insert_desc, status_updated, with_labels, ListFilterV,
};
use crate::model::{DecisionV, LinkKind, LinkV, Status};
use crate::ops::supersedes_link;
use crate::store::{labels_for, LabelRowV, StoreV};
use crate::strutil::str_lt;

verus! {

/// Law: amending retires the old decision in place.  Against a store that
/// holds the old id and not the new one, the amendment's store change —
/// push the new row, record the supersedes link, update the old row —
/// leaves exactly one more decision, flips the old decision to superseded
/// with its pointer on the new id, and records the supersedes link; the new
/// decision's row is stored as given.  This is the post-state `amend`'s
/// contract promises.
pub proof fn lemma_supersession(sv: StoreV, d: DecisionV, old_id: Seq<char>, now: Seq<char>)
    requires
        sv.wf(),
        sv.has_decision(old_id),
        !sv.has_decision(d.id),
    ensures
        ({
            let oi = sv.decision_index(old_id);
            let pushed = sv.decisions.push(row_of(d));
            let after = pushed.update(
                oi,
                status_updated(pushed[oi], Status::Superseded, Some(d.id), now),
            );
            let sv1 = StoreV {
                decisions: after,
                links: sv.links.push(supersedes_link(d.id, old_id, now)),
                labels: sv.labels,
            };
            &&& 0 <= oi < sv.decisions.len()
            &&& after.len() == sv.decisions.len() + 1
            &&& after[oi].id == old_id
            &&& after[oi].status == Status::Superseded
            &&& after[oi].superseded_by == Some(d.id)
            &&& sv1.has_link(d.id, old_id, LinkKind::Supersedes)
            &&& after[after.len() - 1] == row_of(d)
        }),
{
    let oi = sv.decision_index(old_id);
    assert(0 <= oi < sv.decisions.len() && sv.decisions[oi].id == old_id);
    let pushed = sv.decisions.push(row_of(d));
    assert(pushed[oi] == sv.decisions[oi]);
    let sv1 = StoreV {
        decisions: pushed.update(
            oi,
            status_updated(pushed[oi], Status::Superseded, Some(d.id), now),
        ),
        links: sv.links.push(supersedes_link(d.id, old_id, now)),
        labels: sv.labels,
    };
    assert(sv1.links[sv1.links.len() - 1] == supersedes_link(d.id, old_id, now));
    assert(sv1.has_link(d.id, old_id, LinkKind::Supersedes));
    assert(sv1.decisions[sv1.decisions.len() - 1] == pushed[pushed.len() - 1]);
}

/// Law: the (source, target, kind) triple keys the link set.  After a link
/// is stored, its exact triple is present, so a second insert of the same
/// triple fails with LinkAlreadyExists by `links::insert`'s contract; a
/// triple differing only in kind stays absent, so inserting it still
/// succeeds.
pub proof fn lemma_link_uniqueness(sv: StoreV, l: LinkV, k2: LinkKind)
    ensures
        ({
            let sv1 = StoreV { links: sv.links.push(l), ..sv };
            &&& sv1.has_link(l.source_id, l.target_id, l.kind)
            &&& (k2 != l.kind && !sv.has_link(l.source_id, l.target_id, k2))
                ==> !sv1.has_link(l.source_id, l.target_id, k2)
        }),
{
    let sv1 = StoreV { links: sv.links.push(l), ..sv };
    assert(sv1.links[sv1.links.len() - 1] == l);
    assert(sv1.has_link(l.source_id, l.target_id, l.kind));
    if k2 != l.kind && !sv.has_link(l.source_id, l.target_id, k2) {
        if sv1.has_link(l.source_id, l.target_id, k2) {
            let w = choose|i: int|
                0 <= i < sv1.links.len() && (#[trigger] sv1.links[i]).source_id
                    == l.source_id && sv1.links[i].target_id == l.target_id
                    && sv1.links[i].kind == k2;
            if w < sv.links.len() {
                assert(sv.links[w] == sv1.links[w]);
            }
            assert(false);
        }
    }
}

/// A decision with its labels attached satisfies the filter exactly when
/// the bare row does: the filter reads no field that attaching changes.
proof fn lemma_attach_keeps_match(sv: StoreV, d: DecisionV, f: ListFilterV)
    ensures
        matches_filter(sv, with_labels(sv, d), f) == matches_filter(sv, d, f),
{
}

/// Every element of the filtered run satisfies the filter, and every
/// matching stored decision is in it, with its labels attached.
proof fn lemma_filter_spec_sound(sv: StoreV, ds: Seq<DecisionV>, f: ListFilterV)
    ensures
        forall|k: int|
            0 <= k < filter_spec(sv, ds, f).len() ==> matches_filter(
                sv,
                #[trigger] filter_spec(sv, ds, f)[k],
                f,
            ),
        forall|i: int|
            0 <= i < ds.len() && matches_filter(sv, #[trigger] ds[i], f) ==> filter_spec(
                sv,
                ds,
                f,
            ).contains(with_labels(sv, ds[i])),
    decreases ds.len(),
{
    if ds.len() == 0 {
    } else {
        lemma_filter_spec_sound(sv, ds.drop_last(), f);
        let rest = filter_spec(sv, ds.drop_last(), f);
        let whole = filter_spec(sv, ds, f);
        assert forall|k: int|
            0 <= k < whole.len() implies matches_filter(sv, #[trigger] whole[k], f) by {
            if k < rest.len() {
                assert(whole[k] == rest[k]);
            } else {
                assert(whole[k] == with_labels(sv, ds.last()));
                lemma_attach_keeps_match(sv, ds.last(), f);
            }
        }
        assert forall|i: int|
            0 <= i < ds.len() && matches_filter(sv, #[trigger] ds[i], f) implies whole.contains(
            with_labels(sv, ds[i]),
        ) by {
            if i < ds.len() - 1 {
                assert(ds.drop_last()[i] == ds[i]);
                let w = choose|k: int| 0 <= k < rest.len() && rest[k] == with_labels(sv, ds[i]);
                assert(whole[w] == with_labels(sv, ds[i]));
            } else {
                lemma_attach_keeps_match(sv, ds.last(), f);
                assert(whole[whole.len() - 1] == with_labels(sv, ds[i]));
            }
        }
    }
}

/// Sorted insertion keeps every element and adds the new one.
proof fn lemma_sorted_insert_desc_contains(s: Seq<DecisionV>, d: DecisionV, x: DecisionV)
    ensures
        sorted_insert_desc(s, d).len() == s.len() + 1,
        sorted_insert_desc(s, d).contains(d),
        s.contains(x) ==> sorted_insert_desc(s, d).contains(x),
    decreases s.len(),
{
    let out = sorted_insert_desc(s, d);
    if s.len() == 0 {
        assert(out[0] == d);
    } else if str_lt(s[0].created_at, d.created_at) {
        assert(out[0] == d);
        if s.contains(x) {
            let w = choose|i: int| 0 <= i < s.len() && s[i] == x;
            assert(out[w + 1] == x);
        }
    } else {
        lemma_sorted_insert_desc_contains(s.drop_first(), d, x);
        let sub = sorted_insert_desc(s.drop_first(), d);
        assert(out[0] == s[0]);
        assert forall|i: int| 0 <= i < sub.len() implies out[i + 1] == sub[i] by {}
        let wd = choose|i: int| 0 <= i < sub.len() && sub[i] == d;
        assert(out[wd + 1] == d);
        if s.contains(x) {
            let w = choose|i: int| 0 <= i < s.len() && s[i] == x;
            if w == 0 {
                assert(out[0] == x);
            } else {
                assert(s.drop_first()[w - 1] == x);
                let w2 = choose|i: int| 0 <= i < sub.len() && sub[i] == x;
                assert(out[w2 + 1] == x);
            }
        }
    }
}

/// Sorting keeps every element and the length.
proof fn lemma_sort_desc_contains(s: Seq<DecisionV>, x: DecisionV)
    ensures
        sort_desc(s).len() == s.len(),
        s.contains(x) ==> sort_desc(s).contains(x),
    decreases s.len(),
{
    if s.len() == 0 {
    } else {
        lemma_sort_desc_contains(s.drop_last(), x);
        lemma_sorted_insert_desc_contains(sort_desc(s.drop_last()), s.last(), x);
        if s.contains(x) {
            let w = choose|i: int| 0 <= i < s.len() && s[i] == x;
            if w == s.len() - 1 {
            } else {
                assert(s.drop_last()[w] == x);
                assert(sort_desc(s.drop_last()).contains(x));
            }
        }
    }
}

/// Every element of the sorted run comes from the input.
proof fn lemma_sorted_insert_desc_source(s: Seq<DecisionV>, d: DecisionV, k: int)
    requires
        0 <= k < sorted_insert_desc(s, d).len(),
    ensures
        sorted_insert_desc(s, d)[k] == d || s.contains(sorted_insert_desc(s, d)[k]),
    decreases s.len(),
{
    let out = sorted_insert_desc(s, d);
    if s.len() == 0 {
    } else if str_lt(s[0].created_at, d.created_at) {
        if k > 0 {
            assert(out[k] == s[k - 1]);
        }
    } else {
        if k == 0 {
            assert(out[0] == s[0]);
        } else {
            let sub = sorted_insert_desc(s.drop_first(), d);
            assert(out[k] == sub[k - 1]);
            lemma_sorted_insert_desc_source(s.drop_first(), d, k - 1);
            if s.drop_first().contains(sub[k - 1]) {
                let w = choose|i: int|
                    0 <= i < s.drop_first().len() && s.drop_first()[i] == sub[k - 1];
                assert(s[w + 1] == sub[k - 1]);
            }
        }
    }
}

/// Membership survives sorting backwards: whatever sorts in was there.
proof fn lemma_sort_desc_members(s: Seq<DecisionV>, x: DecisionV)
    requires
        sort_desc(s).contains(x),
    ensures
        s.contains(x),
    decreases s.len(),
{
    if s.len() == 0 {
    } else {
        let k = choose|i: int| 0 <= i < sort_desc(s).len() && sort_desc(s)[i] == x;
        lemma_sorted_insert_desc_source(sort_desc(s.drop_last()), s.last(), k);
        if x == s.last() {
            assert(s[s.len() - 1] == x);
        } else {
            lemma_sort_desc_members(s.drop_last(), x);
            let w = choose|i: int| 0 <= i < s.drop_last().len() && s.drop_last()[i] == x;
            assert(s[w] == x);
        }
    }
}

/// Every element of the fully sorted run comes from the input.
proof fn lemma_sort_desc_source(s: Seq<DecisionV>, k: int)
    requires
        0 <= k < sort_desc(s).len(),
    ensures
        s.contains(sort_desc(s)[k]),
{
    assert(sort_desc(s).contains(sort_desc(s)[k]));
    lemma_sort_desc_members(s, sort_desc(s)[k]);
}

/// Law: `list` is the conjunction of its filter conditions.  Every listed
/// decision satisfies every given condition; every stored decision that
/// satisfies them is listed, with its labels attached; and with no
/// conditions at all, every stored decision is listed.
pub proof fn lemma_list_conjunction(sv: StoreV, f: ListFilterV)
    ensures
        forall|k: int|
            0 <= k < list_spec(sv, f).len() ==> matches_filter(
                sv,
                #[trigger] list_spec(sv, f)[k],
                f,
            ),
        forall|i: int|
            0 <= i < sv.decisions.len() && matches_filter(sv, #[trigger] sv.decisions[i], f)
                ==> list_spec(sv, f).contains(with_labels(sv, sv.decisions[i])),
        f == empty_filter() ==> list_spec(sv, f).len() == sv.decisions.len(),
{
    let picked = filter_spec(sv, sv.decisions, f);
    lemma_filter_spec_sound(sv, sv.decisions, f);
    assert forall|k: int|
        0 <= k < list_spec(sv, f).len() implies matches_filter(
        sv,
        #[trigger] list_spec(sv, f)[k],
        f,
    ) by {
        lemma_sort_desc_source(picked, k);
        let x = list_spec(sv, f)[k];
        let w = choose|i: int| 0 <= i < picked.len() && picked[i] == x;
    }
    assert forall|i: int|
        0 <= i < sv.decisions.len() && matches_filter(sv, #[trigger] sv.decisions[i], f)
            implies list_spec(sv, f).contains(with_labels(sv, sv.decisions[i])) by {
        lemma_sort_desc_contains(picked, with_labels(sv, sv.decisions[i]));
    }
    if f == empty_filter() {
        lemma_filter_all(sv, sv.decisions, f);
        lemma_sort_desc_contains(picked, with_labels(sv, sv.decisions[0]));
    }
}

/// With the empty filter, filtering keeps every decision.
proof fn lemma_filter_all(sv: StoreV, ds: Seq<DecisionV>, f: ListFilterV)
    requires
        f == empty_filter(),
    ensures
        filter_spec(sv, ds, f).len() == ds.len(),
    decreases ds.len(),
{
    if ds.len() == 0 {
    } else {
        lemma_filter_all(sv, ds.drop_last(), f);
    }
}

/// Law: the newest-first order of listings.  Adjacent listed decisions
/// never get newer: the later one's creation timestamp is not
/// lexicographically above the earlier one's.
pub proof fn lemma_list_sorted(sv: StoreV, f: ListFilterV)
    ensures
        forall|k: int|
            0 <= k < list_spec(sv, f).len() - 1 ==> !str_lt(
                (#[trigger] list_spec(sv, f)[k]).created_at,
                list_spec(sv, f)[k + 1].created_at,
            ),
{
    lemma_sort_desc_sorted(filter_spec(sv, sv.decisions, f));
}

/// Whether a run is ordered newest first.
pub open spec fn sorted_desc(s: Seq<DecisionV>) -> bool {
    forall|k: int|
        0 <= k < s.len() - 1 ==> !str_lt((#[trigger] s[k]).created_at, s[k + 1].created_at)
}

/// Strict byte order is asymmetric.
proof fn lemma_bytes_lt_asym(a: Seq<u8>, b: Seq<u8>)
    requires
        crate::strutil::bytes_lt(a, b),
    ensures
        !crate::strutil::bytes_lt(b, a),
    decreases a.len(),
{
    if b.len() == 0 {
    } else if a.len() == 0 {
    } else if a[0] < b[0] {
    } else if a[0] > b[0] {
    } else {
        lemma_bytes_lt_asym(a.drop_first(), b.drop_first());
    }
}

/// Strict text order is asymmetric.
proof fn lemma_str_lt_asym(a: Seq<char>, b: Seq<char>)
    requires
        str_lt(a, b),
    ensures
        !str_lt(b, a),
{
    lemma_bytes_lt_asym(
        vstd::utf8::encode_utf8(a),
        vstd::utf8::encode_utf8(b),
    );
}

/// Inserting into a newest-first run keeps it newest first.
#[verifier::rlimit(100)]
#[verifier::spinoff_prover]
proof fn lemma_sorted_insert_desc_sorted(s: Seq<DecisionV>, d: DecisionV)
    requires
        sorted_desc(s),
    ensures
        sorted_desc(sorted_insert_desc(s, d)),
    decreases s.len(),
{
    let out = sorted_insert_desc(s, d);
    if s.len() == 0 {
    } else if str_lt(s[0].created_at, d.created_at) {
        assert forall|k: int|
            0 <= k < out.len() - 1 implies !str_lt(
            (#[trigger] out[k]).created_at,
            out[k + 1].created_at,
        ) by {
            if k == 0 {
                assert(out[0] == d && out[1] == s[0]);
                lemma_str_lt_asym(s[0].created_at, d.created_at);
            } else {
                assert(out[k] == s[k - 1] && out[k + 1] == s[k]);
            }
        }
    } else {
        assert(sorted_desc(s.drop_first())) by {
            assert forall|k: int|
                0 <= k < s.drop_first().len() - 1 implies !str_lt(
                (#[trigger] s.drop_first()[k]).created_at,
                s.drop_first()[k + 1].created_at,
            ) by {
                assert(s.drop_first()[k] == s[k + 1]);
                assert(s.drop_first()[k + 1] == s[k + 2]);
            }
        }
        lemma_sorted_insert_desc_sorted(s.drop_first(), d);
        let sub = sorted_insert_desc(s.drop_first(), d);
        assert forall|k: int|
            0 <= k < out.len() - 1 implies !str_lt(
            (#[trigger] out[k]).created_at,
            out[k + 1].created_at,
        ) by {
            if k == 0 {
                assert(out[0] == s[0]);
                assert(out[1] == sub[0]);
                if s.drop_first().len() == 0 {
                    assert(sub[0] == d);
                    assert(!str_lt(s[0].created_at, d.created_at));
                } else if str_lt(s.drop_first()[0].created_at, d.created_at) {
                    assert(sub[0] == d);
                    assert(!str_lt(s[0].created_at, d.created_at));
                } else {
                    assert(sub[0] == s.drop_first()[0]);
                    assert(s.drop_first()[0] == s[1]);
                    assert(!str_lt(s[0].created_at, s[1].created_at));
                }
            } else {
                assert(out[k] == sub[k - 1]);
                assert(out[k + 1] == sub[k]);
            }
        }
    }
}

/// Sorting yields a newest-first run.
proof fn lemma_sort_desc_sorted(s: Seq<DecisionV>)
    ensures
        sorted_desc(sort_desc(s)),
    decreases s.len(),
{
    if s.len() == 0 {
    } else {
        lemma_sort_desc_sorted(s.drop_last());
        lemma_sorted_insert_desc_sorted(sort_desc(s.drop_last()), s.last());
    }
}

/// Law: inserting a decision and attaching its labels, then reading it
/// back, returns it field for field.  The decision's labels must be
/// lexicographically sorted with no repeats (the shape reads always
/// return), its id fresh, and no stray label rows may reference the fresh
/// id (a store with referential integrity has none).
pub proof fn lemma_insert_get_round_trip(sv: StoreV, d: DecisionV)
    requires
        sv.wf(),
        !sv.has_decision(d.id),
        forall|i: int|
            0 <= i < sv.labels.len() ==> (#[trigger] sv.labels[i]).decision_id != d.id,
        forall|i: int, j: int|
            #![trigger d.labels[i], d.labels[j]]
            0 <= i < j < d.labels.len() ==> !str_lt(d.labels[j], d.labels[i])
                && d.labels[i] != d.labels[j],
    ensures
        ({
            let sv1 = StoreV {
                decisions: sv.decisions.push(row_of(d)),
                links: sv.links,
                labels: crate::ops::add_label_rows(sv.labels, d.id, d.labels),
            };
            &&& sv1.has_decision(d.id)
            &&& with_labels(sv1, sv1.decisions[sv1.decision_index(d.id)]) == d
        }),
{
    let sv1 = StoreV {
        decisions: sv.decisions.push(row_of(d)),
        links: sv.links,
        labels: crate::ops::add_label_rows(sv.labels, d.id, d.labels),
    };
    let n = sv.decisions.len() as int;
    assert(sv1.decisions[n].id == d.id);
    assert(sv1.has_decision(d.id));
    let ci = sv1.decision_index(d.id);
    assert(0 <= ci < sv1.decisions.len() && sv1.decisions[ci].id == d.id);
    if ci != n {
        assert(sv1.decisions[ci] == sv.decisions[ci]);
        assert(sv.has_decision(d.id));
    }
    lemma_added_rows(sv.labels, d.id, d.labels);
    assert(crate::store::labels_matching(sv1.labels, d.id) == d.labels);
    lemma_sort_fixes_sorted(d.labels);
    assert(labels_for(sv1, d.id) == d.labels);
    assert(with_labels(sv1, sv1.decisions[ci]) == d);
}

/// Attaching fresh labels in order stores exactly those labels, in order.
proof fn lemma_added_rows(rows: Seq<LabelRowV>, id: Seq<char>, ls: Seq<Seq<char>>)
    requires
        forall|i: int| 0 <= i < rows.len() ==> (#[trigger] rows[i]).decision_id != id,
        forall|i: int, j: int|
            #![trigger ls[i], ls[j]]
            0 <= i < j < ls.len() ==> ls[i] != ls[j],
    ensures
        crate::store::labels_matching(crate::ops::add_label_rows(rows, id, ls), id) == ls,
        forall|l: Seq<char>|
            #[trigger] crate::ops::label_in(crate::ops::add_label_rows(rows, id, ls), id, l)
                == ls.contains(l),
    decreases ls.len(),
{
    if ls.len() == 0 {
        lemma_no_rows_no_labels(rows, id);
        assert forall|l: Seq<char>|
            #[trigger] crate::ops::label_in(
                crate::ops::add_label_rows(rows, id, ls),
                id,
                l,
            ) == ls.contains(l) by {
            if crate::ops::label_in(rows, id, l) {
                let w = choose|i: int|
                    0 <= i < rows.len() && (#[trigger] rows[i]).decision_id == id
                        && rows[i].label == l;
            }
        }
    } else {
        let ls0 = ls.drop_last();
        assert(forall|i: int, j: int|
            #![trigger ls0[i], ls0[j]]
            0 <= i < j < ls0.len() ==> ls0[i] != ls0[j]) by {
            assert forall|i: int, j: int|
                #![trigger ls0[i], ls0[j]]
                0 <= i < j < ls0.len() implies ls0[i] != ls0[j] by {
                assert(ls0[i] == ls[i] && ls0[j] == ls[j]);
            }
        }
        lemma_added_rows(rows, id, ls0);
        let acc = crate::ops::add_label_rows(rows, id, ls0);
        let x = ls.last();
        assert(!ls0.contains(x)) by {
            if ls0.contains(x) {
                let w = choose|i: int| 0 <= i < ls0.len() && ls0[i] == x;
                assert(ls[w] == x && ls[ls.len() - 1] == x);
            }
        }
        assert(!crate::ops::label_in(acc, id, x));
        let row = LabelRowV { decision_id: id, label: x };
        assert(crate::ops::add_label_rows(rows, id, ls) == acc.push(row));
        assert(crate::store::labels_matching(acc.push(row), id) =~= crate::store::labels_matching(
            acc,
            id,
        ) + seq![x]) by {
            assert(acc.push(row).drop_last() =~= acc);
            assert(acc.push(row).last() == row);
        }
        assert(crate::store::labels_matching(acc, id) + seq![x] =~= ls);
        assert forall|l: Seq<char>|
            #[trigger] crate::ops::label_in(acc.push(row), id, l) == ls.contains(l) by {
            if crate::ops::label_in(acc.push(row), id, l) {
                let w = choose|i: int|
                    0 <= i < acc.push(row).len() && (#[trigger] acc.push(row)[i]).decision_id
                        == id && acc.push(row)[i].label == l;
                if w < acc.len() {
                    assert(acc.push(row)[w] == acc[w]);
                    assert(crate::ops::label_in(acc, id, l));
                    assert(ls0.contains(l));
                    let v = choose|i: int| 0 <= i < ls0.len() && ls0[i] == l;
                    assert(ls[v] == l);
                } else {
                    assert(ls[ls.len() - 1] == l);
                }
            }
            if ls.contains(l) {
                let v = choose|i: int| 0 <= i < ls.len() && ls[i] == l;
                if v < ls.len() - 1 {
                    assert(ls0[v] == l);
                    assert(crate::ops::label_in(acc, id, l));
                    let w = choose|i: int|
                        0 <= i < acc.len() && (#[trigger] acc[i]).decision_id == id
                            && acc[i].label == l;
                    assert(acc.push(row)[w] == acc[w]);
                } else {
                    assert(acc.push(row)[acc.len() as int] == row);
                }
            }
        }
    }
}

/// A label run with no rows for an id yields it no labels.
proof fn lemma_no_rows_no_labels(rows: Seq<LabelRowV>, id: Seq<char>)
    requires
        forall|i: int| 0 <= i < rows.len() ==> (#[trigger] rows[i]).decision_id != id,
    ensures
        crate::store::labels_matching(rows, id) == Seq::<Seq<char>>::empty(),
    decreases rows.len(),
{
    if rows.len() == 0 {
    } else {
        assert forall|i: int|
            0 <= i < rows.drop_last().len() implies (#[trigger] rows.drop_last()[i]).decision_id
            != id by {
            assert(rows.drop_last()[i] == rows[i]);
        }
        lemma_no_rows_no_labels(rows.drop_last(), id);
    }
}

/// A sorted, repeat-free run is a fixed point of the label sort.
proof fn lemma_sort_fixes_sorted(ls: Seq<Seq<char>>)
    requires
        forall|i: int, j: int|
            #![trigger ls[i], ls[j]]
            0 <= i < j < ls.len() ==> !str_lt(ls[j], ls[i]),
    ensures
        crate::store::sort_texts(ls) == ls,
    decreases ls.len(),
{
    if ls.len() == 0 {
        assert(crate::store::sort_texts(ls) =~= ls);
    } else {
        let ls0 = ls.drop_last();
        assert forall|i: int, j: int|
            #![trigger ls0[i], ls0[j]]
            0 <= i < j < ls0.len() implies !str_lt(ls0[j], ls0[i]) by {
            assert(ls0[i] == ls[i] && ls0[j] == ls[j]);
        }
        lemma_sort_fixes_sorted(ls0);
        lemma_insert_at_end(ls0, ls.last());
        assert(ls0.push(ls.last()) =~= ls);
    }
}

/// A text not below any element inserts at the end.
proof fn lemma_insert_at_end(s: Seq<Seq<char>>, x: Seq<char>)
    requires
        forall|i: int| 0 <= i < s.len() ==> !str_lt(x, #[trigger] s[i]),
    ensures
        crate::store::sorted_insert_text(s, x) == s.push(x),
    decreases s.len(),
{
    if s.len() == 0 {
        assert(crate::store::sorted_insert_text(s, x) =~= s.push(x));
    } else {
        assert(!str_lt(x, s[0]));
        assert forall|i: int|
            0 <= i < s.drop_first().len() implies !str_lt(x, #[trigger] s.drop_first()[i]) by {
            assert(s.drop_first()[i] == s[i + 1]);
        }
        lemma_insert_at_end(s.drop_first(), x);
        assert(seq![s[0]] + s.drop_first().push(x) =~= s.push(x));
    }
}

} // verus!
