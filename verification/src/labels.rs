//! The label repository: multi-valued free-text tags attached to decisions.
//! A (decision id, label) pair is stored at most once; reading a decision's
//! labels returns them sorted lexicographically.

use vstd::prelude::*;

use crate::store::{labels_for, labels_matching, LabelRow, LabelRowV, Store};

verus! {

/// Attaches a label to a decision.  Attaching a pair that is already stored
/// changes nothing; no error either way.
pub fn add(store: &mut Store, decision_id: &str, label: &str)
    ensures
        final(store)@.decisions == old(store)@.decisions,
        final(store)@.links == old(store)@.links,
        old(store)@.has_label(decision_id@, label@) ==> final(store)@ == old(store)@,
        !old(store)@.has_label(decision_id@, label@) ==> final(store)@.labels == old(
            store,
        )@.labels.push((LabelRowV { decision_id: decision_id@, label: label@ })),
        final(store)@.has_label(decision_id@, label@),
        old(store)@.wf() ==> final(store)@.wf(),
{
    let n = store.labels.len();
    for i in 0..n
        invariant
            n == store@.labels.len(),
            *store == *old(store),
            forall|j: int|
                0 <= j < i ==> !((#[trigger] store@.labels[j]).decision_id == decision_id@
                    && store@.labels[j].label == label@),
    {
        proof {
            assert(store@.labels[i as int] == store.labels@[i as int]@);
        }
        if crate::strutil::str_eq(store.labels[i].decision_id.as_str(), decision_id)
            && crate::strutil::str_eq(store.labels[i].label.as_str(), label) {
            return;
        }
    }
    proof {
        assert forall|j: int| 0 <= j < store@.labels.len() implies !((
        #[trigger] store@.labels[j]).decision_id == decision_id@ && store@.labels[j].label
            == label@) by {}
    }
    let row = LabelRow { decision_id: decision_id.to_owned(), label: label.to_owned() };
    store.labels.push(row);
    proof {
        assert(store.labels.deep_view() =~= old(store).labels.deep_view().push(
            (LabelRowV { decision_id: decision_id@, label: label@ }),
        ));
        let fv = store@;
        let ov = old(store)@;
        assert(fv.labels[fv.labels.len() - 1].decision_id == decision_id@);
        if ov.wf() {
            assert forall|i: int, j: int|
                #![trigger fv.labels[i], fv.labels[j]]
                0 <= i < j < fv.labels.len() implies !(fv.labels[i].decision_id
                == fv.labels[j].decision_id && fv.labels[i].label
                == fv.labels[j].label) by {
                if j < fv.labels.len() - 1 {
                    assert(fv.labels[i] == ov.labels[i]);
                    assert(fv.labels[j] == ov.labels[j]);
                } else {
                    assert(fv.labels[i] == ov.labels[i]);
                }
            }
        }
    }
}

/// Returns the labels attached to a decision, sorted lexicographically
/// ascending.
pub fn get_for_decision(store: &Store, decision_id: &str) -> (r: Vec<String>)
    ensures
        r.deep_view() == labels_for(store@, decision_id@),
{
    let mut found: Vec<String> = Vec::new();
    let n = store.labels.len();
    proof {
        assert(store@.labels.take(0) =~= Seq::<LabelRowV>::empty());
        assert(found.deep_view() =~= labels_matching(store@.labels.take(0), decision_id@));
    }
    for i in 0..n
        invariant
            n == store@.labels.len(),
            found.deep_view() == labels_matching(
                store@.labels.take(i as int),
                decision_id@,
            ),
    {
        proof {
            assert(store@.labels[i as int] == store.labels@[i as int]@);
            assert(store@.labels.take(i + 1).drop_last() =~= store@.labels.take(i as int));
            assert(store@.labels.take(i + 1).last() == store@.labels[i as int]);
        }
        if crate::strutil::str_eq(store.labels[i].decision_id.as_str(), decision_id) {
            found.push(store.labels[i].label.clone());
            proof {
                assert(found.deep_view() =~= labels_matching(
                    store@.labels.take(i + 1),
                    decision_id@,
                ));
            }
        }
    }
    proof {
        assert(store@.labels.take(n as int) =~= store@.labels);
    }
    crate::store::sort_text_vec(found)
}

} // verus!
