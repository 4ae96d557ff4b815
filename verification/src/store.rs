//! The in-memory store: the three record sets (decisions, links, labels)
//! with their structural invariants, and the sorting machinery the
//! repository operations share.  Callers load the store from durable
//! storage, run operations on it, and write changes back.

use vstd::prelude::*;

use crate::model::{Decision, DecisionV, Link, LinkV};
use crate::strutil::str_lt;

verus! {

/// One label attachment: a (decision id, label text) pair.
#[derive(Debug)]
pub struct LabelRow {
    pub decision_id: String,
    pub label: String,
}

/// The mathematical content of a label attachment.
pub ghost struct LabelRowV {
    pub decision_id: Seq<char>,
    pub label: Seq<char>,
}

impl View for LabelRow {
    type V = LabelRowV;

    open spec fn view(&self) -> LabelRowV {
        LabelRowV { decision_id: self.decision_id@, label: self.label@ }
    }
}

impl DeepView for LabelRow {
    type V = LabelRowV;

    open spec fn deep_view(&self) -> LabelRowV {
        self.view()
    }
}

/// The three record sets.
#[derive(Debug)]
pub struct Store {
    pub decisions: Vec<Decision>,
    pub links: Vec<Link>,
    pub labels: Vec<LabelRow>,
}

/// The mathematical content of a store.
pub ghost struct StoreV {
    pub decisions: Seq<DecisionV>,
    pub links: Seq<LinkV>,
    pub labels: Seq<LabelRowV>,
}

impl View for Store {
    type V = StoreV;

    open spec fn view(&self) -> StoreV {
        StoreV {
            decisions: self.decisions.deep_view(),
            links: self.links.deep_view(),
            labels: self.labels.deep_view(),
        }
    }
}

impl StoreV {
    /// Whether a decision with this id is stored.
    pub open spec fn has_decision(self, id: Seq<char>) -> bool {
        exists|i: int|
            0 <= i < self.decisions.len() && (#[trigger] self.decisions[i]).id == id
    }

    /// The index of the decision with this id (unique in a well-formed
    /// store).
    pub open spec fn decision_index(self, id: Seq<char>) -> int {
        choose|i: int| 0 <= i < self.decisions.len() && (#[trigger] self.decisions[i]).id == id
    }

    /// Whether a link with exactly this (source, target, kind) triple is
    /// stored.
    pub open spec fn has_link(self, source: Seq<char>, target: Seq<char>, kind: crate::model::LinkKind) -> bool {
        exists|i: int|
            0 <= i < self.links.len() && (#[trigger] self.links[i]).source_id == source
                && self.links[i].target_id == target && self.links[i].kind == kind
    }

    /// The index of the link with this triple (unique in a well-formed
    /// store).
    pub open spec fn link_index(self, source: Seq<char>, target: Seq<char>, kind: crate::model::LinkKind) -> int {
        choose|i: int|
            0 <= i < self.links.len() && (#[trigger] self.links[i]).source_id == source
                && self.links[i].target_id == target && self.links[i].kind == kind
    }

    /// Whether this (decision id, label) pair is stored.
    pub open spec fn has_label(self, id: Seq<char>, label: Seq<char>) -> bool {
        exists|i: int|
            0 <= i < self.labels.len() && (#[trigger] self.labels[i]).decision_id == id
                && self.labels[i].label == label
    }

    /// Structural well-formedness: decision ids are unique, no link joins a
    /// decision to itself, (source, target, kind) triples are unique, and
    /// label pairs are unique.  Link endpoints are deliberately not required
    /// to exist: endpoint existence is the calling layer's separate check.
    pub open spec fn wf(self) -> bool {
        &&& forall|i: int, j: int|
            #![trigger self.decisions[i], self.decisions[j]]
            0 <= i < j < self.decisions.len() ==> self.decisions[i].id != self.decisions[j].id
        &&& forall|i: int|
            0 <= i < self.links.len() ==> (#[trigger] self.links[i]).source_id
                != self.links[i].target_id
        &&& forall|i: int, j: int|
            #![trigger self.links[i], self.links[j]]
            0 <= i < j < self.links.len() ==> !(self.links[i].source_id
                == self.links[j].source_id && self.links[i].target_id
                == self.links[j].target_id && self.links[i].kind == self.links[j].kind)
        &&& forall|i: int, j: int|
            #![trigger self.labels[i], self.labels[j]]
            0 <= i < j < self.labels.len() ==> !(self.labels[i].decision_id
                == self.labels[j].decision_id && self.labels[i].label
                == self.labels[j].label)
    }
}

/// The labels attached to a decision, in stored order.
pub open spec fn labels_matching(rows: Seq<LabelRowV>, id: Seq<char>) -> Seq<Seq<char>>
    decreases rows.len(),
{
    if rows.len() == 0 {
        Seq::empty()
    } else {
        let rest = labels_matching(rows.drop_last(), id);
        if rows.last().decision_id == id {
            rest + seq![rows.last().label]
        } else {
            rest
        }
    }
}

/// Stable insertion of a text into a lexicographically ascending run: the
/// text goes in front of the first strictly larger element.
pub open spec fn sorted_insert_text(s: Seq<Seq<char>>, x: Seq<char>) -> Seq<Seq<char>>
    decreases s.len(),
{
    if s.len() == 0 {
        seq![x]
    } else if str_lt(x, s[0]) {
        seq![x] + s
    } else {
        seq![s[0]] + sorted_insert_text(s.drop_first(), x)
    }
}

/// Stable insertion sort of texts, lexicographically ascending.
pub open spec fn sort_texts(s: Seq<Seq<char>>) -> Seq<Seq<char>>
    decreases s.len(),
{
    if s.len() == 0 {
        Seq::empty()
    } else {
        sorted_insert_text(sort_texts(s.drop_last()), s.last())
    }
}

/// The labels attached to a decision, sorted ascending.
pub open spec fn labels_for(sv: StoreV, id: Seq<char>) -> Seq<Seq<char>> {
    sort_texts(labels_matching(sv.labels, id))
}

/// Where `sorted_insert_text` puts the new text: at the first position whose
/// element is strictly larger.
proof fn lemma_sorted_insert_text_at(s: Seq<Seq<char>>, x: Seq<char>, pos: int)
    requires
        0 <= pos <= s.len(),
        forall|j: int| 0 <= j < pos ==> !str_lt(x, s[j]),
        pos < s.len() ==> str_lt(x, s[pos]),
    ensures
        sorted_insert_text(s, x) == s.insert(pos, x),
    decreases s.len(),
{
    if s.len() == 0 {
        assert(sorted_insert_text(s, x) =~= s.insert(0, x));
    } else if pos == 0 {
        assert(str_lt(x, s[0]));
        assert(seq![x] + s =~= s.insert(0, x));
    } else {
        assert(!str_lt(x, s[0]));
        lemma_sorted_insert_text_at(s.drop_first(), x, pos - 1);
        assert(seq![s[0]] + s.drop_first().insert(pos - 1, x) =~= s.insert(pos, x));
    }
}

/// Inserts a text into an ascending run of labels, keeping it ascending.
pub fn push_text_sorted(out: &mut Vec<String>, x: String)
    ensures
        final(out).deep_view() == sorted_insert_text(old(out).deep_view(), x@),
{
    let ghost dv = out.deep_view();
    let n = out.len();
    let mut pos: usize = 0;
    loop
        invariant_except_break
            pos <= n,
            n == out@.len(),
            *out == *old(out),
            dv == out.deep_view(),
            n == dv.len(),
            forall|j: int| 0 <= j < pos ==> !str_lt(x@, dv[j]),
        ensures
            pos <= n,
            *out == *old(out),
            dv == out.deep_view(),
            n == dv.len(),
            n == out@.len(),
            forall|j: int| 0 <= j < pos ==> !str_lt(x@, dv[j]),
            pos < n ==> str_lt(x@, dv[pos as int]),
        decreases n - pos,
    {
        if pos == n {
            break;
        }
        if crate::strutil::str_less(x.as_str(), out[pos].as_str()) {
            proof {
                assert(dv[pos as int] == out@[pos as int]@);
            }
            break;
        }
        proof {
            assert(dv[pos as int] == out@[pos as int]@);
        }
        pos = pos + 1;
    }
    out.insert(pos, x);
    proof {
        lemma_sorted_insert_text_at(dv, x@, pos as int);
        assert(out.deep_view() =~= dv.insert(pos as int, x@));
    }
}

/// Sorts the labels of one decision ascending; the input is consumed.
pub fn sort_text_vec(v: Vec<String>) -> (r: Vec<String>)
    ensures
        r.deep_view() == sort_texts(v.deep_view()),
{
    let ghost dv = v.deep_view();
    let mut out: Vec<String> = Vec::new();
    let mut rest = v;
    let mut taken: usize = 0;
    proof {
        assert(dv.take(0) =~= Seq::<Seq<char>>::empty());
        assert(out.deep_view() =~= sort_texts(dv.take(0)));
    }
    let n = rest.len();
    while taken < n
        invariant
            taken <= n,
            n == dv.len(),
            rest.deep_view() =~= dv,
            rest@.len() == n,
            out.deep_view() == sort_texts(dv.take(taken as int)),
        decreases n - taken,
    {
        let x = rest[taken].clone();
        proof {
            assert(x@ == dv[taken as int]);
        }
        push_text_sorted(&mut out, x);
        proof {
            assert(dv.take(taken + 1).drop_last() =~= dv.take(taken as int));
            assert(dv.take(taken + 1).last() == dv[taken as int]);
        }
        taken = taken + 1;
    }
    proof {
        assert(dv.take(n as int) =~= dv);
    }
    out
}

} // verus!
