//! The link repository: directed, typed edges between decisions.  Inserting
//! rejects self-links and duplicate (source, target, kind) triples; endpoint
//! existence is deliberately the calling layer's check.  Reads are ordered
//! by creation timestamp ascending.

use vstd::prelude::*;

use crate::error::DictumError;
use crate::model::{Link, LinkKind, LinkV};
use crate::store::Store;
use crate::strutil::str_lt;

verus! {

/// The links touching a decision (as source or target), in stored order.
pub open spec fn incident(ls: Seq<LinkV>, id: Seq<char>) -> Seq<LinkV>
    decreases ls.len(),
{
    if ls.len() == 0 {
        Seq::empty()
    } else {
        let rest = incident(ls.drop_last(), id);
        if ls.last().source_id == id || ls.last().target_id == id {
            rest + seq![ls.last()]
        } else {
            rest
        }
    }
}

/// The links of kind refines, in stored order.
pub open spec fn refines_of(ls: Seq<LinkV>) -> Seq<LinkV>
    decreases ls.len(),
{
    if ls.len() == 0 {
        Seq::empty()
    } else {
        let rest = refines_of(ls.drop_last());
        if ls.last().kind == LinkKind::Refines {
            rest + seq![ls.last()]
        } else {
            rest
        }
    }
}

/// Stable insertion of a link into a run ordered by creation timestamp
/// ascending: it goes in front of the first strictly newer element.
pub open spec fn sorted_insert_asc(s: Seq<LinkV>, l: LinkV) -> Seq<LinkV>
    decreases s.len(),
{
    if s.len() == 0 {
        seq![l]
    } else if str_lt(l.created_at, s[0].created_at) {
        seq![l] + s
    } else {
        seq![s[0]] + sorted_insert_asc(s.drop_first(), l)
    }
}

/// Stable insertion sort of links by creation timestamp ascending.
pub open spec fn sort_links_asc(s: Seq<LinkV>) -> Seq<LinkV>
    decreases s.len(),
{
    if s.len() == 0 {
        Seq::empty()
    } else {
        sorted_insert_asc(sort_links_asc(s.drop_last()), s.last())
    }
}

/// The (source, target) pairs of a run of links, in order.
pub open spec fn pairs_of(s: Seq<LinkV>) -> Seq<(Seq<char>, Seq<char>)> {
    s.map_values(|l: LinkV| (l.source_id, l.target_id))
}

/// Where `sorted_insert_asc` puts the new link.
proof fn lemma_sorted_insert_asc_at(s: Seq<LinkV>, l: LinkV, pos: int)
    requires
        0 <= pos <= s.len(),
        forall|j: int| 0 <= j < pos ==> !str_lt(l.created_at, (#[trigger] s[j]).created_at),
        pos < s.len() ==> str_lt(l.created_at, s[pos].created_at),
    ensures
        sorted_insert_asc(s, l) == s.insert(pos, l),
    decreases s.len(),
{
    if s.len() == 0 {
        assert(sorted_insert_asc(s, l) =~= s.insert(0, l));
    } else if pos == 0 {
        assert(seq![l] + s =~= s.insert(0, l));
    } else {
        assert(!str_lt(l.created_at, s[0].created_at));
        lemma_sorted_insert_asc_at(s.drop_first(), l, pos - 1);
        assert(seq![s[0]] + s.drop_first().insert(pos - 1, l) =~= s.insert(pos, l));
    }
}

/// Inserts a link into an oldest-first run, keeping the order.
fn push_sorted_asc(out: &mut Vec<Link>, l: Link)
    ensures
        final(out).deep_view() == sorted_insert_asc(old(out).deep_view(), l@),
{
    let ghost dv = out.deep_view();
    let n = out.len();
    let mut pos: usize = 0;
    loop
        invariant_except_break
            pos <= n,
            n == out@.len(),
            *out == *old(out),
            dv == out.deep_view(),
            n == dv.len(),
            forall|j: int|
                0 <= j < pos ==> !str_lt(l@.created_at, (#[trigger] dv[j]).created_at),
        ensures
            pos <= n,
            *out == *old(out),
            dv == out.deep_view(),
            n == dv.len(),
            forall|j: int|
                0 <= j < pos ==> !str_lt(l@.created_at, (#[trigger] dv[j]).created_at),
            pos < n ==> str_lt(l@.created_at, dv[pos as int].created_at),
        decreases n - pos,
    {
        if pos == n {
            break;
        }
        proof {
            assert(dv[pos as int] == out@[pos as int]@);
        }
        if crate::strutil::str_less(l.created_at.as_str(), out[pos].created_at.as_str()) {
            break;
        }
        pos = pos + 1;
    }
    out.insert(pos, l);
    proof {
        lemma_sorted_insert_asc_at(dv, l@, pos as int);
        assert(out.deep_view() =~= dv.insert(pos as int, l@));
    }
}

/// Sorts links oldest first; the input is consumed.
fn sort_links_vec(v: Vec<Link>) -> (r: Vec<Link>)
    ensures
        r.deep_view() == sort_links_asc(v.deep_view()),
{
    let ghost dv = v.deep_view();
    let mut out: Vec<Link> = Vec::new();
    let rest = v;
    let mut taken: usize = 0;
    proof {
        assert(dv.take(0) =~= Seq::<LinkV>::empty());
        assert(out.deep_view() =~= sort_links_asc(dv.take(0)));
    }
    let n = rest.len();
    while taken < n
        invariant
            taken <= n,
            n == dv.len(),
            rest.deep_view() =~= dv,
            rest@.len() == n,
            out.deep_view() == sort_links_asc(dv.take(taken as int)),
        decreases n - taken,
    {
        let x = rest[taken].clone();
        proof {
            assert(x@ == dv[taken as int]);
        }
        push_sorted_asc(&mut out, x);
        proof {
            assert(dv.take(taken + 1).drop_last() =~= dv.take(taken as int));
            assert(dv.take(taken + 1).last() == dv[taken as int]);
        }
        taken = taken + 1;
    }
    proof {
        assert(dv.take(n as int) =~= dv);
    }
    out
}

/// Inserts a link.  Fails with SelfLink when both endpoints are the same
/// decision, and with LinkAlreadyExists when the (source, target, kind)
/// triple is already stored.  Endpoint existence is not checked here.
pub fn insert(store: &mut Store, link: &Link) -> (r: Result<(), DictumError>)
    requires
        old(store)@.wf(),
    ensures
        final(store)@.wf(),
        final(store)@.decisions == old(store)@.decisions,
        final(store)@.labels == old(store)@.labels,
        match r {
            Ok(()) => link@.source_id != link@.target_id && !old(store)@.has_link(
                link@.source_id,
                link@.target_id,
                link@.kind,
            ) && final(store)@.links == old(store)@.links.push(link@),
            Err(e) => final(store)@ == old(store)@ && ((link@.source_id
                == link@.target_id && e == DictumError::SelfLink) || (link@.source_id
                != link@.target_id && e == DictumError::LinkAlreadyExists && old(
                store,
            )@.has_link(link@.source_id, link@.target_id, link@.kind))),
        },
{
    if crate::strutil::str_eq(link.source_id.as_str(), link.target_id.as_str()) {
        return Err(DictumError::SelfLink);
    }
    let n = store.links.len();
    for i in 0..n
        invariant
            n == store@.links.len(),
            *store == *old(store),
            old(store)@.wf(),
            link@.source_id != link@.target_id,
            forall|j: int|
                0 <= j < i ==> !((#[trigger] store@.links[j]).source_id == link@.source_id
                    && store@.links[j].target_id == link@.target_id && store@.links[j].kind
                    == link@.kind),
    {
        proof {
            assert(store@.links[i as int] == store.links@[i as int]@);
        }
        if crate::strutil::str_eq(store.links[i].source_id.as_str(), link.source_id.as_str())
            && crate::strutil::str_eq(store.links[i].target_id.as_str(), link.target_id.as_str())
            && store.links[i].kind == link.kind {
            return Err(DictumError::LinkAlreadyExists);
        }
    }
    store.links.push(link.clone());
    proof {
        assert(store.links.deep_view() =~= old(store).links.deep_view().push(link@));
        let fv = store@;
        let ov = old(store)@;
        assert(fv.decisions == ov.decisions);
        assert(fv.labels == ov.labels);
        assert forall|i: int|
            0 <= i < fv.links.len() implies (#[trigger] fv.links[i]).source_id
            != fv.links[i].target_id by {
            if i < fv.links.len() - 1 {
                assert(fv.links[i] == ov.links[i]);
            }
        }
        assert forall|i: int, j: int|
            #![trigger fv.links[i], fv.links[j]]
            0 <= i < j < fv.links.len() implies !(fv.links[i].source_id
            == fv.links[j].source_id && fv.links[i].target_id == fv.links[j].target_id
            && fv.links[i].kind == fv.links[j].kind) by {
            assert(fv.links[i] == ov.links[i]);
            if j < fv.links.len() - 1 {
                assert(fv.links[j] == ov.links[j]);
            }
        }
    }
    Ok(())
}

/// Deletes the link with exactly this (source, target, kind) triple.  Fails
/// with LinkNotFound when no such link is stored.
pub fn delete(store: &mut Store, source_id: &str, kind: &LinkKind, target_id: &str) -> (r:
    Result<(), DictumError>)
    requires
        old(store)@.wf(),
    ensures
        final(store)@.wf(),
        final(store)@.decisions == old(store)@.decisions,
        final(store)@.labels == old(store)@.labels,
        match r {
            Ok(()) => old(store)@.has_link(source_id@, target_id@, *kind)
                && final(store)@.links == old(store)@.links.remove(
                old(store)@.link_index(source_id@, target_id@, *kind),
            ),
            Err(e) => e == DictumError::LinkNotFound && !old(store)@.has_link(
                source_id@,
                target_id@,
                *kind,
            ) && final(store)@ == old(store)@,
        },
{
    let n = store.links.len();
    for i in 0..n
        invariant
            n == store@.links.len(),
            *store == *old(store),
            old(store)@.wf(),
            forall|j: int|
                0 <= j < i ==> !((#[trigger] store@.links[j]).source_id == source_id@
                    && store@.links[j].target_id == target_id@ && store@.links[j].kind
                    == *kind),
    {
        proof {
            assert(store@.links[i as int] == store.links@[i as int]@);
        }
        if crate::strutil::str_eq(store.links[i].source_id.as_str(), source_id)
            && crate::strutil::str_eq(store.links[i].target_id.as_str(), target_id)
            && store.links[i].kind == *kind {
            proof {
                let ci = old(store)@.link_index(source_id@, target_id@, *kind);
                assert(old(store)@.has_link(source_id@, target_id@, *kind));
                assert(0 <= ci < store@.links.len() && store@.links[ci].source_id
                    == source_id@ && store@.links[ci].target_id == target_id@
                    && store@.links[ci].kind == *kind);
                if ci != i as int {
                    if ci < i as int {
                        assert(!(store@.links[ci].source_id == store@.links[
                        i as int].source_id && store@.links[ci].target_id == store@.links[
                        i as int].target_id && store@.links[ci].kind == store@.links[
                        i as int].kind));
                    } else {
                        assert(!(store@.links[i as int].source_id
                            == store@.links[ci].source_id && store@.links[
                        i as int].target_id == store@.links[ci].target_id && store@.links[
                        i as int].kind == store@.links[ci].kind));
                    }
                }
            }
            store.links.remove(i);
            proof {
                assert(store.links.deep_view() =~= old(store).links.deep_view().remove(
                    i as int,
                ));
                let fv = store@;
                let ov = old(store)@;
                assert(fv.decisions == ov.decisions);
                assert(fv.labels == ov.labels);
                assert forall|p: int|
                    0 <= p < fv.links.len() implies (#[trigger] fv.links[p]).source_id
                    != fv.links[p].target_id by {
                    if p < i as int {
                        assert(fv.links[p] == ov.links[p]);
                    } else {
                        assert(fv.links[p] == ov.links[p + 1]);
                    }
                }
                assert forall|p: int, q: int|
                    #![trigger fv.links[p], fv.links[q]]
                    0 <= p < q < fv.links.len() implies !(fv.links[p].source_id
                    == fv.links[q].source_id && fv.links[p].target_id
                    == fv.links[q].target_id && fv.links[p].kind == fv.links[q].kind) by {
                    let p0: int = if p < i as int { p } else { p + 1 };
                    let q0: int = if q < i as int { q } else { q + 1 };
                    assert(fv.links[p] == ov.links[p0]);
                    assert(fv.links[q] == ov.links[q0]);
                }
            }
            return Ok(());
        }
    }
    Err(DictumError::LinkNotFound)
}

/// Returns every link that touches the decision, as source or target,
/// ordered by creation timestamp ascending (ties keep stored order).
pub fn get_for_decision(store: &Store, decision_id: &str) -> (r: Vec<Link>)
    ensures
        r.deep_view() == sort_links_asc(incident(store@.links, decision_id@)),
{
    let mut found: Vec<Link> = Vec::new();
    let n = store.links.len();
    proof {
        assert(store@.links.take(0) =~= Seq::<LinkV>::empty());
        assert(found.deep_view() =~= incident(store@.links.take(0), decision_id@));
    }
    for i in 0..n
        invariant
            n == store@.links.len(),
            found.deep_view() == incident(store@.links.take(i as int), decision_id@),
    {
        proof {
            assert(store@.links[i as int] == store.links@[i as int]@);
            assert(store@.links.take(i + 1).drop_last() =~= store@.links.take(i as int));
            assert(store@.links.take(i + 1).last() == store@.links[i as int]);
        }
        if crate::strutil::str_eq(store.links[i].source_id.as_str(), decision_id)
            || crate::strutil::str_eq(store.links[i].target_id.as_str(), decision_id) {
            found.push(store.links[i].clone());
            proof {
                assert(found.deep_view() =~= incident(
                    store@.links.take(i + 1),
                    decision_id@,
                ));
            }
        }
    }
    proof {
        assert(store@.links.take(n as int) =~= store@.links);
    }
    sort_links_vec(found)
}

/// Returns the (source, target) pairs of every refines link, ordered by
/// creation timestamp ascending: the hierarchy builder's input.
pub fn get_refines_links(store: &Store) -> (r: Vec<(String, String)>)
    ensures
        r.deep_view() == pairs_of(sort_links_asc(refines_of(store@.links))),
{
    let mut found: Vec<Link> = Vec::new();
    let n = store.links.len();
    proof {
        assert(store@.links.take(0) =~= Seq::<LinkV>::empty());
        assert(found.deep_view() =~= refines_of(store@.links.take(0)));
    }
    for i in 0..n
        invariant
            n == store@.links.len(),
            found.deep_view() == refines_of(store@.links.take(i as int)),
    {
        proof {
            assert(store@.links[i as int] == store.links@[i as int]@);
            assert(store@.links.take(i + 1).drop_last() =~= store@.links.take(i as int));
            assert(store@.links.take(i + 1).last() == store@.links[i as int]);
        }
        if store.links[i].kind == LinkKind::Refines {
            found.push(store.links[i].clone());
            proof {
                assert(found.deep_view() =~= refines_of(store@.links.take(i + 1)));
            }
        }
    }
    proof {
        assert(store@.links.take(n as int) =~= store@.links);
    }
    let sorted = sort_links_vec(found);
    let ghost sv = sorted.deep_view();
    let mut out: Vec<(String, String)> = Vec::new();
    let m = sorted.len();
    proof {
        assert(out.deep_view() =~= pairs_of(sv).take(0));
    }
    for i in 0..m
        invariant
            m == sv.len(),
            m == sorted@.len(),
            sv == sorted.deep_view(),
            out.deep_view() == pairs_of(sv).take(i as int),
    {
        proof {
            assert(sv[i as int] == sorted@[i as int]@);
        }
        let ghost prev = out.deep_view();
        out.push((sorted[i].source_id.clone(), sorted[i].target_id.clone()));
        proof {
            let ii = i as int;
            assert(out.deep_view() =~= prev.push(
                (sorted@[ii].source_id@, sorted@[ii].target_id@),
            ));
            assert(pairs_of(sv)[ii] == (sv[ii].source_id, sv[ii].target_id));
            assert(sv[ii].source_id == sorted@[ii].source_id@);
            assert(pairs_of(sv).take(ii + 1) =~= prev.push(pairs_of(sv)[ii]));
            assert(out.deep_view() == pairs_of(sv).take(ii + 1));
        }
    }
    proof {
        assert(pairs_of(sv).take(m as int) =~= pairs_of(sv));
    }
    out
}

} // verus!
