//! The hierarchy builder: renders decisions and their refines edges as an
//! indented forest.  An edge (source, target) means the source refines the
//! target, so the target is the parent.  Roots are the decisions that never
//! appear as a source, ordered lexicographically by id; a node's children
//! follow the order in which the edges were recorded.  An id referenced by
//! an edge but absent from the decision set renders as "<id> (unknown)"
//! instead of failing.  Rendering carries a depth budget of the number of
//! edges, which an acyclic edge set can never exhaust, since a downward
//! walk never crosses the same edge twice without a cycle: on a cycle the
//! budget runs out and that branch stops instead of recursing forever.

use vstd::prelude::*;

use crate::model::{Decision, DecisionV};

verus! {

use vstd::string::StringExecFns;

/// Whether an edge leaves this id (the id refines something, so it is not a
/// root).
pub open spec fn is_source(edges: Seq<(Seq<char>, Seq<char>)>, id: Seq<char>) -> bool {
    exists|k: int| 0 <= k < edges.len() && (#[trigger] edges[k]).0 == id
}

/// The ids of the decisions that no edge leaves, in decision order.
pub open spec fn root_ids(ds: Seq<DecisionV>, edges: Seq<(Seq<char>, Seq<char>)>) -> Seq<
    Seq<char>,
>
    decreases ds.len(),
{
    if ds.len() == 0 {
        Seq::empty()
    } else {
        let rest = root_ids(ds.drop_last(), edges);
        if !is_source(edges, ds.last().id) {
            rest + seq![ds.last().id]
        } else {
            rest
        }
    }
}

/// The sources of the edges pointing at this id, in edge order.
pub open spec fn children_of(edges: Seq<(Seq<char>, Seq<char>)>, id: Seq<char>) -> Seq<
    Seq<char>,
>
    decreases edges.len(),
{
    if edges.len() == 0 {
        Seq::empty()
    } else {
        let rest = children_of(edges.drop_last(), id);
        if edges.last().1 == id {
            rest + seq![edges.last().0]
        } else {
            rest
        }
    }
}

/// What stands on a node's line after the connector: id and title for a
/// known decision (the first with that id), the id flagged unknown
/// otherwise.
pub open spec fn node_label(ds: Seq<DecisionV>, id: Seq<char>) -> Seq<char>
    decreases ds.len(),
{
    if ds.len() == 0 {
        id + " (unknown)"@
    } else if ds[0].id == id {
        ds[0].id + " "@ + ds[0].title
    } else {
        node_label(ds.drop_first(), id)
    }
}

/// One node's rendering: its line, then its children indented under it
/// while the depth budget lasts.
pub open spec fn render_node(
    ds: Seq<DecisionV>,
    edges: Seq<(Seq<char>, Seq<char>)>,
    id: Seq<char>,
    prefix: Seq<char>,
    is_last: bool,
    is_root: bool,
    depth: nat,
) -> Seq<char>
    decreases depth, 0nat,
{
    let connector = if is_root && prefix.len() == 0 {
        Seq::<char>::empty()
    } else if is_last {
        "└── "@
    } else {
        "├── "@
    };
    let line = prefix + connector + node_label(ds, id) + "\n"@;
    let kids = children_of(edges, id);
    if depth > 0 && kids.len() > 0 {
        let child_prefix = if is_root && prefix.len() == 0 {
            Seq::<char>::empty()
        } else if is_last {
            prefix + "    "@
        } else {
            prefix + "│   "@
        };
        line + render_list(ds, edges, kids, child_prefix, (depth - 1) as nat)
    } else {
        line
    }
}

/// A run of sibling nodes, the last with its closing connector.
pub open spec fn render_list(
    ds: Seq<DecisionV>,
    edges: Seq<(Seq<char>, Seq<char>)>,
    kids: Seq<Seq<char>>,
    prefix: Seq<char>,
    depth: nat,
) -> Seq<char>
    decreases depth, kids.len(),
{
    if kids.len() == 0 {
        Seq::empty()
    } else {
        render_node(ds, edges, kids[0], prefix, kids.len() == 1, false, depth)
            + render_list(ds, edges, kids.drop_first(), prefix, depth)
    }
}

/// The roots in order, each rendered as a top-level tree.
pub open spec fn render_roots(
    ds: Seq<DecisionV>,
    edges: Seq<(Seq<char>, Seq<char>)>,
    roots: Seq<Seq<char>>,
    depth: nat,
) -> Seq<char>
    decreases roots.len(),
{
    if roots.len() == 0 {
        Seq::empty()
    } else {
        render_node(ds, edges, roots[0], Seq::empty(), roots.len() == 1, true, depth)
            + render_roots(ds, edges, roots.drop_first(), depth)
    }
}

/// The whole forest: sorted roots, each with its subtree; a fixed line when
/// there is nothing to show.
pub open spec fn tree_spec(ds: Seq<DecisionV>, edges: Seq<(Seq<char>, Seq<char>)>) -> Seq<
    char,
> {
    if ds.len() == 0 {
        "No decisions found.\n"@
    } else {
        render_roots(ds, edges, crate::store::sort_texts(root_ids(ds, edges)), edges.len())
    }
}

/// Whether an edge leaves this id.
fn is_source_exec(edges: &Vec<(String, String)>, id: &str) -> (r: bool)
    ensures
        r == is_source(edges.deep_view(), id@),
{
    let n = edges.len();
    for k in 0..n
        invariant
            n == edges@.len(),
            forall|j: int| 0 <= j < k ==> (#[trigger] edges.deep_view()[j]).0 != id@,
    {
        proof {
            assert(edges.deep_view()[k as int] == (edges@[k as int].0@, edges@[
            k as int].1@));
        }
        if crate::strutil::str_eq(edges[k].0.as_str(), id) {
            return true;
        }
    }
    false
}

/// The sources of the edges pointing at this id, in edge order.
fn children_exec(edges: &Vec<(String, String)>, id: &str) -> (r: Vec<String>)
    ensures
        r.deep_view() == children_of(edges.deep_view(), id@),
{
    let mut out: Vec<String> = Vec::new();
    let n = edges.len();
    proof {
        assert(edges.deep_view().take(0) =~= Seq::<(Seq<char>, Seq<char>)>::empty());
        assert(out.deep_view() =~= children_of(edges.deep_view().take(0), id@));
    }
    for k in 0..n
        invariant
            n == edges@.len(),
            out.deep_view() == children_of(edges.deep_view().take(k as int), id@),
    {
        proof {
            assert(edges.deep_view()[k as int] == (edges@[k as int].0@, edges@[
            k as int].1@));
            assert(edges.deep_view().take(k + 1).drop_last() =~= edges.deep_view().take(
                k as int,
            ));
            assert(edges.deep_view().take(k + 1).last() == edges.deep_view()[k as int]);
        }
        if crate::strutil::str_eq(edges[k].1.as_str(), id) {
            out.push(edges[k].0.clone());
            proof {
                assert(out.deep_view() =~= children_of(
                    edges.deep_view().take(k + 1),
                    id@,
                ));
            }
        }
    }
    proof {
        assert(edges.deep_view().take(n as int) =~= edges.deep_view());
    }
    out
}

/// Appends the node's label: id and title when the id is known, the id
/// flagged unknown otherwise.
fn append_label(out: &mut String, decisions: &Vec<Decision>, id: &str)
    ensures
        final(out)@ == old(out)@ + node_label(decisions.deep_view(), id@),
{
    let n = decisions.len();
    proof {
        assert(decisions.deep_view().skip(0) =~= decisions.deep_view());
    }
    for i in 0..n
        invariant
            n == decisions@.len(),
            *out == *old(out),
            node_label(decisions.deep_view(), id@) == node_label(
                decisions.deep_view().skip(i as int),
                id@,
            ),
    {
        proof {
            assert(decisions.deep_view()[i as int] == decisions@[i as int]@);
            assert(decisions.deep_view().skip(i as int)[0] == decisions.deep_view()[
            i as int]);
        }
        if crate::strutil::str_eq(decisions[i].id.as_str(), id) {
            out.append(decisions[i].id.as_str());
            out.append(" ");
            out.append(decisions[i].title.as_str());
            return;
        }
        proof {
            assert(decisions.deep_view().skip(i as int).drop_first()
                =~= decisions.deep_view().skip(i + 1));
        }
    }
    proof {
        assert(decisions.deep_view().skip(n as int).len() == 0);
    }
    out.append(id);
    out.append(" (unknown)");
}

/// Renders one node and, depth budget permitting, its subtree.
fn render_node_exec(
    out: &mut String,
    decisions: &Vec<Decision>,
    edges: &Vec<(String, String)>,
    id: &str,
    prefix: &str,
    is_last: bool,
    is_root: bool,
    depth: usize,
)
    ensures
        final(out)@ == old(out)@ + render_node(
            decisions.deep_view(),
            edges.deep_view(),
            id@,
            prefix@,
            is_last,
            is_root,
            depth as nat,
        ),
    decreases depth,
{
    let root_line = is_root && prefix.is_empty();
    if !root_line {
        out.append(prefix);
        if is_last {
            out.append("└── ");
        } else {
            out.append("├── ");
        }
    }
    append_label(out, decisions, id);
    out.append("\n");
    let kids = children_exec(edges, id);
    let ghost kv = kids.deep_view();
    if depth > 0 && kids.len() > 0 {
        let mut child_prefix = String::new();
        if !root_line {
            child_prefix.append(prefix);
            if is_last {
                child_prefix.append("    ");
            } else {
                child_prefix.append("│   ");
            }
        }
        let ghost cp = child_prefix@;
        let ghost mid = out@;
        let m = kids.len();
        proof {
            assert(kv.skip(0) =~= kv);
        }
        for k in 0..m
            invariant
                m == kids@.len(),
                m == kv.len(),
                kv == kids.deep_view(),
                kv.len() > 0,
                depth > 0,
                cp == child_prefix@,
                mid + render_list(
                    decisions.deep_view(),
                    edges.deep_view(),
                    kv,
                    cp,
                    (depth - 1) as nat,
                ) == out@ + render_list(
                    decisions.deep_view(),
                    edges.deep_view(),
                    kv.skip(k as int),
                    cp,
                    (depth - 1) as nat,
                ),
        {
            proof {
                assert(kv[k as int] == kids@[k as int]@);
                assert(kv.skip(k as int)[0] == kv[k as int]);
                assert(kv.skip(k as int).drop_first() =~= kv.skip(k + 1));
                assert((kv.skip(k as int).len() == 1) == (k as int == kv.len() - 1));
            }
            let child_is_last = k == m - 1;
            render_node_exec(
                out,
                decisions,
                edges,
                kids[k].as_str(),
                child_prefix.as_str(),
                child_is_last,
                false,
                depth - 1,
            );
        }
        proof {
            assert(kv.skip(m as int).len() == 0);
            assert(render_list(
                decisions.deep_view(),
                edges.deep_view(),
                kv.skip(m as int),
                cp,
                (depth - 1) as nat,
            ) == Seq::<char>::empty());
            assert(out@ + Seq::<char>::empty() =~= out@);
        }
    }
}

/// Renders the forest of decisions under their refines edges: roots sorted
/// by id, children in edge order, unknown ids flagged, cycles cut off by
/// the depth budget.
pub fn format_tree(decisions: &Vec<Decision>, refines_links: &Vec<(String, String)>) -> (r:
    String)
    ensures
        r@ == tree_spec(decisions.deep_view(), refines_links.deep_view()),
{
    if decisions.is_empty() {
        return "No decisions found.\n".to_owned();
    }
    let mut roots: Vec<String> = Vec::new();
    let n = decisions.len();
    proof {
        assert(decisions.deep_view().take(0) =~= Seq::<DecisionV>::empty());
        assert(roots.deep_view() =~= root_ids(
            decisions.deep_view().take(0),
            refines_links.deep_view(),
        ));
    }
    for i in 0..n
        invariant
            n == decisions@.len(),
            roots.deep_view() == root_ids(
                decisions.deep_view().take(i as int),
                refines_links.deep_view(),
            ),
    {
        proof {
            assert(decisions.deep_view()[i as int] == decisions@[i as int]@);
            assert(decisions.deep_view().take(i + 1).drop_last() =~= decisions.deep_view().take(
                i as int,
            ));
            assert(decisions.deep_view().take(i + 1).last() == decisions.deep_view()[
            i as int]);
        }
        if !is_source_exec(refines_links, decisions[i].id.as_str()) {
            roots.push(decisions[i].id.clone());
            proof {
                assert(roots.deep_view() =~= root_ids(
                    decisions.deep_view().take(i + 1),
                    refines_links.deep_view(),
                ));
            }
        }
    }
    proof {
        assert(decisions.deep_view().take(n as int) =~= decisions.deep_view());
    }
    let sorted_roots = crate::store::sort_text_vec(roots);
    let ghost rv = sorted_roots.deep_view();
    let mut out = String::new();
    let depth = refines_links.len();
    let m = sorted_roots.len();
    proof {
        reveal_strlit("");
        assert(""@ =~= Seq::<char>::empty());
        assert(rv.skip(0) =~= rv);
        assert(out@ + render_roots(
            decisions.deep_view(),
            refines_links.deep_view(),
            rv,
            depth as nat,
        ) =~= render_roots(decisions.deep_view(), refines_links.deep_view(), rv, depth as nat));
    }
    for k in 0..m
        invariant
            m == sorted_roots@.len(),
            m == rv.len(),
            rv == sorted_roots.deep_view(),
            depth == refines_links@.len(),
            render_roots(decisions.deep_view(), refines_links.deep_view(), rv, depth as nat)
                == out@ + render_roots(
                decisions.deep_view(),
                refines_links.deep_view(),
                rv.skip(k as int),
                depth as nat,
            ),
    {
        proof {
            reveal_strlit("");
            assert(""@ =~= Seq::<char>::empty());
            assert(rv[k as int] == sorted_roots@[k as int]@);
            assert(rv.skip(k as int)[0] == rv[k as int]);
            assert(rv.skip(k as int).drop_first() =~= rv.skip(k + 1));
            assert((rv.skip(k as int).len() == 1) == (k as int == rv.len() - 1));
        }
        let root_is_last = k == m - 1;
        render_node_exec(
            &mut out,
            decisions,
            refines_links,
            sorted_roots[k].as_str(),
            "",
            root_is_last,
            true,
            depth,
        );
    }
    proof {
        assert(rv.skip(m as int).len() == 0);
        assert(render_roots(
            decisions.deep_view(),
            refines_links.deep_view(),
            rv.skip(m as int),
            depth as nat,
        ) == Seq::<char>::empty());
        assert(out@ + Seq::<char>::empty() =~= out@);
    }
    out
}

} // verus!
