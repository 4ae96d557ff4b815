//! The context dump: the active decisions as one compact briefing, grouped
//! by level, each with its classification, scope, parent in the refines
//! hierarchy, rationale, rebuttal and labels; or, for machines, the active
//! decisions as their interchange records, one per line with their links.

use vstd::prelude::*;

use crate::decisions::{list_spec, ListFilterV};
use crate::error::DictumError;
use crate::format::OutputFormat;
use crate::model::{Decision, DecisionV, Level, Status};
use crate::store::{Store, StoreV};
use crate::textfmt::join_spec;

verus! {

use vstd::utf8::{decode_utf8, valid_utf8};

/// The filter that keeps the active decisions.
pub open spec fn active_filter() -> ListFilterV {
    ListFilterV {
        level: None,
        status: Some(Status::Active),
        label: None,
        kind: None,
        weight: None,
        scope: None,
    }
}

/// The parent an id refines, under the latest refines edge that leaves it.
pub open spec fn parent_of(edges: Seq<(Seq<char>, Seq<char>)>, id: Seq<char>) -> Option<
    Seq<char>,
>
    decreases edges.len(),
{
    if edges.len() == 0 {
        None
    } else if edges.last().0 == id {
        Some(edges.last().1)
    } else {
        parent_of(edges.drop_last(), id)
    }
}

/// A level's section heading.
pub open spec fn heading_spec(level: Level) -> Seq<char> {
    match level {
        Level::Strategic => "## Strategic\n\n"@,
        Level::Tactical => "## Tactical\n\n"@,
        Level::Operational => "## Operational\n\n"@,
    }
}

/// One entry's headline: the decision, its classification, scope and
/// parent.
pub open spec fn entry_head_spec(d: DecisionV, edges: Seq<(Seq<char>, Seq<char>)>) -> Seq<
    char,
> {
    ("- ["@ + d.id + "] ("@ + d.kind.spec_text() + "/"@ + d.weight.spec_text() + ") "@
        + d.title) + (match d.scope {
        Some(t) => " [scope: "@ + t + "]"@,
        None => Seq::<char>::empty(),
    }) + (match parent_of(edges, d.id) {
        Some(p) => " (refines "@ + p + ")"@,
        None => Seq::<char>::empty(),
    }) + "\n"@
}

/// One entry's detail lines: rationale, rebuttal and labels.
pub open spec fn entry_detail_spec(d: DecisionV) -> Seq<char> {
    (match d.body {
        Some(t) => "  "@ + t + "\n"@,
        None => Seq::<char>::empty(),
    }) + (match d.rebuttal {
        Some(t) => "  UNLESS: "@ + t + "\n"@,
        None => Seq::<char>::empty(),
    }) + (if d.labels.len() > 0 {
        "  Labels: "@ + join_spec(d.labels) + "\n"@
    } else {
        Seq::<char>::empty()
    })
}

/// One decision's briefing entry.
pub open spec fn entry_spec(d: DecisionV, edges: Seq<(Seq<char>, Seq<char>)>) -> Seq<char> {
    entry_head_spec(d, edges) + entry_detail_spec(d)
}

/// The entries of one level, in listing order.
pub open spec fn entries_spec(
    ds: Seq<DecisionV>,
    edges: Seq<(Seq<char>, Seq<char>)>,
    level: Level,
) -> Seq<char>
    decreases ds.len(),
{
    if ds.len() == 0 {
        Seq::empty()
    } else {
        entries_spec(ds.drop_last(), edges, level) + (if ds.last().level == level {
            entry_spec(ds.last(), edges)
        } else {
            Seq::<char>::empty()
        })
    }
}

/// Whether any of the decisions carries the level.
pub open spec fn has_level(ds: Seq<DecisionV>, level: Level) -> bool {
    exists|i: int| 0 <= i < ds.len() && (#[trigger] ds[i]).level == level
}

/// A level's whole section; empty when no decision carries the level.
pub open spec fn section_spec(
    ds: Seq<DecisionV>,
    edges: Seq<(Seq<char>, Seq<char>)>,
    level: Level,
) -> Seq<char> {
    if has_level(ds, level) {
        heading_spec(level) + entries_spec(ds, edges, level) + "\n"@
    } else {
        Seq::<char>::empty()
    }
}

/// The whole briefing: the three level sections in order, or a fixed line
/// when nothing is active.
pub open spec fn context_text_spec(
    ds: Seq<DecisionV>,
    edges: Seq<(Seq<char>, Seq<char>)>,
) -> Seq<char> {
    if ds.len() == 0 {
        "No active decisions.\n"@
    } else {
        "# Active Decisions\n\n"@ + (section_spec(ds, edges, Level::Strategic) + (
        section_spec(ds, edges, Level::Tactical) + section_spec(
            ds,
            edges,
            Level::Operational,
        )))
    }
}

/// The machine form: each active decision's interchange record with its
/// incident links, one per line.
pub open spec fn context_records_spec(sv: StoreV, ds: Seq<DecisionV>) -> Seq<u8>
    decreases ds.len(),
{
    if ds.len() == 0 {
        Seq::empty()
    } else {
        context_records_spec(sv, ds.drop_last()) + crate::codec::enc_spec(
            ds.last(),
            crate::codec::summaries_of(
                crate::links::sort_links_asc(crate::links::incident(sv.links, ds.last().id)),
            ),
        ) + seq![10u8]
    }
}

/// The parent an id refines, if any.
fn parent_of_exec(edges: &Vec<(String, String)>, id: &str) -> (r: Option<String>)
    ensures
        r.deep_view() == parent_of(edges.deep_view(), id@),
    decreases edges@.len(),
{
    let n = edges.len();
    let mut i = n;
    proof {
        assert(edges.deep_view().take(n as int) =~= edges.deep_view());
    }
    while i > 0
        invariant
            i <= n,
            n == edges@.len(),
            parent_of(edges.deep_view(), id@) == parent_of(
                edges.deep_view().take(i as int),
                id@,
            ),
        decreases i,
    {
        i = i - 1;
        proof {
            assert(edges.deep_view()[i as int] == (edges@[i as int].0@, edges@[
            i as int].1@));
            assert(edges.deep_view().take(i + 1).last() == edges.deep_view()[i as int]);
            assert(edges.deep_view().take(i + 1).drop_last() =~= edges.deep_view().take(
                i as int,
            ));
        }
        if crate::strutil::str_eq(edges[i].0.as_str(), id) {
            return Some(edges[i].1.clone());
        }
    }
    proof {
        assert(edges.deep_view().take(0).len() == 0);
    }
    None
}

/// Appends one entry's headline.
#[verifier::rlimit(100)]
#[verifier::spinoff_prover]
fn append_entry_head(out: &mut String, d: &Decision, edges: &Vec<(String, String)>)
    ensures
        final(out)@ == old(out)@ + entry_head_spec(d@, edges.deep_view()),
{
    out.append("- [");
    out.append(d.id.as_str());
    out.append("] (");
    let t = d.kind.as_text();
    out.append(t.as_str());
    out.append("/");
    let t = d.weight.as_text();
    out.append(t.as_str());
    out.append(") ");
    out.append(d.title.as_str());
    if let Some(scope) = &d.scope {
        out.append(" [scope: ");
        out.append(scope.as_str());
        out.append("]");
    }
    let parent = parent_of_exec(edges, d.id.as_str());
    if let Some(p) = &parent {
        out.append(" (refines ");
        out.append(p.as_str());
        out.append(")");
    }
    out.append("\n");
    proof {
        assert(out@ =~= old(out)@ + entry_head_spec(d@, edges.deep_view()));
    }
}

/// Appends one entry's detail lines.
#[verifier::rlimit(100)]
#[verifier::spinoff_prover]
fn append_entry_detail(out: &mut String, d: &Decision)
    ensures
        final(out)@ == old(out)@ + entry_detail_spec(d@),
{
    if let Some(body) = &d.body {
        out.append("  ");
        out.append(body.as_str());
        out.append("\n");
    }
    if let Some(rebuttal) = &d.rebuttal {
        out.append("  UNLESS: ");
        out.append(rebuttal.as_str());
        out.append("\n");
    }
    if !d.labels.is_empty() {
        out.append("  Labels: ");
        crate::textfmt::append_joined(out, &d.labels);
        out.append("\n");
    }
    proof {
        assert(out@ =~= old(out)@ + entry_detail_spec(d@));
    }
}

/// Appends one decision's briefing entry.
fn append_entry(out: &mut String, d: &Decision, edges: &Vec<(String, String)>)
    ensures
        final(out)@ == old(out)@ + entry_spec(d@, edges.deep_view()),
{
    append_entry_head(out, d, edges);
    append_entry_detail(out, d);
    proof {
        vstd::seq_lib::lemma_concat_associative(
            old(out)@,
            entry_head_spec(d@, edges.deep_view()),
            entry_detail_spec(d@),
        );
    }
}

/// Whether any of the decisions carries the level.
fn has_level_exec(decisions: &Vec<Decision>, level: Level) -> (r: bool)
    ensures
        r == has_level(decisions.deep_view(), level),
{
    let n = decisions.len();
    for i in 0..n
        invariant
            n == decisions@.len(),
            forall|j: int|
                0 <= j < i ==> (#[trigger] decisions.deep_view()[j]).level != level,
    {
        proof {
            assert(decisions.deep_view()[i as int] == decisions@[i as int]@);
        }
        if decisions[i].level == level {
            return true;
        }
    }
    false
}

/// Appends one level's section.
#[verifier::rlimit(100)]
fn append_section(
    out: &mut String,
    decisions: &Vec<Decision>,
    edges: &Vec<(String, String)>,
    level: Level,
)
    ensures
        final(out)@ == old(out)@ + section_spec(decisions.deep_view(), edges.deep_view(), level),
{
    if !has_level_exec(decisions, level) {
        proof {
            assert(out@ =~= old(out)@ + section_spec(
                decisions.deep_view(),
                edges.deep_view(),
                level,
            ));
        }
        return;
    }
    match level {
        Level::Strategic => out.append("## Strategic\n\n"),
        Level::Tactical => out.append("## Tactical\n\n"),
        Level::Operational => out.append("## Operational\n\n"),
    }
    let ghost dv = decisions.deep_view();
    let ghost base = out@;
    let n = decisions.len();
    proof {
        assert(entries_spec(dv.take(0), edges.deep_view(), level) == Seq::<char>::empty());
        assert(out@ =~= base + entries_spec(dv.take(0), edges.deep_view(), level));
    }
    for i in 0..n
        invariant
            n == decisions@.len(),
            n == dv.len(),
            dv == decisions.deep_view(),
            out@ == base + entries_spec(dv.take(i as int), edges.deep_view(), level),
    {
        proof {
            assert(dv[i as int] == decisions@[i as int]@);
            assert(dv.take(i + 1).drop_last() =~= dv.take(i as int));
            assert(dv.take(i + 1).last() == dv[i as int]);
        }
        if decisions[i].level == level {
            append_entry(out, &decisions[i], edges);
        }
        proof {
            assert(out@ =~= base + entries_spec(dv.take(i + 1), edges.deep_view(), level));
        }
    }
    out.append("\n");
    proof {
        assert(dv.take(n as int) =~= dv);
        assert(out@ =~= old(out)@ + section_spec(dv, edges.deep_view(), level));
    }
}

/// Renders the context briefing over the active decisions: the grouped text
/// form, or (for the JSON format) each active decision's interchange record
/// with its links, one per line.  The machine form renders exactly when its
/// bytes are valid UTF-8, which encoding text always yields.
pub fn run(store: &Store, format: OutputFormat) -> (r: Result<String, DictumError>)
    ensures
        ({
            let active = list_spec(store@, active_filter());
            match format {
                OutputFormat::Json => {
                    let bytes = context_records_spec(store@, active);
                    match r {
                        Ok(s) => valid_utf8(bytes) && s@ == decode_utf8(bytes),
                        Err(e) => !valid_utf8(bytes) && (e
                            matches DictumError::SerializationError(_)),
                    }
                },
                _ => r matches Ok(s) && s@ == context_text_spec(
                    active,
                    crate::links::pairs_of(
                        crate::links::sort_links_asc(
                            crate::links::refines_of(store@.links),
                        ),
                    ),
                ),
            }
        }),
{
    let filter = crate::decisions::ListFilter {
        level: None,
        status: Some(Status::Active),
        label: None,
        kind: None,
        weight: None,
        scope: None,
    };
    let active = crate::decisions::list(store, &filter);
    proof {
        assert(filter@ == active_filter());
    }
    match format {
        OutputFormat::Json => {
            let mut bytes: Vec<u8> = Vec::new();
            let ghost av = active.deep_view();
            let n = active.len();
            proof {
                assert(bytes@ =~= context_records_spec(store@, av.take(0)));
            }
            for i in 0..n
                invariant
                    n == active@.len(),
                    n == av.len(),
                    av == active.deep_view(),
                    bytes@ == context_records_spec(store@, av.take(i as int)),
            {
                proof {
                    assert(av[i as int] == active@[i as int]@);
                    assert(av.take(i + 1).drop_last() =~= av.take(i as int));
                    assert(av.take(i + 1).last() == av[i as int]);
                }
                let links = crate::links::get_for_decision(store, active[i].id.as_str());
                let mut line = crate::codec::encode(&active[i], &links);
                bytes.append(&mut line);
                bytes.push(10);
                proof {
                    assert(bytes@ =~= context_records_spec(store@, av.take(i + 1)));
                }
            }
            proof {
                assert(av.take(n as int) =~= av);
            }
            crate::decode::bytes_to_text(bytes)
        },
        _ => {
            if active.is_empty() {
                return Ok("No active decisions.\n".to_owned());
            }
            let edges = crate::links::get_refines_links(store);
            let mut out = String::new();
            out.append("# Active Decisions\n\n");
            let ghost head = out@;
            append_section(&mut out, &active, &edges, Level::Strategic);
            let ghost a = section_spec(active.deep_view(), edges.deep_view(), Level::Strategic);
            append_section(&mut out, &active, &edges, Level::Tactical);
            let ghost b = section_spec(active.deep_view(), edges.deep_view(), Level::Tactical);
            append_section(&mut out, &active, &edges, Level::Operational);
            let ghost c = section_spec(
                active.deep_view(),
                edges.deep_view(),
                Level::Operational,
            );
            proof {
                vstd::seq_lib::lemma_concat_associative(head + a, b, c);
                vstd::seq_lib::lemma_concat_associative(head, a, b + c);
                vstd::seq_lib::lemma_concat_associative(a, b, c);
                assert(out@ == head + (a + (b + c)));
            }
            Ok(out)
        },
    }
}

} // verus!
