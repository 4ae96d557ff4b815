//! The plain-text renderers: one decision with its links, and a one-line-
//! per-decision listing.  Pure string building over already-validated
//! values.

use vstd::prelude::*;

use crate::model::{Decision, DecisionV, Link, LinkV};

verus! {

use vstd::string::StrSliceExecFns;
use vstd::string::StringExecFns;

/// The labels joined with ", ".
pub open spec fn join_spec(ls: Seq<Seq<char>>) -> Seq<char>
    decreases ls.len(),
{
    if ls.len() == 0 {
        Seq::empty()
    } else if ls.len() == 1 {
        ls[0]
    } else {
        ls[0] + ", "@ + join_spec(ls.drop_first())
    }
}

/// Appends the labels joined with ", ".
pub(crate) fn append_joined(out: &mut String, ls: &Vec<String>)
    ensures
        final(out)@ == old(out)@ + join_spec(ls.deep_view()),
{
    let ghost lv = ls.deep_view();
    let n = ls.len();
    let ghost base = out@;
    proof {
        assert(lv.skip(0) =~= lv);
    }
    for i in 0..n
        invariant
            n == ls@.len(),
            n == lv.len(),
            lv == ls.deep_view(),
            base + join_spec(lv) == out@ + join_spec(lv.skip(i as int)),
    {
        proof {
            assert(lv[i as int] == ls@[i as int]@);
            assert(lv.skip(i as int)[0] == lv[i as int]);
            assert(lv.skip(i as int).drop_first() =~= lv.skip(i + 1));
        }
        out.append(ls[i].as_str());
        if i + 1 < n {
            out.append(", ");
            proof {
                assert(join_spec(lv.skip(i as int)) == lv[i as int] + ", "@ + join_spec(
                    lv.skip(i + 1),
                ));
            }
        } else {
            proof {
                assert(lv.skip(i as int).len() == 1);
                assert(join_spec(lv.skip(i as int)) == lv[i as int]);
                assert(lv.skip(i + 1).len() == 0);
                assert(out@ + join_spec(lv.skip(i + 1)) =~= out@);
            }
        }
    }
    proof {
        assert(lv.skip(n as int).len() == 0);
        assert(out@ + join_spec(lv.skip(n as int)) =~= out@);
    }
}

/// One link's line as the detail view shows it: outgoing links point at
/// their target, incoming ones name their source, either with the reason
/// behind it when one is recorded.
pub open spec fn link_line_spec(l: LinkV, id: Seq<char>) -> Seq<char> {
    (if l.source_id == id {
        "    "@ + l.kind.spec_text() + " -> "@ + l.target_id
    } else {
        "    <- "@ + l.kind.spec_text() + " "@ + l.source_id
    }) + (match l.reason {
        Some(t) => " ("@ + t + ")"@,
        None => Seq::<char>::empty(),
    }) + "\n"@
}

/// The link lines in order.
pub open spec fn link_lines_spec(ls: Seq<LinkV>, id: Seq<char>) -> Seq<char>
    decreases ls.len(),
{
    if ls.len() == 0 {
        Seq::empty()
    } else {
        link_lines_spec(ls.drop_last(), id) + link_line_spec(ls.last(), id)
    }
}

/// The detail view's first line and classification line.
pub open spec fn text_head_spec(d: DecisionV) -> Seq<char> {
    "["@ + d.id + "] "@ + d.title + "\n  Level: "@ + d.level.spec_text() + "  Status: "@
        + d.status.spec_text() + "  Kind: "@ + d.kind.spec_text() + "  Weight: "@
        + d.weight.spec_text() + "\n"@
}

/// The detail view's qualifier and provenance lines.
pub open spec fn text_mid_spec(d: DecisionV) -> Seq<char> {
    (match d.scope {
        Some(t) => "  Scope: "@ + t + "\n"@,
        None => Seq::<char>::empty(),
    }) + (match d.rebuttal {
        Some(t) => "  Unless: "@ + t + "\n"@,
        None => Seq::<char>::empty(),
    }) + ("  Author: "@ + d.author + "\n  Created: "@ + d.created_at + "\n"@) + (
    if d.updated_at != d.created_at {
        "  Updated: "@ + d.updated_at + "\n"@
    } else {
        Seq::<char>::empty()
    })
}

/// The detail view's supersession, label and body lines.
pub open spec fn text_extra_spec(d: DecisionV) -> Seq<char> {
    (match d.superseded_by {
        Some(t) => "  Superseded by: "@ + t + "\n"@,
        None => Seq::<char>::empty(),
    }) + (if d.labels.len() > 0 {
        "  Labels: "@ + join_spec(d.labels) + "\n"@
    } else {
        Seq::<char>::empty()
    }) + (match d.body {
        Some(t) => "\n  "@ + t + "\n"@,
        None => Seq::<char>::empty(),
    })
}

/// The detail view's link lines.
pub open spec fn text_links_spec(id: Seq<char>, links: Seq<LinkV>) -> Seq<char> {
    if links.len() > 0 {
        "\n  Links:\n"@ + link_lines_spec(links, id)
    } else {
        Seq::<char>::empty()
    }
}

/// The detail view of one decision and its links.
pub open spec fn decision_text_spec(d: DecisionV, links: Seq<LinkV>) -> Seq<char> {
    text_head_spec(d) + (text_mid_spec(d) + (text_extra_spec(d) + text_links_spec(
        d.id,
        links,
    )))
}

/// Appends the first two lines.
#[verifier::rlimit(100)]
fn append_text_head(out: &mut String, decision: &Decision)
    ensures
        final(out)@ == old(out)@ + text_head_spec(decision@),
{
    out.append("[");
    out.append(decision.id.as_str());
    out.append("] ");
    out.append(decision.title.as_str());
    out.append("\n  Level: ");
    let t = decision.level.as_text();
    out.append(t.as_str());
    out.append("  Status: ");
    let t = decision.status.as_text();
    out.append(t.as_str());
    out.append("  Kind: ");
    let t = decision.kind.as_text();
    out.append(t.as_str());
    out.append("  Weight: ");
    let t = decision.weight.as_text();
    out.append(t.as_str());
    out.append("\n");
    proof {
        assert(out@ =~= old(out)@ + text_head_spec(decision@));
    }
}

/// Appends the qualifier and provenance lines.
#[verifier::rlimit(100)]
fn append_text_mid(out: &mut String, decision: &Decision)
    ensures
        final(out)@ == old(out)@ + text_mid_spec(decision@),
{
    if let Some(scope) = &decision.scope {
        out.append("  Scope: ");
        out.append(scope.as_str());
        out.append("\n");
    }
    if let Some(rebuttal) = &decision.rebuttal {
        out.append("  Unless: ");
        out.append(rebuttal.as_str());
        out.append("\n");
    }
    out.append("  Author: ");
    out.append(decision.author.as_str());
    out.append("\n  Created: ");
    out.append(decision.created_at.as_str());
    out.append("\n");
    if !crate::strutil::str_eq(decision.updated_at.as_str(), decision.created_at.as_str()) {
        out.append("  Updated: ");
        out.append(decision.updated_at.as_str());
        out.append("\n");
    }
    proof {
        assert(out@ =~= old(out)@ + text_mid_spec(decision@));
    }
}

/// Appends the supersession, label and body lines.
#[verifier::rlimit(100)]
fn append_text_extra(out: &mut String, decision: &Decision)
    ensures
        final(out)@ == old(out)@ + text_extra_spec(decision@),
{
    if let Some(superseded_by) = &decision.superseded_by {
        out.append("  Superseded by: ");
        out.append(superseded_by.as_str());
        out.append("\n");
    }
    if !decision.labels.is_empty() {
        out.append("  Labels: ");
        append_joined(out, &decision.labels);
        out.append("\n");
    }
    if let Some(body) = &decision.body {
        out.append("\n  ");
        out.append(body.as_str());
        out.append("\n");
    }
    proof {
        assert(out@ =~= old(out)@ + text_extra_spec(decision@));
    }
}

/// Appends one link's line.
#[verifier::rlimit(100)]
fn append_link_line(out: &mut String, l: &Link, id: &str)
    ensures
        final(out)@ == old(out)@ + link_line_spec(l@, id@),
{
    let outgoing = crate::strutil::str_eq(l.source_id.as_str(), id);
    if outgoing {
        out.append("    ");
        let t = l.kind.as_text();
        out.append(t.as_str());
        out.append(" -> ");
        out.append(l.target_id.as_str());
    } else {
        out.append("    <- ");
        let t = l.kind.as_text();
        out.append(t.as_str());
        out.append(" ");
        out.append(l.source_id.as_str());
    }
    if let Some(reason) = &l.reason {
        out.append(" (");
        out.append(reason.as_str());
        out.append(")");
    }
    out.append("\n");
    proof {
        assert(out@ =~= old(out)@ + link_line_spec(l@, id@));
    }
}

/// Appends the link lines.
#[verifier::rlimit(100)]
fn append_text_links(out: &mut String, id: &str, links: &Vec<Link>)
    ensures
        final(out)@ == old(out)@ + text_links_spec(id@, links.deep_view()),
{
    if links.is_empty() {
        proof {
            assert(out@ =~= old(out)@ + text_links_spec(id@, links.deep_view()));
        }
        return;
    }
    out.append("\n  Links:\n");
    let ghost lv = links.deep_view();
    let ghost base = out@;
    let n = links.len();
    proof {
        assert(link_lines_spec(lv.take(0), id@) == Seq::<char>::empty());
        assert(out@ =~= base + link_lines_spec(lv.take(0), id@));
    }
    for i in 0..n
        invariant
            n == links@.len(),
            n == lv.len(),
            lv == links.deep_view(),
            out@ == base + link_lines_spec(lv.take(i as int), id@),
    {
        proof {
            assert(lv[i as int] == links@[i as int]@);
            assert(lv.take(i + 1).drop_last() =~= lv.take(i as int));
            assert(lv.take(i + 1).last() == lv[i as int]);
        }
        append_link_line(out, &links[i], id);
        proof {
            assert(out@ =~= base + link_lines_spec(lv.take(i + 1), id@));
        }
    }
    proof {
        assert(lv.take(n as int) =~= lv);
        assert(out@ =~= old(out)@ + text_links_spec(id@, links.deep_view()));
    }
}

/// Renders one decision with its links as indented plain text.
pub fn format_decision(decision: &Decision, links: &Vec<Link>) -> (r: String)
    ensures
        r@ == decision_text_spec(decision@, links.deep_view()),
{
    let mut out = String::new();
    append_text_head(&mut out, decision);
    let ghost a = text_head_spec(decision@);
    proof {
        assert(Seq::<char>::empty() + a =~= a);
    }
    append_text_mid(&mut out, decision);
    let ghost b = text_mid_spec(decision@);
    append_text_extra(&mut out, decision);
    let ghost c = text_extra_spec(decision@);
    append_text_links(&mut out, decision.id.as_str(), links);
    let ghost d = text_links_spec(decision@.id, links.deep_view());
    proof {
        vstd::seq_lib::lemma_concat_associative(a + b, c, d);
        vstd::seq_lib::lemma_concat_associative(a, b, c + d);
        vstd::seq_lib::lemma_concat_associative(b, c, d);
        assert(out@ == a + (b + (c + d)));
    }
    out
}

/// The text padded with spaces to at least the width.
pub open spec fn pad_spec(s: Seq<char>, w: int) -> Seq<char> {
    if s.len() < w {
        s + Seq::new((w - s.len()) as nat, |i: int| ' ')
    } else {
        s
    }
}

/// Appends the text padded with spaces to at least the width.
fn append_padded(out: &mut String, s: &str, w: usize)
    ensures
        final(out)@ == old(out)@ + pad_spec(s@, w as int),
{
    out.append(s);
    let n = s.unicode_len();
    let mut i = n;
    proof {
        assert(out@ =~= old(out)@ + (s@ + Seq::new((i - n) as nat, |k: int| ' ')));
    }
    while i < w
        invariant
            n <= i,
            i <= w || i == n,
            n == s@.len(),
            out@ == old(out)@ + (s@ + Seq::new((i - n) as nat, |k: int| ' ')),
        decreases w - i,
    {
        out.append(" ");
        i = i + 1;
        proof {
            reveal_strlit(" ");
            assert(out@ =~= old(out)@ + (s@ + Seq::new((i - n) as nat, |k: int| ' ')));
        }
    }
    proof {
        if n < w {
            assert(i == w);
            assert(out@ =~= old(out)@ + pad_spec(s@, w as int));
        } else {
            assert(i == n);
            assert(out@ =~= old(out)@ + s@);
            assert(out@ =~= old(out)@ + pad_spec(s@, w as int));
        }
    }
}

/// Appends one listing line.
#[verifier::rlimit(100)]
fn append_listing_line(out: &mut String, d: &Decision)
    ensures
        final(out)@ == old(out)@ + listing_line_spec(d@),
{
    out.append(d.id.as_str());
    out.append(" | ");
    let t = d.level.as_text();
    append_padded(out, t.as_str(), 12);
    out.append(" | ");
    let t = d.status.as_text();
    append_padded(out, t.as_str(), 10);
    out.append(" | ");
    let t = d.kind.as_text();
    append_padded(out, t.as_str(), 10);
    out.append(" | ");
    out.append(d.title.as_str());
    if !d.labels.is_empty() {
        out.append(" [");
        append_joined(out, &d.labels);
        out.append("]");
    }
    out.append("\n");
    proof {
        assert(out@ =~= old(out)@ + listing_line_spec(d@));
    }
}

/// One listing line: id, padded level, status and kind, title, labels.
pub open spec fn listing_line_spec(d: DecisionV) -> Seq<char> {
    d.id + " | "@ + pad_spec(d.level.spec_text(), 12) + " | "@ + pad_spec(
        d.status.spec_text(),
        10,
    ) + " | "@ + pad_spec(d.kind.spec_text(), 10) + " | "@ + d.title + (
    if d.labels.len() > 0 {
        " ["@ + join_spec(d.labels) + "]"@
    } else {
        Seq::<char>::empty()
    }) + "\n"@
}

/// The listing lines in order; a fixed line when there is nothing to show.
pub open spec fn listing_spec(ds: Seq<DecisionV>) -> Seq<char>
    decreases ds.len(),
{
    if ds.len() == 0 {
        Seq::empty()
    } else {
        listing_spec(ds.drop_last()) + listing_line_spec(ds.last())
    }
}

/// Renders decisions one line each; says so when there are none.
pub fn format_decision_list(decisions: &Vec<Decision>) -> (r: String)
    ensures
        decisions@.len() == 0 ==> r@ == "No decisions found.\n"@,
        decisions@.len() > 0 ==> r@ == listing_spec(decisions.deep_view()),
{
    if decisions.is_empty() {
        return "No decisions found.\n".to_owned();
    }
    let mut out = String::new();
    let ghost dv = decisions.deep_view();
    let n = decisions.len();
    proof {
        assert(listing_spec(dv.take(0)) == Seq::<char>::empty());
        assert(out@ =~= listing_spec(dv.take(0)));
    }
    for i in 0..n
        invariant
            n == decisions@.len(),
            n == dv.len(),
            dv == decisions.deep_view(),
            out@ == listing_spec(dv.take(i as int)),
    {
        proof {
            assert(dv[i as int] == decisions@[i as int]@);
            assert(dv.take(i + 1).drop_last() =~= dv.take(i as int));
            assert(dv.take(i + 1).last() == dv[i as int]);
        }
        append_listing_line(&mut out, &decisions[i]);
        proof {
            assert(out@ =~= listing_spec(dv.take(i + 1)));
        }
    }
    proof {
        assert(dv.take(n as int) =~= dv);
    }
    out
}

} // verus!
