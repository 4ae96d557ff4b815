//! The interchange codec: one decision per line as a compact JSON object,
//! with a links array of (kind, source, target, reason) summaries when the
//! decision has incident links.  The codec works on UTF-8 bytes: `encode`
//! writes the canonical compact form, `decode` reads exactly that form back
//! (members in the canonical order, absent optional members defaulting),
//! so decoding what was encoded reproduces the decision and its link
//! summaries.  A record whose decision portion is well-formed but whose
//! links portion is not still decodes to the decision with no links.

use vstd::prelude::*;

use crate::error::DictumError;
use crate::model::{Decision, DecisionV, Kind, Level, LinkKind, LinkV, Status, Weight};

verus! {

use vstd::string::StrSliceExecFns;
use vstd::string::StringSliceAdditionalSpecFns;
use vstd::utf8::encode_utf8;

/// One link of a decision as the interchange format carries it: the
/// relationship without its creation timestamp.
#[derive(Debug)]
pub struct LinkSummary {
    pub kind: LinkKind,
    pub source: String,
    pub target: String,
    pub reason: Option<String>,
}

/// The mathematical content of a link summary.
pub ghost struct LinkSummaryV {
    pub kind: LinkKind,
    pub source: Seq<char>,
    pub target: Seq<char>,
    pub reason: Option<Seq<char>>,
}

impl View for LinkSummary {
    type V = LinkSummaryV;

    open spec fn view(&self) -> LinkSummaryV {
        LinkSummaryV {
            kind: self.kind,
            source: self.source@,
            target: self.target@,
            reason: self.reason.deep_view(),
        }
    }
}

impl DeepView for LinkSummary {
    type V = LinkSummaryV;

    open spec fn deep_view(&self) -> LinkSummaryV {
        self.view()
    }
}

/// The summary of a stored link.
pub open spec fn summary_of(l: LinkV) -> LinkSummaryV {
    LinkSummaryV { kind: l.kind, source: l.source_id, target: l.target_id, reason: l.reason }
}

/// The summaries of a run of links, in order.
pub open spec fn summaries_of(ls: Seq<LinkV>) -> Seq<LinkSummaryV> {
    ls.map_values(|l: LinkV| summary_of(l))
}

// The member keys, as their UTF-8 bytes.
#[verifier::opaque]
pub open spec fn key_id() -> Seq<u8> {
    seq![105u8, 100u8]
}

#[verifier::opaque]
pub open spec fn key_title() -> Seq<u8> {
    seq![116u8, 105u8, 116u8, 108u8, 101u8]
}

#[verifier::opaque]
pub open spec fn key_body() -> Seq<u8> {
    seq![98u8, 111u8, 100u8, 121u8]
}

#[verifier::opaque]
pub open spec fn key_level() -> Seq<u8> {
    seq![108u8, 101u8, 118u8, 101u8, 108u8]
}

#[verifier::opaque]
pub open spec fn key_status() -> Seq<u8> {
    seq![115u8, 116u8, 97u8, 116u8, 117u8, 115u8]
}

#[verifier::opaque]
pub open spec fn key_superseded_by() -> Seq<u8> {
    seq![
        115u8, 117u8, 112u8, 101u8, 114u8, 115u8, 101u8, 100u8, 101u8, 100u8, 95u8, 98u8,
        121u8,
    ]
}

#[verifier::opaque]
pub open spec fn key_author() -> Seq<u8> {
    seq![97u8, 117u8, 116u8, 104u8, 111u8, 114u8]
}

#[verifier::opaque]
pub open spec fn key_created_at() -> Seq<u8> {
    seq![99u8, 114u8, 101u8, 97u8, 116u8, 101u8, 100u8, 95u8, 97u8, 116u8]
}

#[verifier::opaque]
pub open spec fn key_updated_at() -> Seq<u8> {
    seq![117u8, 112u8, 100u8, 97u8, 116u8, 101u8, 100u8, 95u8, 97u8, 116u8]
}

#[verifier::opaque]
pub open spec fn key_labels() -> Seq<u8> {
    seq![108u8, 97u8, 98u8, 101u8, 108u8, 115u8]
}

#[verifier::opaque]
pub open spec fn key_kind() -> Seq<u8> {
    seq![107u8, 105u8, 110u8, 100u8]
}

#[verifier::opaque]
pub open spec fn key_weight() -> Seq<u8> {
    seq![119u8, 101u8, 105u8, 103u8, 104u8, 116u8]
}

#[verifier::opaque]
pub open spec fn key_rebuttal() -> Seq<u8> {
    seq![114u8, 101u8, 98u8, 117u8, 116u8, 116u8, 97u8, 108u8]
}

#[verifier::opaque]
pub open spec fn key_scope() -> Seq<u8> {
    seq![115u8, 99u8, 111u8, 112u8, 101u8]
}

#[verifier::opaque]
pub open spec fn key_links() -> Seq<u8> {
    seq![108u8, 105u8, 110u8, 107u8, 115u8]
}

#[verifier::opaque]
pub open spec fn key_source() -> Seq<u8> {
    seq![115u8, 111u8, 117u8, 114u8, 99u8, 101u8]
}

#[verifier::opaque]
pub open spec fn key_target() -> Seq<u8> {
    seq![116u8, 97u8, 114u8, 103u8, 101u8, 116u8]
}

#[verifier::opaque]
pub open spec fn key_reason() -> Seq<u8> {
    seq![114u8, 101u8, 97u8, 115u8, 111u8, 110u8]
}

/// The lower-case hex digit for a value below 16.
pub open spec fn hex_digit(n: int) -> u8 {
    if n < 10 {
        (48 + n) as u8
    } else {
        (87 + n) as u8
    }
}

/// How one byte of string content is written: quote, backslash and the
/// common control bytes get two-character escapes, other control bytes a
/// \u00XX escape, everything else stands as itself.
pub open spec fn esc_byte(b: u8) -> Seq<u8> {
    if b == 34 {
        seq![92u8, 34u8]
    } else if b == 92 {
        seq![92u8, 92u8]
    } else if b == 10 {
        seq![92u8, 110u8]
    } else if b == 13 {
        seq![92u8, 114u8]
    } else if b == 9 {
        seq![92u8, 116u8]
    } else if b < 32 {
        seq![92u8, 117u8, 48u8, 48u8, hex_digit(b as int / 16), hex_digit(b as int % 16)]
    } else {
        seq![b]
    }
}

/// Escaped string content.
pub open spec fn esc(s: Seq<u8>) -> Seq<u8>
    decreases s.len(),
{
    if s.len() == 0 {
        Seq::empty()
    } else {
        esc(s.drop_last()) + esc_byte(s.last())
    }
}

/// Escaping also unfolds from the front.
pub proof fn lemma_esc_front(s: Seq<u8>)
    requires
        s.len() > 0,
    ensures
        esc(s) == esc_byte(s[0]) + esc(s.drop_first()),
    decreases s.len(),
{
    if s.len() == 1 {
        assert(s.drop_last().len() == 0);
        assert(s.drop_first().len() == 0);
        assert(esc(s.drop_last()) == Seq::<u8>::empty());
        assert(esc(s.drop_first()) == Seq::<u8>::empty());
        assert(s.last() == s[0]);
        assert(esc(s) == esc(s.drop_last()) + esc_byte(s.last()));
        assert(esc(s) =~= esc_byte(s[0]) + esc(s.drop_first()));
    } else {
        lemma_esc_front(s.drop_last());
        assert(s.drop_last()[0] == s[0]);
        assert(s.drop_last().drop_first() =~= s.drop_first().drop_last());
        assert(s.drop_first().last() == s.last());
        assert(esc(s) == esc(s.drop_last()) + esc_byte(s.last()));
        assert(esc(s.drop_first()) == esc(s.drop_first().drop_last()) + esc_byte(
            s.drop_first().last(),
        ));
        assert(esc(s.drop_first().drop_last()) == esc(s.drop_last().drop_first()));
        assert(esc(s) =~= (esc_byte(s[0]) + esc(s.drop_last().drop_first())) + esc_byte(
            s.last(),
        ));
        assert(esc_byte(s[0]) + esc(s.drop_first()) =~= (esc_byte(s[0]) + esc(
            s.drop_last().drop_first(),
        )) + esc_byte(s.last()));
        assert(esc(s) =~= esc_byte(s[0]) + esc(s.drop_first()));
    }
}

/// The opening of a string member: quote, key, quote, colon, quote.
pub open spec fn head_tok(key: Seq<u8>) -> Seq<u8> {
    seq![34u8] + key + seq![34u8, 58u8, 34u8]
}

/// The opening of an array member: quote, key, quote, colon, bracket.
pub open spec fn arr_tok(key: Seq<u8>) -> Seq<u8> {
    seq![34u8] + key + seq![34u8, 58u8, 91u8]
}

/// A whole string member: its head, the escaped value, the closing quote.
pub open spec fn str_member(key: Seq<u8>, v: Seq<u8>) -> Seq<u8> {
    head_tok(key) + esc(v) + seq![34u8]
}

/// An optional string member with its leading comma; absent values write
/// nothing.
pub open spec fn opt_member(key: Seq<u8>, v: Option<Seq<char>>) -> Seq<u8> {
    match v {
        Some(t) => seq![44u8] + str_member(key, encode_utf8(t)),
        None => Seq::empty(),
    }
}

/// The items of a non-empty string array, with the closing bracket.
pub open spec fn strs_items(ls: Seq<Seq<char>>) -> Seq<u8>
    decreases ls.len(),
{
    if ls.len() == 0 {
        seq![93u8]
    } else {
        let item = seq![34u8] + esc(encode_utf8(ls[0])) + seq![34u8];
        if ls.len() == 1 {
            item + seq![93u8]
        } else {
            item + seq![44u8] + strs_items(ls.drop_first())
        }
    }
}

/// One link summary as an object.
pub open spec fn link_obj(l: LinkSummaryV) -> Seq<u8> {
    seq![123u8] + str_member(key_kind(), encode_utf8(l.kind.spec_text())) + seq![44u8]
        + str_member(key_source(), encode_utf8(l.source)) + seq![44u8] + str_member(
        key_target(),
        encode_utf8(l.target),
    ) + (match l.reason {
        Some(t) => seq![44u8] + str_member(key_reason(), encode_utf8(t)),
        None => Seq::empty(),
    }) + seq![125u8]
}

/// The items of a non-empty links array, with the closing bracket.
pub open spec fn links_items(ls: Seq<LinkSummaryV>) -> Seq<u8>
    decreases ls.len(),
{
    if ls.len() == 0 {
        seq![93u8]
    } else if ls.len() == 1 {
        link_obj(ls[0]) + seq![93u8]
    } else {
        link_obj(ls[0]) + seq![44u8] + links_items(ls.drop_first())
    }
}

/// The opening members as encoded: brace, id, title, optional body.
pub open spec fn enc_open_part(d: DecisionV) -> Seq<u8> {
    (seq![123u8] + str_member(key_id(), encode_utf8(d.id))) + (seq![44u8] + str_member(
        key_title(),
        encode_utf8(d.title),
    )) + opt_member(key_body(), d.body)
}

/// The classification members as encoded: level, status, optional
/// supersession pointer.
pub open spec fn enc_class_part(d: DecisionV) -> Seq<u8> {
    (seq![44u8] + str_member(key_level(), encode_utf8(d.level.spec_text()))) + (seq![44u8]
        + str_member(key_status(), encode_utf8(d.status.spec_text()))) + opt_member(
        key_superseded_by(),
        d.superseded_by,
    )
}

/// The provenance members as encoded: author and the two timestamps.
pub open spec fn enc_prov_part(d: DecisionV) -> Seq<u8> {
    (seq![44u8] + str_member(key_author(), encode_utf8(d.author))) + (seq![44u8]
        + str_member(key_created_at(), encode_utf8(d.created_at))) + (seq![44u8]
        + str_member(key_updated_at(), encode_utf8(d.updated_at)))
}

/// The back half as encoded: labels when any, kind, weight, optional
/// rebuttal and scope, links when any, closing brace.
pub open spec fn enc_tail_part(d: DecisionV, links: Seq<LinkSummaryV>) -> Seq<u8> {
    (if d.labels.len() > 0 {
        seq![44u8] + arr_tok(key_labels()) + strs_items(d.labels)
    } else {
        Seq::<u8>::empty()
    }) + (seq![44u8] + str_member(key_kind(), encode_utf8(d.kind.spec_text()))) + (
    seq![44u8] + str_member(key_weight(), encode_utf8(d.weight.spec_text())))
        + opt_member(key_rebuttal(), d.rebuttal) + opt_member(key_scope(), d.scope) + (
    if links.len() > 0 {
        seq![44u8] + arr_tok(key_links()) + links_items(links)
    } else {
        Seq::<u8>::empty()
    }) + seq![125u8]
}

/// The whole record: every decision field in canonical order, optional
/// members left out when absent, labels and links only when non-empty.
pub open spec fn enc_spec(d: DecisionV, links: Seq<LinkSummaryV>) -> Seq<u8> {
    enc_open_part(d) + (enc_class_part(d) + (enc_prov_part(d) + enc_tail_part(d, links)))
}

/// The bytes of the member key.
pub(crate) fn id_key() -> (v: Vec<u8>)
    ensures
        v@ == key_id(),
{
    let mut v: Vec<u8> = Vec::new();
    v.push(105u8);
    v.push(100u8);
    proof {
        reveal(key_id);
        assert(v@ =~= key_id());
    }
    v
}

/// The bytes of the member key.
pub(crate) fn title_key() -> (v: Vec<u8>)
    ensures
        v@ == key_title(),
{
    let mut v: Vec<u8> = Vec::new();
    v.push(116u8);
    v.push(105u8);
    v.push(116u8);
    v.push(108u8);
    v.push(101u8);
    proof {
        reveal(key_title);
        assert(v@ =~= key_title());
    }
    v
}

/// The bytes of the member key.
pub(crate) fn body_key() -> (v: Vec<u8>)
    ensures
        v@ == key_body(),
{
    let mut v: Vec<u8> = Vec::new();
    v.push(98u8);
    v.push(111u8);
    v.push(100u8);
    v.push(121u8);
    proof {
        reveal(key_body);
        assert(v@ =~= key_body());
    }
    v
}

/// The bytes of the member key.
pub(crate) fn level_key() -> (v: Vec<u8>)
    ensures
        v@ == key_level(),
{
    let mut v: Vec<u8> = Vec::new();
    v.push(108u8);
    v.push(101u8);
    v.push(118u8);
    v.push(101u8);
    v.push(108u8);
    proof {
        reveal(key_level);
        assert(v@ =~= key_level());
    }
    v
}

/// The bytes of the member key.
pub(crate) fn status_key() -> (v: Vec<u8>)
    ensures
        v@ == key_status(),
{
    let mut v: Vec<u8> = Vec::new();
    v.push(115u8);
    v.push(116u8);
    v.push(97u8);
    v.push(116u8);
    v.push(117u8);
    v.push(115u8);
    proof {
        reveal(key_status);
        assert(v@ =~= key_status());
    }
    v
}

/// The bytes of the member key.
pub(crate) fn superseded_by_key() -> (v: Vec<u8>)
    ensures
        v@ == key_superseded_by(),
{
    let mut v: Vec<u8> = Vec::new();
    v.push(115u8);
    v.push(117u8);
    v.push(112u8);
    v.push(101u8);
    v.push(114u8);
    v.push(115u8);
    v.push(101u8);
    v.push(100u8);
    v.push(101u8);
    v.push(100u8);
    v.push(95u8);
    v.push(98u8);
    v.push(121u8);
    proof {
        reveal(key_superseded_by);
        assert(v@ =~= key_superseded_by());
    }
    v
}

/// The bytes of the member key.
pub(crate) fn author_key() -> (v: Vec<u8>)
    ensures
        v@ == key_author(),
{
    let mut v: Vec<u8> = Vec::new();
    v.push(97u8);
    v.push(117u8);
    v.push(116u8);
    v.push(104u8);
    v.push(111u8);
    v.push(114u8);
    proof {
        reveal(key_author);
        assert(v@ =~= key_author());
    }
    v
}

/// The bytes of the member key.
pub(crate) fn created_at_key() -> (v: Vec<u8>)
    ensures
        v@ == key_created_at(),
{
    let mut v: Vec<u8> = Vec::new();
    v.push(99u8);
    v.push(114u8);
    v.push(101u8);
    v.push(97u8);
    v.push(116u8);
    v.push(101u8);
    v.push(100u8);
    v.push(95u8);
    v.push(97u8);
    v.push(116u8);
    proof {
        reveal(key_created_at);
        assert(v@ =~= key_created_at());
    }
    v
}

/// The bytes of the member key.
pub(crate) fn updated_at_key() -> (v: Vec<u8>)
    ensures
        v@ == key_updated_at(),
{
    let mut v: Vec<u8> = Vec::new();
    v.push(117u8);
    v.push(112u8);
    v.push(100u8);
    v.push(97u8);
    v.push(116u8);
    v.push(101u8);
    v.push(100u8);
    v.push(95u8);
    v.push(97u8);
    v.push(116u8);
    proof {
        reveal(key_updated_at);
        assert(v@ =~= key_updated_at());
    }
    v
}

/// The bytes of the member key.
pub(crate) fn labels_key() -> (v: Vec<u8>)
    ensures
        v@ == key_labels(),
{
    let mut v: Vec<u8> = Vec::new();
    v.push(108u8);
    v.push(97u8);
    v.push(98u8);
    v.push(101u8);
    v.push(108u8);
    v.push(115u8);
    proof {
        reveal(key_labels);
        assert(v@ =~= key_labels());
    }
    v
}

/// The bytes of the member key.
pub(crate) fn kind_key() -> (v: Vec<u8>)
    ensures
        v@ == key_kind(),
{
    let mut v: Vec<u8> = Vec::new();
    v.push(107u8);
    v.push(105u8);
    v.push(110u8);
    v.push(100u8);
    proof {
        reveal(key_kind);
        assert(v@ =~= key_kind());
    }
    v
}

/// The bytes of the member key.
pub(crate) fn weight_key() -> (v: Vec<u8>)
    ensures
        v@ == key_weight(),
{
    let mut v: Vec<u8> = Vec::new();
    v.push(119u8);
    v.push(101u8);
    v.push(105u8);
    v.push(103u8);
    v.push(104u8);
    v.push(116u8);
    proof {
        reveal(key_weight);
        assert(v@ =~= key_weight());
    }
    v
}

/// The bytes of the member key.
pub(crate) fn rebuttal_key() -> (v: Vec<u8>)
    ensures
        v@ == key_rebuttal(),
{
    let mut v: Vec<u8> = Vec::new();
    v.push(114u8);
    v.push(101u8);
    v.push(98u8);
    v.push(117u8);
    v.push(116u8);
    v.push(116u8);
    v.push(97u8);
    v.push(108u8);
    proof {
        reveal(key_rebuttal);
        assert(v@ =~= key_rebuttal());
    }
    v
}

/// The bytes of the member key.
pub(crate) fn scope_key() -> (v: Vec<u8>)
    ensures
        v@ == key_scope(),
{
    let mut v: Vec<u8> = Vec::new();
    v.push(115u8);
    v.push(99u8);
    v.push(111u8);
    v.push(112u8);
    v.push(101u8);
    proof {
        reveal(key_scope);
        assert(v@ =~= key_scope());
    }
    v
}

/// The bytes of the member key.
pub(crate) fn links_key() -> (v: Vec<u8>)
    ensures
        v@ == key_links(),
{
    let mut v: Vec<u8> = Vec::new();
    v.push(108u8);
    v.push(105u8);
    v.push(110u8);
    v.push(107u8);
    v.push(115u8);
    proof {
        reveal(key_links);
        assert(v@ =~= key_links());
    }
    v
}

/// The bytes of the member key.
pub(crate) fn source_key() -> (v: Vec<u8>)
    ensures
        v@ == key_source(),
{
    let mut v: Vec<u8> = Vec::new();
    v.push(115u8);
    v.push(111u8);
    v.push(117u8);
    v.push(114u8);
    v.push(99u8);
    v.push(101u8);
    proof {
        reveal(key_source);
        assert(v@ =~= key_source());
    }
    v
}

/// The bytes of the member key.
pub(crate) fn target_key() -> (v: Vec<u8>)
    ensures
        v@ == key_target(),
{
    let mut v: Vec<u8> = Vec::new();
    v.push(116u8);
    v.push(97u8);
    v.push(114u8);
    v.push(103u8);
    v.push(101u8);
    v.push(116u8);
    proof {
        reveal(key_target);
        assert(v@ =~= key_target());
    }
    v
}

/// The bytes of the member key.
pub(crate) fn reason_key() -> (v: Vec<u8>)
    ensures
        v@ == key_reason(),
{
    let mut v: Vec<u8> = Vec::new();
    v.push(114u8);
    v.push(101u8);
    v.push(97u8);
    v.push(115u8);
    v.push(111u8);
    v.push(110u8);
    proof {
        reveal(key_reason);
        assert(v@ =~= key_reason());
    }
    v
}

/// Appends one byte.
fn push_one(out: &mut Vec<u8>, b: u8)
    ensures
        final(out)@ == old(out)@ + seq![b],
{
    out.push(b);
    proof {
        assert(out@ =~= old(out)@ + seq![b]);
    }
}

/// Appends a run of bytes.
fn push_bytes(out: &mut Vec<u8>, v: &Vec<u8>)
    ensures
        final(out)@ == old(out)@ + v@,
{
    let n = v.len();
    for i in 0..n
        invariant
            n == v@.len(),
            out@ == old(out)@ + v@.take(i as int),
    {
        out.push(v[i]);
        proof {
            assert(old(out)@ + v@.take(i + 1) =~= (old(out)@ + v@.take(i as int)).push(
                v@[i as int],
            ));
        }
    }
    proof {
        assert(v@.take(n as int) =~= v@);
    }
}

/// The lower-case hex digit of a value below 16.
fn hex_digit_exec(n: u8) -> (r: u8)
    requires
        n < 16,
    ensures
        r == hex_digit(n as int),
{
    if n < 10 {
        48 + n
    } else {
        87 + n
    }
}

/// Appends string content in escaped form.
fn push_esc(out: &mut Vec<u8>, v: &[u8])
    ensures
        final(out)@ == old(out)@ + esc(v@),
{
    let n = v.len();
    proof {
        assert(esc(v@.take(0)) =~= Seq::<u8>::empty());
        assert(out@ =~= old(out)@ + esc(v@.take(0)));
    }
    for i in 0..n
        invariant
            n == v@.len(),
            out@ == old(out)@ + esc(v@.take(i as int)),
    {
        let ghost pre = out@;
        let b = v[i];
        if b == 34 {
            out.push(92);
            out.push(34);
        } else if b == 92 {
            out.push(92);
            out.push(92);
        } else if b == 10 {
            out.push(92);
            out.push(110);
        } else if b == 13 {
            out.push(92);
            out.push(114);
        } else if b == 9 {
            out.push(92);
            out.push(116);
        } else if b < 32 {
            out.push(92);
            out.push(117);
            out.push(48);
            out.push(48);
            out.push(hex_digit_exec(b / 16));
            out.push(hex_digit_exec(b % 16));
        } else {
            out.push(b);
        }
        proof {
            assert(out@ =~= pre + esc_byte(v@[i as int]));
            assert(v@.take(i + 1).drop_last() =~= v@.take(i as int));
            assert(v@.take(i + 1).last() == v@[i as int]);
            assert(esc(v@.take(i + 1)) == esc(v@.take(i as int)) + esc_byte(v@[i as int]));
            assert(out@ =~= old(out)@ + esc(v@.take(i + 1)));
        }
    }
    proof {
        assert(v@.take(n as int) =~= v@);
    }
}

/// Appends a whole string member: quote, key, quote, colon, quoted escaped
/// value.
fn push_str_member(out: &mut Vec<u8>, key: &Vec<u8>, v: &str)
    ensures
        final(out)@ == old(out)@ + str_member(key@, v.spec_bytes()),
{
    out.push(34);
    push_bytes(out, key);
    out.push(34);
    out.push(58);
    out.push(34);
    push_esc(out, v.as_bytes());
    out.push(34);
    proof {
        assert(out@ =~= old(out)@ + str_member(key@, v.spec_bytes()));
    }
}

/// Appends one whole member behind its separator.
fn push_member_sep(out: &mut Vec<u8>, lead: u8, key: &Vec<u8>, v: &str)
    ensures
        final(out)@ == old(out)@ + (seq![lead] + str_member(key@, v.spec_bytes())),
{
    push_one(out, lead);
    push_str_member(out, key, v);
    proof {
        assert(out@ =~= old(out)@ + (seq![lead] + str_member(key@, v.spec_bytes())));
    }
}

/// Appends an array member's head: quote, key, quote, colon, bracket.
fn push_arr_head(out: &mut Vec<u8>, key: &Vec<u8>)
    ensures
        final(out)@ == old(out)@ + arr_tok(key@),
{
    out.push(34);
    push_bytes(out, key);
    out.push(34);
    out.push(58);
    out.push(91);
    proof {
        assert(out@ =~= old(out)@ + arr_tok(key@));
    }
}

/// Appends one link summary object.
fn push_link_obj(out: &mut Vec<u8>, kind: LinkKind, source: &str, target: &str, reason: &Option<String>)
    ensures
        final(out)@ == old(out)@ + link_obj(
            (LinkSummaryV {
                kind: kind,
                source: source@,
                target: target@,
                reason: reason.deep_view(),
            }),
        ),
{
    out.push(123);
    let kk = kind_key();
    let kt = kind.as_text();
    push_str_member(out, &kk, kt.as_str());
    out.push(44);
    let ks = source_key();
    push_str_member(out, &ks, source);
    out.push(44);
    let ktg = target_key();
    push_str_member(out, &ktg, target);
    if let Some(t) = reason {
        out.push(44);
        let kr = reason_key();
        push_str_member(out, &kr, t.as_str());
    }
    out.push(125);
    proof {
        assert(out@ =~= old(out)@ + link_obj(
            (LinkSummaryV {
                kind: kind,
                source: source@,
                target: target@,
                reason: reason.deep_view(),
            }),
        ));
    }
}

/// Appends the opening members.
#[verifier::rlimit(100)]
fn encode_open(out: &mut Vec<u8>, decision: &Decision)
    ensures
        final(out)@ == old(out)@ + enc_open_part(decision@),
{
    let ghost start = out@;
    let k = id_key();
    push_member_sep(out, 123, &k, decision.id.as_str());
    let ghost mut g: Seq<u8> = seq![123u8] + str_member(key_id(), encode_utf8(decision@.id));
    proof {
        assert(out@ == start + g);
    }
    let k = title_key();
    push_member_sep(out, 44, &k, decision.title.as_str());
    proof {
        let gp = g;
        let p = seq![44u8] + str_member(key_title(), encode_utf8(decision@.title));
        g = g + p;
        vstd::seq_lib::lemma_concat_associative(start, gp, p);
        assert(out@ == start + g);
    }
    if let Some(b) = &decision.body {
        let k = body_key();
        push_member_sep(out, 44, &k, b.as_str());
    }
    proof {
        let gp = g;
        let p = opt_member(key_body(), decision@.body);
        g = g + p;
        vstd::seq_lib::lemma_concat_associative(start, gp, p);
        if decision@.body is None {
            assert(gp + p =~= gp);
        }
        assert(out@ == start + g);
        assert(g == enc_open_part(decision@));
    }
}

/// Appends the classification members.
#[verifier::rlimit(100)]
fn encode_class(out: &mut Vec<u8>, decision: &Decision)
    ensures
        final(out)@ == old(out)@ + enc_class_part(decision@),
{
    let ghost start = out@;
    let ghost mut g: Seq<u8> = Seq::<u8>::empty();
    // the classification members
    let k = level_key();
    let t = decision.level.as_text();
    push_member_sep(out, 44, &k, t.as_str());
    proof {
        g = seq![44u8] + str_member(key_level(), encode_utf8(decision@.level.spec_text()));
        assert(out@ == start + g);
    }
    let k = status_key();
    let t = decision.status.as_text();
    push_member_sep(out, 44, &k, t.as_str());
    proof {
        let gp = g;
        let p = seq![44u8] + str_member(key_status(), encode_utf8(decision@.status.spec_text()));
        g = g + p;
        vstd::seq_lib::lemma_concat_associative(start, gp, p);
        assert(out@ == start + g);
    }
    if let Some(b) = &decision.superseded_by {
        let k = superseded_by_key();
        push_member_sep(out, 44, &k, b.as_str());
    }
    proof {
        let gp = g;
        let p = opt_member(key_superseded_by(), decision@.superseded_by);
        g = g + p;
        vstd::seq_lib::lemma_concat_associative(start, gp, p);
        if decision@.superseded_by is None {
            assert(gp + p =~= gp);
        }
        assert(out@ == start + g);
        assert(g == enc_class_part(decision@));
    }
}

/// Appends the provenance members.
#[verifier::rlimit(100)]
fn encode_prov(out: &mut Vec<u8>, decision: &Decision)
    ensures
        final(out)@ == old(out)@ + enc_prov_part(decision@),
{
    let ghost start = out@;
    let ghost mut g: Seq<u8> = Seq::<u8>::empty();
    // the provenance members
    let k = author_key();
    push_member_sep(out, 44, &k, decision.author.as_str());
    proof {
        g = seq![44u8] + str_member(key_author(), encode_utf8(decision@.author));
        assert(out@ == start + g);
    }
    let k = created_at_key();
    push_member_sep(out, 44, &k, decision.created_at.as_str());
    proof {
        let gp = g;
        let p = seq![44u8] + str_member(key_created_at(), encode_utf8(decision@.created_at));
        g = g + p;
        vstd::seq_lib::lemma_concat_associative(start, gp, p);
        assert(out@ == start + g);
    }
    let k = updated_at_key();
    push_member_sep(out, 44, &k, decision.updated_at.as_str());
    proof {
        let gp = g;
        let p = seq![44u8] + str_member(key_updated_at(), encode_utf8(decision@.updated_at));
        g = g + p;
        vstd::seq_lib::lemma_concat_associative(start, gp, p);
        assert(out@ == start + g);
        assert(g == enc_prov_part(decision@));
    }
}

/// Appends the back half.
#[verifier::rlimit(100)]
#[verifier::spinoff_prover]
fn encode_tail(out: &mut Vec<u8>, decision: &Decision, links: &Vec<crate::model::Link>)
    ensures
        final(out)@ == old(out)@ + enc_tail_part(decision@, summaries_of(links.deep_view())),
{
    let ghost start = out@;
    let ghost mut g: Seq<u8> = Seq::<u8>::empty();
    // the back half
    let ghost lv = decision.labels.deep_view();
    let ghost labels_piece: Seq<u8> = if decision@.labels.len() > 0 {
        seq![44u8] + arr_tok(key_labels()) + strs_items(decision@.labels)
    } else {
        Seq::<u8>::empty()
    };
    if !decision.labels.is_empty() {
        let ghost before = out@;
        push_one(out, 44);
        let k = labels_key();
        push_arr_head(out, &k);
        let ghost base = out@;
        let n = decision.labels.len();
        proof {
            assert(lv.skip(0) =~= lv);
        }
        for i in 0..n
            invariant
                n == decision.labels@.len(),
                n == lv.len(),
                lv == decision.labels.deep_view(),
                base + strs_items(lv) == out@ + strs_items(lv.skip(i as int)),
        {
            let ghost pre = out@;
            proof {
                assert(lv[i as int] == decision.labels@[i as int]@);
                assert(lv.skip(i as int)[0] == lv[i as int]);
                assert(lv.skip(i as int).drop_first() =~= lv.skip(i + 1));
            }
            push_one(out, 34);
            push_esc(out, decision.labels[i].as_str().as_bytes());
            push_one(out, 34);
            if i + 1 < n {
                push_one(out, 44);
                proof {
                    assert(out@ =~= pre + (seq![34u8] + esc(encode_utf8(lv[i as int]))
                        + seq![34u8]) + seq![44u8]);
                    assert(strs_items(lv.skip(i as int)) == (seq![34u8] + esc(
                        encode_utf8(lv[i as int]),
                    ) + seq![34u8]) + seq![44u8] + strs_items(lv.skip(i + 1)));
                }
            } else {
                proof {
                    assert(lv.skip(i as int).len() == 1);
                    assert(out@ =~= pre + (seq![34u8] + esc(encode_utf8(lv[i as int]))
                        + seq![34u8]));
                    assert(strs_items(lv.skip(i as int)) == (seq![34u8] + esc(
                        encode_utf8(lv[i as int]),
                    ) + seq![34u8]) + seq![93u8]);
                    assert(lv.skip(i + 1).len() == 0);
                    assert(strs_items(lv.skip(i + 1)) == seq![93u8]);
                }
            }
        }
        push_one(out, 93);
        proof {
            assert(lv.skip(n as int).len() == 0);
            assert(strs_items(lv.skip(n as int)) == seq![93u8]);
            assert(out@ =~= base + strs_items(lv));
            assert(out@ =~= before + labels_piece);
        }
    }
    proof {
        g = labels_piece;
        if decision@.labels.len() == 0 {
            assert(start + g =~= start);
        }
        assert(out@ == start + g);
    }
    let k = kind_key();
    let t = decision.kind.as_text();
    push_member_sep(out, 44, &k, t.as_str());
    proof {
        let gp = g;
        let p = seq![44u8] + str_member(key_kind(), encode_utf8(decision@.kind.spec_text()));
        g = g + p;
        vstd::seq_lib::lemma_concat_associative(start, gp, p);
        assert(out@ == start + g);
    }
    let k = weight_key();
    let t = decision.weight.as_text();
    push_member_sep(out, 44, &k, t.as_str());
    proof {
        let gp = g;
        let p = seq![44u8] + str_member(key_weight(), encode_utf8(decision@.weight.spec_text()));
        g = g + p;
        vstd::seq_lib::lemma_concat_associative(start, gp, p);
        assert(out@ == start + g);
    }
    if let Some(b) = &decision.rebuttal {
        let k = rebuttal_key();
        push_member_sep(out, 44, &k, b.as_str());
    }
    proof {
        let gp = g;
        let p = opt_member(key_rebuttal(), decision@.rebuttal);
        g = g + p;
        vstd::seq_lib::lemma_concat_associative(start, gp, p);
        if decision@.rebuttal is None {
            assert(gp + p =~= gp);
        }
        assert(out@ == start + g);
    }
    if let Some(b) = &decision.scope {
        let k = scope_key();
        push_member_sep(out, 44, &k, b.as_str());
    }
    proof {
        let gp = g;
        let p = opt_member(key_scope(), decision@.scope);
        g = g + p;
        vstd::seq_lib::lemma_concat_associative(start, gp, p);
        if decision@.scope is None {
            assert(gp + p =~= gp);
        }
        assert(out@ == start + g);
    }
    let ghost sv = summaries_of(links.deep_view());
    let ghost links_piece: Seq<u8> = if sv.len() > 0 {
        seq![44u8] + arr_tok(key_links()) + links_items(sv)
    } else {
        Seq::<u8>::empty()
    };
    if !links.is_empty() {
        let ghost before = out@;
        push_one(out, 44);
        let k = links_key();
        push_arr_head(out, &k);
        let ghost base = out@;
        let n = links.len();
        proof {
            assert(sv.len() == links.deep_view().len());
            assert(sv.skip(0) =~= sv);
        }
        for i in 0..n
            invariant
                n == links@.len(),
                n == sv.len(),
                sv == summaries_of(links.deep_view()),
                base + links_items(sv) == out@ + links_items(sv.skip(i as int)),
        {
            let ghost pre = out@;
            proof {
                assert(links.deep_view()[i as int] == links@[i as int]@);
                assert(sv[i as int] == summary_of(links.deep_view()[i as int]));
                assert(sv.skip(i as int)[0] == sv[i as int]);
                assert(sv.skip(i as int).drop_first() =~= sv.skip(i + 1));
            }
            push_link_obj(
                out,
                links[i].kind,
                links[i].source_id.as_str(),
                links[i].target_id.as_str(),
                &links[i].reason,
            );
            if i + 1 < n {
                push_one(out, 44);
                proof {
                    assert(out@ =~= pre + link_obj(sv[i as int]) + seq![44u8]);
                    assert(links_items(sv.skip(i as int)) == link_obj(sv[i as int])
                        + seq![44u8] + links_items(sv.skip(i + 1)));
                }
            } else {
                proof {
                    assert(sv.skip(i as int).len() == 1);
                    assert(out@ =~= pre + link_obj(sv[i as int]));
                    assert(links_items(sv.skip(i as int)) == link_obj(sv[i as int])
                        + seq![93u8]);
                    assert(links_items(sv.skip(i + 1)) == seq![93u8]);
                }
            }
        }
        push_one(out, 93);
        proof {
            assert(links_items(sv.skip(n as int)) == seq![93u8]);
            assert(out@ =~= base + links_items(sv));
            assert(out@ =~= before + links_piece);
        }
    }
    proof {
        let gp = g;
        g = g + links_piece;
        vstd::seq_lib::lemma_concat_associative(start, gp, links_piece);
        if sv.len() == 0 {
            assert(gp + links_piece =~= gp);
        }
        assert(out@ == start + g);
    }
    push_one(out, 125);
    proof {
        let gp = g;
        let p = seq![125u8];
        g = g + p;
        vstd::seq_lib::lemma_concat_associative(start, gp, p);
        assert(out@ == start + g);
        assert(g == enc_tail_part(decision@, sv));
    }
}

/// Writes the canonical compact record for a decision and its incident
/// links.
pub fn encode(decision: &Decision, links: &Vec<crate::model::Link>) -> (r: Vec<u8>)
    ensures
        r@ == enc_spec(decision@, summaries_of(links.deep_view())),
{
    let mut out: Vec<u8> = Vec::new();
    encode_open(&mut out, decision);
    let ghost a = enc_open_part(decision@);
    proof {
        assert(Seq::<u8>::empty() + a =~= a);
    }
    encode_class(&mut out, decision);
    let ghost b = enc_class_part(decision@);
    encode_prov(&mut out, decision);
    let ghost c = enc_prov_part(decision@);
    encode_tail(&mut out, decision, links);
    let ghost d = enc_tail_part(decision@, summaries_of(links.deep_view()));
    proof {
        vstd::seq_lib::lemma_concat_associative(a + b, c, d);
        vstd::seq_lib::lemma_concat_associative(a, b, c + d);
        vstd::seq_lib::lemma_concat_associative(b, c, d);
        assert(out@ == a + (b + (c + d)));
    }
    out
}

} // verus!
