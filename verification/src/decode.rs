//! Decoding of interchange records: a recursive-descent reader for the
//! canonical compact form the encoder writes, and the law that decoding
//! undoes encoding.

use vstd::prelude::*;

use crate::codec::{
    arr_tok, esc, esc_byte, head_tok, hex_digit, key_author, key_body, key_created_at,
    key_id, key_kind, key_labels, key_rebuttal, key_level, key_links, key_reason, key_scope,
    key_source, key_status, key_superseded_by, key_target, key_title, key_updated_at,
    key_weight, str_member, LinkSummary, LinkSummaryV,
};
use crate::error::DictumError;
use crate::model::{Decision, DecisionV, Kind, Level, LinkKind, Status, Weight};

verus! {

use vstd::string::StringSliceAdditionalSpecFns;
use vstd::utf8::{decode_utf8, encode_utf8, valid_utf8};

/// The value of one hex digit character, if it is one.
pub open spec fn hex_val(b: u8) -> Option<int> {
    if 48 <= b <= 57 {
        Some((b - 48) as int)
    } else if 97 <= b <= 102 {
        Some((b - 87) as int)
    } else if 65 <= b <= 70 {
        Some((b - 55) as int)
    } else {
        None
    }
}

/// The byte a two-character escape stands for, if the second character
/// forms one.
pub open spec fn unesc2(e: u8) -> Option<u8> {
    if e == 34 {
        Some(34u8)
    } else if e == 92 {
        Some(92u8)
    } else if e == 47 {
        Some(47u8)
    } else if e == 110 {
        Some(10u8)
    } else if e == 114 {
        Some(13u8)
    } else if e == 116 {
        Some(9u8)
    } else if e == 98 {
        Some(8u8)
    } else if e == 102 {
        Some(12u8)
    } else {
        None
    }
}

/// Reads string content up to and over the closing quote, undoing escapes;
/// \uXXXX escapes are accepted for code points below 128.  Returns the
/// content bytes and what follows the closing quote.
pub open spec fn parse_content(s: Seq<u8>) -> Option<(Seq<u8>, Seq<u8>)>
    decreases s.len(),
{
    if s.len() == 0 {
        None
    } else if s[0] == 34 {
        Some((Seq::empty(), s.drop_first()))
    } else if s[0] == 92 {
        if s.len() < 2 {
            None
        } else if s[1] == 117 {
            if s.len() < 6 {
                None
            } else {
                match (hex_val(s[2]), hex_val(s[3]), hex_val(s[4]), hex_val(s[5])) {
                    (Some(h1), Some(h2), Some(h3), Some(h4)) => {
                        let code = h1 * 4096 + h2 * 256 + h3 * 16 + h4;
                        if code < 128 {
                            match parse_content(s.skip(6)) {
                                Some((t, r)) => Some((seq![code as u8] + t, r)),
                                None => None,
                            }
                        } else {
                            None
                        }
                    },
                    _ => None,
                }
            }
        } else {
            match unesc2(s[1]) {
                Some(b) => match parse_content(s.skip(2)) {
                    Some((t, r)) => Some((seq![b] + t, r)),
                    None => None,
                },
                None => None,
            }
        }
    } else {
        match parse_content(s.drop_first()) {
            Some((t, r)) => Some((seq![s[0]] + t, r)),
            None => None,
        }
    }
}

/// Whatever content the parser returns is shorter than what it read.
pub proof fn lemma_parse_content_shrinks(s: Seq<u8>)
    ensures
        parse_content(s) matches Some(p) ==> p.1.len() < s.len(),
    decreases s.len(),
{
    if s.len() == 0 {
    } else if s[0] == 34 {
    } else if s[0] == 92 {
        if s.len() >= 6 {
            lemma_parse_content_shrinks(s.skip(6));
        }
        if s.len() >= 2 {
            lemma_parse_content_shrinks(s.skip(2));
        }
    } else {
        lemma_parse_content_shrinks(s.drop_first());
        assert(s.drop_first().len() < s.len());
    }
}

/// Consumes an exact token, or refuses.
pub open spec fn parse_exact(s: Seq<u8>, tok: Seq<u8>) -> Option<Seq<u8>> {
    if tok.len() <= s.len() && s.take(tok.len() as int) == tok {
        Some(s.skip(tok.len() as int))
    } else {
        None
    }
}

/// A required string member behind its separator: the token, then content
/// that must be valid UTF-8.
pub open spec fn p_req(s: Seq<u8>, lead: u8, key: Seq<u8>) -> Option<(Seq<char>, Seq<u8>)> {
    match parse_exact(s, seq![lead] + head_tok(key)) {
        Some(r) => match parse_content(r) {
            Some((cb, r2)) => if vstd::utf8::valid_utf8(cb) {
                Some((vstd::utf8::decode_utf8(cb), r2))
            } else {
                None
            },
            None => None,
        },
        None => None,
    }
}

/// An optional string member: absent tokens consume nothing; a present
/// token must be followed by well-formed, valid content.
pub open spec fn p_opt(s: Seq<u8>, key: Seq<u8>) -> Option<(Option<Seq<char>>, Seq<u8>)> {
    if parse_exact(s, seq![44u8] + head_tok(key)) is Some {
        match p_req(s, 44u8, key) {
            Some((t, r)) => Some((Some(t), r)),
            None => None,
        }
    } else {
        Some((None, s))
    }
}

/// The items of a string array after its opening bracket, up to and over
/// the closing bracket; every item must be valid UTF-8.
pub open spec fn parse_strs(s: Seq<u8>) -> Option<(Seq<Seq<char>>, Seq<u8>)>
    decreases s.len(),
{
    if s.len() == 0 {
        None
    } else if s[0] == 93 {
        Some((Seq::empty(), s.drop_first()))
    } else if s[0] == 34 {
        match parse_content(s.drop_first()) {
            Some((v, r)) => if vstd::utf8::valid_utf8(v) {
                let t = vstd::utf8::decode_utf8(v);
                if r.len() == 0 {
                    None
                } else if r[0] == 93 {
                    Some((seq![t], r.drop_first()))
                } else if r[0] == 44 && r.len() < s.len() {
                    match parse_strs(r.drop_first()) {
                        Some((ts, r2)) => if ts.len() > 0 {
                            Some((seq![t] + ts, r2))
                        } else {
                            None
                        },
                        None => None,
                    }
                } else {
                    None
                }
            } else {
                None
            },
            None => None,
        }
    } else {
        None
    }
}

/// One link object of the links array, in canonical member order, the
/// reason optional.
pub open spec fn parse_link_obj(s: Seq<u8>) -> Option<(LinkSummaryV, Seq<u8>)> {
    match p_req(s, 123u8, key_kind()) {
        Some((kt, r1)) => match LinkKind::link_kind_of_text(kt) {
            Some(kind) => match p_req(r1, 44u8, key_source()) {
                Some((src, r2)) => match p_req(r2, 44u8, key_target()) {
                    Some((tgt, r3)) => {
                        if parse_exact(r3, seq![44u8] + head_tok(key_reason())) is Some {
                            match p_req(r3, 44u8, key_reason()) {
                                Some((rsn, r4)) => {
                                    if r4.len() > 0 && r4[0] == 125 {
                                        Some(
                                            (
                                                LinkSummaryV {
                                                    kind: kind,
                                                    source: src,
                                                    target: tgt,
                                                    reason: Some(rsn),
                                                },
                                                r4.drop_first(),
                                            ),
                                        )
                                    } else {
                                        None
                                    }
                                },
                                None => None,
                            }
                        } else if r3.len() > 0 && r3[0] == 125 {
                            Some(
                                (
                                    LinkSummaryV {
                                        kind: kind,
                                        source: src,
                                        target: tgt,
                                        reason: None,
                                    },
                                    r3.drop_first(),
                                ),
                            )
                        } else {
                            None
                        }
                    },
                    None => None,
                },
                None => None,
            },
            None => None,
        },
        None => None,
    }
}

/// The items of the links array after its opening bracket, up to and over
/// the closing bracket.
pub open spec fn parse_links(s: Seq<u8>) -> Option<(Seq<LinkSummaryV>, Seq<u8>)>
    decreases s.len(),
{
    if s.len() == 0 {
        None
    } else if s[0] == 93 {
        Some((Seq::empty(), s.drop_first()))
    } else {
        match parse_link_obj(s) {
            Some((l, r)) => {
                if r.len() == 0 {
                    None
                } else if r[0] == 93 {
                    Some((seq![l], r.drop_first()))
                } else if r[0] == 44 && r.len() < s.len() {
                    match parse_links(r.drop_first()) {
                        Some((ls, r2)) => if ls.len() > 0 {
                            Some((seq![l] + ls, r2))
                        } else {
                            None
                        },
                        None => None,
                    }
                } else {
                    None
                }
            },
            None => None,
        }
    }
}

/// What decoding a record yields: the decision and its link summaries.
/// Members come in the canonical order; absent optional members default
/// (no body, superseded_by, rebuttal or scope; no labels; kind choice;
/// weight should); a present links member that does not parse leaves the
/// decision with no links.
pub open spec fn dec_spec(s: Seq<u8>) -> Option<(DecisionV, Seq<LinkSummaryV>)> {
    match p_req(s, 123u8, key_id()) {
        Some((id, s1)) => match p_req(s1, 44u8, key_title()) {
            Some((title, s2)) => match p_opt(s2, key_body()) {
                Some((body, s3)) => dec_class(id, title, body, s3),
                None => None,
            },
            None => None,
        },
        None => None,
    }
}

/// The classification members: level, status and the optional supersession
/// pointer.
pub open spec fn dec_class(
    id: Seq<char>,
    title: Seq<char>,
    body: Option<Seq<char>>,
    s: Seq<u8>,
) -> Option<(DecisionV, Seq<LinkSummaryV>)> {
    match p_req(s, 44u8, key_level()) {
        Some((lt, s4)) => match Level::level_of_text(lt) {
            Some(level) => match p_req(s4, 44u8, key_status()) {
                Some((st, s5)) => match Status::status_of_text(st) {
                    Some(status) => match p_opt(s5, key_superseded_by()) {
                        Some((superseded_by, s6)) => dec_prov(
                            id,
                            title,
                            body,
                            level,
                            status,
                            superseded_by,
                            s6,
                        ),
                        None => None,
                    },
                    None => None,
                },
                None => None,
            },
            None => None,
        },
        None => None,
    }
}

/// The provenance members: author and the two timestamps.
pub open spec fn dec_prov(
    id: Seq<char>,
    title: Seq<char>,
    body: Option<Seq<char>>,
    level: Level,
    status: Status,
    superseded_by: Option<Seq<char>>,
    s: Seq<u8>,
) -> Option<(DecisionV, Seq<LinkSummaryV>)> {
    match p_req(s, 44u8, key_author()) {
        Some((author, s7)) => match p_req(s7, 44u8, key_created_at()) {
            Some((created_at, s8)) => match p_req(s8, 44u8, key_updated_at()) {
                Some((updated_at, s9)) => dec_tail(
                    DecisionV {
                        id,
                        title,
                        body,
                        level,
                        status,
                        superseded_by,
                        author,
                        created_at,
                        updated_at,
                        labels: Seq::empty(),
                        kind: Kind::Choice,
                        weight: Weight::Should,
                        rebuttal: None,
                        scope: None,
                    },
                    s9,
                ),
                None => None,
            },
            None => None,
        },
        None => None,
    }
}

/// The back half of the record, first step: the labels member (or its
/// absence), then the classification members.
pub open spec fn dec_tail(d: DecisionV, s: Seq<u8>) -> Option<
    (DecisionV, Seq<LinkSummaryV>),
> {
    let ltok = seq![44u8] + arr_tok(key_labels());
    if parse_exact(s, ltok) is Some {
        match parse_exact(s, ltok) {
            Some(r) => match parse_strs(r) {
                Some((labels, sa)) => dec_kw(DecisionV { labels: labels, ..d }, sa),
                None => None,
            },
            None => None,
        }
    } else {
        dec_kw(d, s)
    }
}

/// The kind and weight members; an absent member leaves the default.
pub open spec fn dec_kw(d: DecisionV, s: Seq<u8>) -> Option<
    (DecisionV, Seq<LinkSummaryV>),
> {
    match p_opt(s, key_kind()) {
        Some((ko, sb)) => {
            let kind_step: Option<Kind> = match ko {
                Some(kt) => Kind::kind_of_text(kt),
                None => Some(Kind::Choice),
            };
            match kind_step {
                Some(kind) => match p_opt(sb, key_weight()) {
                    Some((wo, sc)) => {
                        let weight_step: Option<Weight> = match wo {
                            Some(wt) => Weight::weight_of_text(wt),
                            None => Some(Weight::Should),
                        };
                        match weight_step {
                            Some(weight) => dec_opts(
                                DecisionV { kind: kind, weight: weight, ..d },
                                sc,
                            ),
                            None => None,
                        }
                    },
                    None => None,
                },
                None => None,
            }
        },
        None => None,
    }
}

/// The rebuttal and scope members, then the links member and the record's
/// end.
pub open spec fn dec_opts(d: DecisionV, s: Seq<u8>) -> Option<
    (DecisionV, Seq<LinkSummaryV>),
> {
    match p_opt(s, key_rebuttal()) {
        Some((rebuttal, sd)) => match p_opt(sd, key_scope()) {
            Some((scope, se)) => dec_links(
                DecisionV { rebuttal: rebuttal, scope: scope, ..d },
                se,
            ),
            None => None,
        },
        None => None,
    }
}

/// The links member and the record's end.  A present links member that
/// does not parse still yields the decision, with no links.
pub open spec fn dec_links(d: DecisionV, s: Seq<u8>) -> Option<
    (DecisionV, Seq<LinkSummaryV>),
> {
    match parse_exact(s, seq![44u8] + arr_tok(key_links())) {
        Some(r) => match parse_links(r) {
            Some((ls, r2)) => if r2.len() == 1 && r2[0] == 125 {
                Some((d, ls))
            } else {
                None
            },
            None => Some((d, Seq::empty())),
        },
        None => if s.len() == 1 && s[0] == 125 {
            Some((d, Seq::empty()))
        } else {
            None
        },
    }
}


/// Relies on String::from_utf8 (std): returns the string that a valid
/// UTF-8 byte run encodes, and nothing for an invalid run.
#[verifier::external_body]
fn try_utf8_string(bytes: Vec<u8>) -> (r: Option<String>)
    ensures
        match r {
            Some(s) => valid_utf8(bytes@) && s@ == decode_utf8(bytes@),
            None => !valid_utf8(bytes@),
        },
{
    String::from_utf8(bytes).ok()
}

/// Turns record bytes into text.  Succeeds exactly on valid UTF-8, with
/// the text the bytes encode; refuses anything else.
pub fn bytes_to_text(bytes: Vec<u8>) -> (r: Result<String, DictumError>)
    ensures
        match r {
            Ok(s) => valid_utf8(bytes@) && s@ == decode_utf8(bytes@),
            Err(e) => !valid_utf8(bytes@) && (e
                matches DictumError::SerializationError(_)),
        },
{
    match try_utf8_string(bytes) {
        Some(s) => Ok(s),
        None => Err(
            DictumError::SerializationError("the record is not valid UTF-8".to_owned()),
        ),
    }
}

/// The value of one hex digit character.
fn hex_val_exec(b: u8) -> (r: Option<u8>)
    ensures
        match r {
            Some(v) => hex_val(b) == Some(v as int),
            None => hex_val(b) is None,
        },
{
    if 48 <= b && b <= 57 {
        Some(b - 48)
    } else if 97 <= b && b <= 102 {
        Some(b - 87)
    } else if 65 <= b && b <= 70 {
        Some(b - 55)
    } else {
        None
    }
}

/// The byte behind a two-character escape.
fn unesc2_exec(e: u8) -> (r: Option<u8>)
    ensures
        r == unesc2(e),
{
    if e == 34 {
        Some(34)
    } else if e == 92 {
        Some(92)
    } else if e == 47 {
        Some(47)
    } else if e == 110 {
        Some(10)
    } else if e == 114 {
        Some(13)
    } else if e == 116 {
        Some(9)
    } else if e == 98 {
        Some(8)
    } else if e == 102 {
        Some(12)
    } else {
        None
    }
}

/// Reads string content from position `i` (after the opening quote).
fn parse_content_exec(s: &[u8], i: usize) -> (r: Option<(Vec<u8>, usize)>)
    requires
        i <= s@.len(),
    ensures
        match r {
            Some(p) => p.1 <= s@.len() && parse_content(s@.skip(i as int)) == Some(
                (p.0@, s@.skip(p.1 as int)),
            ),
            None => parse_content(s@.skip(i as int)) is None,
        },
    decreases s@.len() - i,
{
    let n = s.len();
    let ghost ss = s@.skip(i as int);
    if i == n {
        return None;
    }
    let b = s[i];
    proof {
        assert(ss[0] == s@[i as int]);
    }
    if b == 34 {
        proof {
            assert(ss.drop_first() =~= s@.skip(i + 1));
        }
        let empty: Vec<u8> = Vec::new();
        proof {
            assert(empty@ =~= Seq::<u8>::empty());
        }
        return Some((empty, i + 1));
    }
    if b == 92 {
        if n - i < 2 {
            proof {
                assert(ss.len() < 2);
            }
            return None;
        }
        let e = s[i + 1];
        proof {
            assert(ss[1] == s@[i + 1]);
        }
        if e == 117 {
            if n - i < 6 {
                proof {
                    assert(ss.len() < 6);
                }
                return None;
            }
            proof {
                assert(ss[2] == s@[i + 2]);
                assert(ss[3] == s@[i + 3]);
                assert(ss[4] == s@[i + 4]);
                assert(ss[5] == s@[i + 5]);
            }
            let h1 = match hex_val_exec(s[i + 2]) {
                Some(v) => v,
                None => {
                    return None;
                },
            };
            let h2 = match hex_val_exec(s[i + 3]) {
                Some(v) => v,
                None => {
                    return None;
                },
            };
            let h3 = match hex_val_exec(s[i + 4]) {
                Some(v) => v,
                None => {
                    return None;
                },
            };
            let h4 = match hex_val_exec(s[i + 5]) {
                Some(v) => v,
                None => {
                    return None;
                },
            };
            let code: u32 = (h1 as u32) * 4096 + (h2 as u32) * 256 + (h3 as u32) * 16 + (
            h4 as u32);
            if code >= 128 {
                return None;
            }
            proof {
                assert(ss.skip(6) =~= s@.skip(i + 6));
            }
            match parse_content_exec(s, i + 6) {
                Some((mut t, j)) => {
                    let ghost tv = t@;
                    t.insert(0, code as u8);
                    proof {
                        assert(t@ =~= seq![code as u8] + tv);
                    }
                    Some((t, j))
                },
                None => None,
            }
        } else {
            match unesc2_exec(e) {
                Some(b2) => {
                    proof {
                        assert(ss.skip(2) =~= s@.skip(i + 2));
                    }
                    match parse_content_exec(s, i + 2) {
                        Some((mut t, j)) => {
                            let ghost tv = t@;
                            t.insert(0, b2);
                            proof {
                                assert(t@ =~= seq![b2] + tv);
                            }
                            Some((t, j))
                        },
                        None => None,
                    }
                },
                None => None,
            }
        }
    } else {
        proof {
            assert(ss.drop_first() =~= s@.skip(i + 1));
        }
        match parse_content_exec(s, i + 1) {
            Some((mut t, j)) => {
                let ghost tv = t@;
                t.insert(0, b);
                proof {
                    assert(t@ =~= seq![b] + tv);
                }
                Some((t, j))
            },
            None => None,
        }
    }
}

/// Consumes the exact token at position `i`.
fn parse_exact_exec(s: &[u8], i: usize, tok: &Vec<u8>) -> (r: Option<usize>)
    requires
        i <= s@.len(),
    ensures
        match r {
            Some(j) => j <= s@.len() && parse_exact(s@.skip(i as int), tok@) == Some(
                s@.skip(j as int),
            ),
            None => parse_exact(s@.skip(i as int), tok@) is None,
        },
{
    let n = s.len();
    let m = tok.len();
    let ghost ss = s@.skip(i as int);
    if m > n - i {
        proof {
            assert(ss.len() == n - i);
        }
        return None;
    }
    for j in 0..m
        invariant
            i + m <= n,
            n == s@.len(),
            m == tok@.len(),
            ss == s@.skip(i as int),
            forall|q: int| 0 <= q < j ==> ss[q] == tok@[q],
    {
        proof {
            assert(ss[j as int] == s@[i + j]);
        }
        if s[i + j] != tok[j] {
            proof {
                assert(ss.take(m as int)[j as int] != tok@[j as int]);
            }
            return None;
        }
    }
    proof {
        assert(ss.take(m as int) =~= tok@);
        assert(ss.skip(m as int) =~= s@.skip(i + m));
    }
    Some(i + m)
}

/// The token that opens a string member: separator, quote, key, quote,
/// colon, quote.
fn member_tok(lead: u8, key: &Vec<u8>) -> (r: Vec<u8>)
    ensures
        r@ == seq![lead] + head_tok(key@),
{
    let mut v: Vec<u8> = Vec::new();
    v.push(lead);
    v.push(34);
    let n = key.len();
    for j in 0..n
        invariant
            n == key@.len(),
            v@ == seq![lead, 34u8] + key@.take(j as int),
    {
        v.push(key[j]);
        proof {
            assert(v@ =~= seq![lead, 34u8] + key@.take(j + 1));
        }
    }
    v.push(34);
    v.push(58);
    v.push(34);
    proof {
        assert(key@.take(n as int) =~= key@);
        assert(v@ =~= seq![lead] + head_tok(key@));
    }
    v
}

/// The token that opens an array member: separator, quote, key, quote,
/// colon, bracket.
fn arr_member_tok(lead: u8, key: &Vec<u8>) -> (r: Vec<u8>)
    ensures
        r@ == seq![lead] + arr_tok(key@),
{
    let mut v: Vec<u8> = Vec::new();
    v.push(lead);
    v.push(34);
    let n = key.len();
    for j in 0..n
        invariant
            n == key@.len(),
            v@ == seq![lead, 34u8] + key@.take(j as int),
    {
        v.push(key[j]);
        proof {
            assert(v@ =~= seq![lead, 34u8] + key@.take(j + 1));
        }
    }
    v.push(34);
    v.push(58);
    v.push(91);
    proof {
        assert(key@.take(n as int) =~= key@);
        assert(v@ =~= seq![lead] + arr_tok(key@));
    }
    v
}

/// Reads a required string member behind its separator.
fn p_req_exec(s: &[u8], i: usize, lead: u8, key: &Vec<u8>) -> (r: Option<(String, usize)>)
    requires
        i <= s@.len(),
    ensures
        match r {
            Some(p) => p.1 <= s@.len() && (p_req(s@.skip(i as int), lead, key@) matches Some(
                q,
            ) && q.0 == p.0@ && q.1 == s@.skip(p.1 as int)),
            None => p_req(s@.skip(i as int), lead, key@) is None,
        },
{
    let tok = member_tok(lead, key);
    let j = match parse_exact_exec(s, i, &tok) {
        Some(j) => j,
        None => {
            return None;
        },
    };
    let (cb, j2) = match parse_content_exec(s, j) {
        Some(p) => p,
        None => {
            return None;
        },
    };
    match try_utf8_string(cb) {
        Some(t) => Some((t, j2)),
        None => None,
    }
}

/// Reads an optional string member; an absent token consumes nothing.
fn p_opt_exec(s: &[u8], i: usize, key: &Vec<u8>) -> (r: Option<(Option<String>, usize)>)
    requires
        i <= s@.len(),
    ensures
        match r {
            Some(p) => p.1 <= s@.len() && (p_opt(s@.skip(i as int), key@) matches Some(q)
                && q.0 == p.0.deep_view() && q.1 == s@.skip(p.1 as int)),
            None => p_opt(s@.skip(i as int), key@) is None,
        },
{
    let tok = member_tok(44, key);
    match parse_exact_exec(s, i, &tok) {
        Some(_) => {},
        None => {
            return Some((None, i));
        },
    }
    match p_req_exec(s, i, 44, key) {
        Some((t, j)) => Some((Some(t), j)),
        None => None,
    }
}

/// Reads the items of a string array after its opening bracket.
fn parse_strs_exec(s: &[u8], i: usize) -> (r: Option<(Vec<String>, usize)>)
    requires
        i <= s@.len(),
    ensures
        match r {
            Some(p) => p.1 <= s@.len() && (parse_strs(s@.skip(i as int)) matches Some(q)
                && q.0 == p.0.deep_view() && q.1 == s@.skip(p.1 as int)),
            None => parse_strs(s@.skip(i as int)) is None,
        },
    decreases s@.len() - i,
{
    let n = s.len();
    let ghost ss = s@.skip(i as int);
    if i == n {
        return None;
    }
    let b = s[i];
    proof {
        assert(ss[0] == s@[i as int]);
    }
    if b == 93 {
        proof {
            assert(ss.drop_first() =~= s@.skip(i + 1));
        }
        let empty: Vec<String> = Vec::new();
        proof {
            assert(empty.deep_view() =~= Seq::<Seq<char>>::empty());
        }
        return Some((empty, i + 1));
    }
    if b != 34 {
        return None;
    }
    proof {
        assert(ss.drop_first() =~= s@.skip(i + 1));
    }
    let (cb, j) = match parse_content_exec(s, i + 1) {
        Some(p) => p,
        None => {
            return None;
        },
    };
    let t = match try_utf8_string(cb) {
        Some(t) => t,
        None => {
            return None;
        },
    };
    let ghost tv = t@;
    if j == n {
        proof {
            assert(s@.skip(j as int).len() == 0);
        }
        return None;
    }
    let c = s[j];
    proof {
        assert(s@.skip(j as int)[0] == s@[j as int]);
    }
    if c == 93 {
        proof {
            assert(s@.skip(j as int).drop_first() =~= s@.skip(j + 1));
        }
        let mut out: Vec<String> = Vec::new();
        out.push(t);
        proof {
            assert(out.deep_view() =~= seq![tv]);
        }
        return Some((out, j + 1));
    }
    if c != 44 {
        return None;
    }
    if !(j > i) {
        proof {
            assert(s@.skip(j as int).len() >= ss.len());
        }
        return None;
    }
    proof {
        assert(s@.skip(j as int).len() < ss.len());
        assert(s@.skip(j as int).drop_first() =~= s@.skip(j + 1));
    }
    match parse_strs_exec(s, j + 1) {
        Some((ts, j2)) => {
            if ts.len() == 0 {
                return None;
            }
            let mut out: Vec<String> = Vec::new();
            out.push(t);
            proof {
                assert(out.deep_view() =~= seq![tv] + Seq::<Seq<char>>::empty());
                assert(Seq::<Seq<char>>::empty() =~= ts.deep_view().take(0));
            }
            let ghost tsv = ts.deep_view();
            let m = ts.len();
            let mut rest = ts;
            for q in 0..m
                invariant
                    m == rest@.len(),
                    m == tsv.len(),
                    tsv == rest.deep_view(),
                    out.deep_view() == seq![tv] + tsv.take(q as int),
            {
                proof {
                    assert(tsv[q as int] == rest@[q as int]@);
                }
                let ghost prev = out.deep_view();
                out.push(rest[q].clone());
                proof {
                    assert(out.deep_view() =~= prev.push(tsv[q as int]));
                    assert(seq![tv] + tsv.take(q + 1) =~= (seq![tv] + tsv.take(
                        q as int,
                    )).push(tsv[q as int]));
                }
            }
            proof {
                assert(tsv.take(m as int) =~= tsv);
            }
            Some((out, j2))
        },
        None => None,
    }
}


/// Reads one link object of the links array.
fn parse_link_obj_exec(s: &[u8], i: usize) -> (r: Option<(LinkSummary, usize)>)
    requires
        i <= s@.len(),
    ensures
        match r {
            Some(p) => p.1 <= s@.len() && (parse_link_obj(s@.skip(i as int)) matches Some(
                q,
            ) && q.0 == p.0@ && q.1 == s@.skip(p.1 as int)),
            None => parse_link_obj(s@.skip(i as int)) is None,
        },
{
    let kk = crate::codec::kind_key();
    let (kt, j1) = match p_req_exec(s, i, 123, &kk) {
        Some(p) => p,
        None => {
            return None;
        },
    };
    let kind = match LinkKind::from_text(kt.as_str()) {
        Some(k) => k,
        None => {
            return None;
        },
    };
    let sk = crate::codec::source_key();
    let (src, j2) = match p_req_exec(s, j1, 44, &sk) {
        Some(p) => p,
        None => {
            return None;
        },
    };
    let tk = crate::codec::target_key();
    let (tgt, j3) = match p_req_exec(s, j2, 44, &tk) {
        Some(p) => p,
        None => {
            return None;
        },
    };
    let rk = crate::codec::reason_key();
    let rtok = member_tok(44, &rk);
    match parse_exact_exec(s, j3, &rtok) {
        Some(_) => {
            let (rsn, j4) = match p_req_exec(s, j3, 44, &rk) {
                Some(p) => p,
                None => {
                    return None;
                },
            };
            if j4 == s.len() {
                proof {
                    assert(s@.skip(j4 as int).len() == 0);
                }
                return None;
            }
            proof {
                assert(s@.skip(j4 as int)[0] == s@[j4 as int]);
            }
            if s[j4] == 125 {
                proof {
                    assert(s@.skip(j4 as int).drop_first() =~= s@.skip(j4 + 1));
                }
                Some(
                    (
                        LinkSummary { kind, source: src, target: tgt, reason: Some(rsn) },
                        j4 + 1,
                    ),
                )
            } else {
                None
            }
        },
        None => {
            if j3 == s.len() {
                proof {
                    assert(s@.skip(j3 as int).len() == 0);
                }
                return None;
            }
            proof {
                assert(s@.skip(j3 as int)[0] == s@[j3 as int]);
            }
            if s[j3] == 125 {
                proof {
                    assert(s@.skip(j3 as int).drop_first() =~= s@.skip(j3 + 1));
                }
                Some(
                    (LinkSummary { kind, source: src, target: tgt, reason: None }, j3 + 1),
                )
            } else {
                None
            }
        },
    }
}

/// Reads the items of the links array after its opening bracket.
fn parse_links_exec(s: &[u8], i: usize) -> (r: Option<(Vec<LinkSummary>, usize)>)
    requires
        i <= s@.len(),
    ensures
        match r {
            Some(p) => p.1 <= s@.len() && (parse_links(s@.skip(i as int)) matches Some(q)
                && q.0 == p.0.deep_view() && q.1 == s@.skip(p.1 as int)),
            None => parse_links(s@.skip(i as int)) is None,
        },
    decreases s@.len() - i,
{
    let n = s.len();
    let ghost ss = s@.skip(i as int);
    if i == n {
        return None;
    }
    proof {
        assert(ss[0] == s@[i as int]);
    }
    if s[i] == 93 {
        proof {
            assert(ss.drop_first() =~= s@.skip(i + 1));
        }
        let empty: Vec<LinkSummary> = Vec::new();
        proof {
            assert(empty.deep_view() =~= Seq::<LinkSummaryV>::empty());
        }
        return Some((empty, i + 1));
    }
    let (l, j) = match parse_link_obj_exec(s, i) {
        Some(p) => p,
        None => {
            return None;
        },
    };
    let ghost lv = l@;
    if j == n {
        proof {
            assert(s@.skip(j as int).len() == 0);
        }
        return None;
    }
    let c = s[j];
    proof {
        assert(s@.skip(j as int)[0] == s@[j as int]);
    }
    if c == 93 {
        proof {
            assert(s@.skip(j as int).drop_first() =~= s@.skip(j + 1));
        }
        let mut out: Vec<LinkSummary> = Vec::new();
        out.push(l);
        proof {
            assert(out.deep_view() =~= seq![lv]);
        }
        return Some((out, j + 1));
    }
    if c != 44 {
        return None;
    }
    if !(j > i) {
        proof {
            assert(s@.skip(j as int).len() >= ss.len());
        }
        return None;
    }
    proof {
        assert(s@.skip(j as int).len() < ss.len());
        assert(s@.skip(j as int).drop_first() =~= s@.skip(j + 1));
    }
    match parse_links_exec(s, j + 1) {
        Some((ls, j2)) => {
            if ls.len() == 0 {
                return None;
            }
            let mut out: Vec<LinkSummary> = Vec::new();
            out.push(l);
            proof {
                assert(out.deep_view() =~= seq![lv] + Seq::<LinkSummaryV>::empty());
                assert(Seq::<LinkSummaryV>::empty() =~= ls.deep_view().take(0));
            }
            let ghost lsv = ls.deep_view();
            let m = ls.len();
            let mut rest = ls;
            for q in 0..m
                invariant
                    m == rest@.len(),
                    m == lsv.len(),
                    lsv == rest.deep_view(),
                    out.deep_view() == seq![lv] + lsv.take(q as int),
            {
                proof {
                    assert(lsv[q as int] == rest@[q as int]@);
                }
                let item = LinkSummary {
                    kind: rest[q].kind,
                    source: rest[q].source.clone(),
                    target: rest[q].target.clone(),
                    reason: crate::strutil::clone_opt_string(&rest[q].reason),
                };
                let ghost prev = out.deep_view();
                out.push(item);
                proof {
                    assert(out.deep_view() =~= prev.push(lsv[q as int]));
                    assert(seq![lv] + lsv.take(q + 1) =~= (seq![lv] + lsv.take(
                        q as int,
                    )).push(lsv[q as int]));
                }
            }
            proof {
                assert(lsv.take(m as int) =~= lsv);
            }
            Some((out, j2))
        },
        None => None,
    }
}

/// Reads one interchange record: the decision and its link summaries.
/// Refuses anything but the canonical compact form, except that optional
/// members may be absent (defaulting) and a malformed links portion is
/// dropped.
pub fn decode(line: &str) -> (r: Result<(Decision, Vec<LinkSummary>), DictumError>)
    ensures
        match r {
            Ok(p) => dec_spec(line.spec_bytes()) matches Some(q) && q.0 == p.0@ && q.1
                == p.1.deep_view(),
            Err(e) => dec_spec(line.spec_bytes()) is None && e
                matches DictumError::SerializationError(_),
        },
{
    let s = line.as_bytes();
    let fail = || -> (e: DictumError)
        ensures
            e matches DictumError::SerializationError(_),
        { DictumError::SerializationError("malformed interchange record".to_owned()) };
    proof {
        assert(s@.skip(0) =~= s@);
    }
    let k = crate::codec::id_key();
    let (id, s1) = match p_req_exec(s, 0, 123, &k) {
        Some(p) => p,
        None => {
            return Err(fail());
        },
    };
    let k = crate::codec::title_key();
    let (title, s2) = match p_req_exec(s, s1, 44, &k) {
        Some(p) => p,
        None => {
            return Err(fail());
        },
    };
    let k = crate::codec::body_key();
    let (body, s3) = match p_opt_exec(s, s2, &k) {
        Some(p) => p,
        None => {
            return Err(fail());
        },
    };
    let k = crate::codec::level_key();
    let (lt, s4) = match p_req_exec(s, s3, 44, &k) {
        Some(p) => p,
        None => {
            return Err(fail());
        },
    };
    let level = match Level::from_text(lt.as_str()) {
        Some(v) => v,
        None => {
            return Err(fail());
        },
    };
    let k = crate::codec::status_key();
    let (st, s5) = match p_req_exec(s, s4, 44, &k) {
        Some(p) => p,
        None => {
            return Err(fail());
        },
    };
    let status = match Status::from_text(st.as_str()) {
        Some(v) => v,
        None => {
            return Err(fail());
        },
    };
    let k = crate::codec::superseded_by_key();
    let (superseded_by, s6) = match p_opt_exec(s, s5, &k) {
        Some(p) => p,
        None => {
            return Err(fail());
        },
    };
    let k = crate::codec::author_key();
    let (author, s7) = match p_req_exec(s, s6, 44, &k) {
        Some(p) => p,
        None => {
            return Err(fail());
        },
    };
    let k = crate::codec::created_at_key();
    let (created_at, s8) = match p_req_exec(s, s7, 44, &k) {
        Some(p) => p,
        None => {
            return Err(fail());
        },
    };
    let k = crate::codec::updated_at_key();
    let (updated_at, s9) = match p_req_exec(s, s8, 44, &k) {
        Some(p) => p,
        None => {
            return Err(fail());
        },
    };
    // the back half: labels, kind, weight, rebuttal, scope, links
    let k = crate::codec::labels_key();
    let ltok = arr_member_tok(44, &k);
    let (labels, sa) = match parse_exact_exec(s, s9, &ltok) {
        Some(r0) => match parse_strs_exec(s, r0) {
            Some(p) => p,
            None => {
                return Err(fail());
            },
        },
        None => {
            let empty: Vec<String> = Vec::new();
            proof {
                assert(empty.deep_view() =~= Seq::<Seq<char>>::empty());
            }
            (empty, s9)
        },
    };
    let k = crate::codec::kind_key();
    let (ko, sb) = match p_opt_exec(s, sa, &k) {
        Some(p) => p,
        None => {
            return Err(fail());
        },
    };
    let kind = match &ko {
        Some(ktext) => match Kind::from_text(ktext.as_str()) {
            Some(v) => v,
            None => {
                return Err(fail());
            },
        },
        None => Kind::Choice,
    };
    let k = crate::codec::weight_key();
    let (wo, sc) = match p_opt_exec(s, sb, &k) {
        Some(p) => p,
        None => {
            return Err(fail());
        },
    };
    let weight = match &wo {
        Some(wtext) => match Weight::from_text(wtext.as_str()) {
            Some(v) => v,
            None => {
                return Err(fail());
            },
        },
        None => Weight::Should,
    };
    let k = crate::codec::rebuttal_key();
    let (rebuttal, sd) = match p_opt_exec(s, sc, &k) {
        Some(p) => p,
        None => {
            return Err(fail());
        },
    };
    let k = crate::codec::scope_key();
    let (scope, se) = match p_opt_exec(s, sd, &k) {
        Some(p) => p,
        None => {
            return Err(fail());
        },
    };
    let decision = Decision {
        id,
        title,
        body,
        level,
        status,
        superseded_by,
        author,
        created_at,
        updated_at,
        labels,
        kind,
        weight,
        rebuttal,
        scope,
    };
    let k = crate::codec::links_key();
    let lktok = arr_member_tok(44, &k);
    match parse_exact_exec(s, se, &lktok) {
        Some(r0) => match parse_links_exec(s, r0) {
            Some((ls, r2)) => {
                if s.len() - r2 == 1 && s[r2] == 125 {
                    proof {
                        assert(s@.skip(r2 as int).len() == 1);
                        assert(s@.skip(r2 as int)[0] == s@[r2 as int]);
                    }
                    Ok((decision, ls))
                } else {
                    proof {
                        if s@.skip(r2 as int).len() == 1 {
                            assert(s@.skip(r2 as int)[0] == s@[r2 as int]);
                        }
                    }
                    Err(fail())
                }
            },
            None => {
                let none: Vec<LinkSummary> = Vec::new();
                proof {
                    assert(none.deep_view() =~= Seq::<LinkSummaryV>::empty());
                }
                Ok((decision, none))
            },
        },
        None => {
            if s.len() - se == 1 && s[se] == 125 {
                let none: Vec<LinkSummary> = Vec::new();
                proof {
                    assert(s@.skip(se as int).len() == 1);
                    assert(s@.skip(se as int)[0] == s@[se as int]);
                    assert(none.deep_view() =~= Seq::<LinkSummaryV>::empty());
                }
                Ok((decision, none))
            } else {
                proof {
                    if s@.skip(se as int).len() == 1 {
                        assert(s@.skip(se as int)[0] == s@[se as int]);
                    }
                }
                Err(fail())
            }
        },
    }
}


} // verus!
