//! The interchange round-trip law: decoding undoes encoding, member by
//! member, and the supporting lemmas about each syntactic piece.

use vstd::prelude::*;

use crate::codec::{
    arr_tok, enc_class_part, enc_open_part, enc_prov_part, enc_tail_part, esc, esc_byte, head_tok, hex_digit, key_author, key_body, key_created_at,
    key_id, key_kind, key_labels, key_level, key_links, key_reason, key_rebuttal,
    key_scope, key_source, key_status, key_superseded_by, key_target, key_title,
    key_updated_at, key_weight, str_member, LinkSummaryV,
};
use crate::decode::{
    dec_class, dec_kw, dec_links, dec_opts, dec_prov, dec_spec, dec_tail, hex_val, p_opt, p_req, parse_content, parse_exact,
    parse_link_obj, parse_links, parse_strs, unesc2,
};
use crate::model::{DecisionV, Kind, Weight};

verus! {

use vstd::utf8::{decode_utf8, encode_utf8, valid_utf8};


/// Escaped content followed by the closing quote parses back to the
/// content.
pub proof fn lemma_parse_content_esc(x: Seq<u8>, rest: Seq<u8>)
    ensures
        parse_content(esc(x) + seq![34u8] + rest) == Some((x, rest)),
    decreases x.len(),
{
    let s = esc(x) + seq![34u8] + rest;
    if x.len() == 0 {
        assert(esc(x) == Seq::<u8>::empty());
        assert(s =~= seq![34u8] + rest);
        assert(s[0] == 34);
        assert(s.drop_first() =~= rest);
        assert(x =~= Seq::<u8>::empty());
    } else {
        crate::codec::lemma_esc_front(x);
        let b = x[0];
        let x1 = x.drop_first();
        lemma_parse_content_esc(x1, rest);
        let tail = esc(x1) + seq![34u8] + rest;
        assert(s =~= esc_byte(b) + tail);
        if b == 34 || b == 92 || b == 10 || b == 13 || b == 9 {
            let e: u8 = if b == 34 {
                34u8
            } else if b == 92 {
                92u8
            } else if b == 10 {
                110u8
            } else if b == 13 {
                114u8
            } else {
                116u8
            };
            assert(esc_byte(b) == seq![92u8, e]);
            assert(s.len() >= 2);
            assert(s[0] == 92);
            assert(s[1] == e);
            assert(e != 117);
            assert(unesc2(e) == Some(b));
            assert(s.skip(2) =~= tail);
            assert(seq![b] + x1 =~= x);
        } else if b < 32 {
            let h1 = hex_digit(b as int / 16);
            let h2 = hex_digit(b as int % 16);
            assert(esc_byte(b) == seq![92u8, 117u8, 48u8, 48u8, h1, h2]);
            assert(s.len() >= 6);
            assert(s[0] == 92);
            assert(s[1] == 117);
            assert(s[2] == 48);
            assert(s[3] == 48);
            assert(s[4] == h1);
            assert(s[5] == h2);
            assert(hex_val(48u8) == Some(0int));
            assert(hex_val(h1) == Some(b as int / 16));
            assert(hex_val(h2) == Some(b as int % 16));
            assert(0 * 4096 + 0 * 256 + (b as int / 16) * 16 + (b as int % 16) == b as int);
            assert(s.skip(6) =~= tail);
            assert(seq![b] + x1 =~= x);
        } else {
            assert(esc_byte(b) == seq![b]);
            assert(s[0] == b);
            assert(b != 34 && b != 92);
            assert(s.drop_first() =~= tail);
            assert(seq![b] + x1 =~= x);
        }
    }
}

/// A token at the front of the input is consumed exactly.
pub proof fn lemma_parse_exact_prefix(tok: Seq<u8>, rest: Seq<u8>)
    ensures
        parse_exact(tok + rest, tok) == Some(rest),
{
    let s = tok + rest;
    assert(s.take(tok.len() as int) =~= tok);
    assert(s.skip(tok.len() as int) =~= rest);
}

/// A token refuted by one differing position (or by length) does not
/// match.
pub proof fn lemma_parse_exact_mismatch(s: Seq<u8>, tok: Seq<u8>, i: int)
    requires
        0 <= i < tok.len(),
        tok.len() <= s.len() ==> s[i] != tok[i],
    ensures
        parse_exact(s, tok) is None,
{
    if tok.len() <= s.len() {
        assert(s.take(tok.len() as int)[i] == s[i]);
    }
}

/// A whole string member parses back to its value.
pub proof fn lemma_p_req(lead: u8, key: Seq<u8>, x: Seq<char>, rest: Seq<u8>)
    ensures
        p_req(seq![lead] + str_member(key, encode_utf8(x)) + rest, lead, key) == Some(
            (x, rest),
        ),
{
    broadcast use vstd::utf8::encode_utf8_valid_utf8, vstd::utf8::encode_utf8_decode_utf8;

    let u = encode_utf8(x);
    let s = seq![lead] + str_member(key, u) + rest;
    let tok = seq![lead] + head_tok(key);
    let after = esc(u) + seq![34u8] + rest;
    assert(s =~= tok + after);
    lemma_parse_exact_prefix(tok, after);
    lemma_parse_content_esc(u, rest);
    assert(valid_utf8(u));
    assert(decode_utf8(u) == x);
}

/// The items of a string array parse back to the texts.
pub proof fn lemma_strs_items(ls: Seq<Seq<char>>, rest: Seq<u8>)
    ensures
        parse_strs(crate::codec::strs_items(ls) + rest) == Some((ls, rest)),
    decreases ls.len(),
{
    broadcast use vstd::utf8::encode_utf8_valid_utf8, vstd::utf8::encode_utf8_decode_utf8;

    let s = crate::codec::strs_items(ls) + rest;
    if ls.len() == 0 {
        assert(crate::codec::strs_items(ls) == seq![93u8]);
        assert(s =~= seq![93u8] + rest);
        assert(s[0] == 93);
        assert(s.drop_first() =~= rest);
        assert(ls =~= Seq::<Seq<char>>::empty());
    } else {
        let u = encode_utf8(ls[0]);
        let item = seq![34u8] + esc(u) + seq![34u8];
        if ls.len() == 1 {
            assert(crate::codec::strs_items(ls) == item + seq![93u8]);
            let r = seq![93u8] + rest;
            assert(s =~= seq![34u8] + (esc(u) + seq![34u8] + r));
            assert(s[0] == 34);
            assert(s.drop_first() =~= esc(u) + seq![34u8] + r);
            lemma_parse_content_esc(u, r);
            assert(r[0] == 93);
            assert(r.drop_first() =~= rest);
            assert(seq![decode_utf8(u)] =~= ls);
        } else {
            let ls1 = ls.drop_first();
            assert(crate::codec::strs_items(ls) == item + seq![44u8]
                + crate::codec::strs_items(ls1));
            let r = seq![44u8] + crate::codec::strs_items(ls1) + rest;
            assert(s =~= seq![34u8] + (esc(u) + seq![34u8] + r));
            assert(s[0] == 34);
            assert(s.drop_first() =~= esc(u) + seq![34u8] + r);
            lemma_parse_content_esc(u, r);
            assert(r[0] == 44);
            assert(r.len() < s.len());
            lemma_strs_items(ls1, rest);
            assert(r.drop_first() =~= crate::codec::strs_items(ls1) + rest);
            assert(ls1.len() > 0);
            assert(seq![decode_utf8(u)] + ls1 =~= ls);
        }
    }
}

/// One link object parses back to its summary.
#[verifier::rlimit(100)]
#[verifier::spinoff_prover]
pub proof fn lemma_link_obj(l: LinkSummaryV, rest: Seq<u8>)
    ensures
        parse_link_obj(crate::codec::link_obj(l) + rest) == Some((l, rest)),
        crate::codec::link_obj(l).len() > 0,
        crate::codec::link_obj(l)[0] == 123,
{
    let s = crate::codec::link_obj(l) + rest;
    let m_kind = str_member(key_kind(), encode_utf8(l.kind.spec_text()));
    let m_source = str_member(key_source(), encode_utf8(l.source));
    let m_target = str_member(key_target(), encode_utf8(l.target));
    let rp: Seq<u8> = match l.reason {
        Some(t) => seq![44u8] + str_member(key_reason(), encode_utf8(t)),
        None => Seq::<u8>::empty(),
    };
    let r3 = rp + seq![125u8] + rest;
    let r2 = seq![44u8] + m_target + r3;
    let r1 = seq![44u8] + m_source + r2;
    assert(s =~= seq![123u8] + m_kind + r1);
    lemma_p_req(123u8, key_kind(), l.kind.spec_text(), r1);
    crate::model::lemma_link_kind_text_inverse(l.kind);
    assert(r1 =~= seq![44u8] + m_source + r2);
    lemma_p_req(44u8, key_source(), l.source, r2);
    lemma_p_req(44u8, key_target(), l.target, r3);
    match l.reason {
        Some(t) => {
            let r4 = seq![125u8] + rest;
            assert(r3 =~= seq![44u8] + str_member(key_reason(), encode_utf8(t)) + r4);
            lemma_p_req(44u8, key_reason(), t, r4);
            let tok = seq![44u8] + head_tok(key_reason());
            assert(parse_exact(r3, tok) is Some) by {
                lemma_parse_exact_prefix(tok, esc(encode_utf8(t)) + seq![34u8] + r4);
                assert(r3 =~= tok + (esc(encode_utf8(t)) + seq![34u8] + r4));
            }
            assert(r4[0] == 125);
            assert(r4.drop_first() =~= rest);
        },
        None => {
            assert(r3 =~= seq![125u8] + rest);
            assert(r3[0] == 125);
            let tok = seq![44u8] + head_tok(key_reason());
            lemma_parse_exact_mismatch(r3, tok, 0);
            assert(r3.drop_first() =~= rest);
        },
    }
}

/// The items of a links array parse back to the summaries.
#[verifier::rlimit(100)]
#[verifier::spinoff_prover]
pub proof fn lemma_links_items(ls: Seq<LinkSummaryV>, rest: Seq<u8>)
    ensures
        parse_links(crate::codec::links_items(ls) + rest) == Some((ls, rest)),
    decreases ls.len(),
{
    let s = crate::codec::links_items(ls) + rest;
    if ls.len() == 0 {
        assert(crate::codec::links_items(ls) == seq![93u8]);
        assert(s =~= seq![93u8] + rest);
        assert(s[0] == 93);
        assert(s.drop_first() =~= rest);
        assert(ls =~= Seq::<LinkSummaryV>::empty());
    } else if ls.len() == 1 {
        let r = seq![93u8] + rest;
        assert(crate::codec::links_items(ls) == crate::codec::link_obj(ls[0]) + seq![93u8]);
        assert(s =~= crate::codec::link_obj(ls[0]) + r);
        lemma_link_obj(ls[0], r);
        assert(s[0] == 123);
        assert(r[0] == 93);
        assert(r.drop_first() =~= rest);
        assert(seq![ls[0]] =~= ls);
    } else {
        let ls1 = ls.drop_first();
        assert(crate::codec::links_items(ls) == crate::codec::link_obj(ls[0]) + seq![44u8]
            + crate::codec::links_items(ls1));
        let r = seq![44u8] + crate::codec::links_items(ls1) + rest;
        assert(s =~= crate::codec::link_obj(ls[0]) + r);
        lemma_link_obj(ls[0], r);
        assert(s[0] == 123);
        assert(r[0] == 44);
        assert(r.len() < s.len());
        lemma_links_items(ls1, rest);
        assert(r.drop_first() =~= crate::codec::links_items(ls1) + rest);
        assert(ls1.len() > 0);
        assert(seq![ls[0]] + ls1 =~= ls);
    }
}


/// The links member and closing brace parse back to the summaries.
#[verifier::rlimit(100)]
#[verifier::spinoff_prover]
proof fn lemma_rt_links(d: DecisionV, links: Seq<LinkSummaryV>)
    ensures
        ({
            let links_part: Seq<u8> = if links.len() > 0 {
                seq![44u8] + arr_tok(key_links()) + crate::codec::links_items(links)
            } else {
                Seq::<u8>::empty()
            };
            dec_links(d, links_part + seq![125u8]) == Some((d, links))
        }),
{
    let links_part: Seq<u8> = if links.len() > 0 {
        seq![44u8] + arr_tok(key_links()) + crate::codec::links_items(links)
    } else {
        Seq::<u8>::empty()
    };
    let se = links_part + seq![125u8];
    if links.len() > 0 {
        let lktok = seq![44u8] + arr_tok(key_links());
        assert(se =~= lktok + (crate::codec::links_items(links) + seq![125u8]));
        lemma_parse_exact_prefix(lktok, crate::codec::links_items(links) + seq![125u8]);
        lemma_links_items(links, seq![125u8]);
        assert((seq![125u8]).len() == 1 && (seq![125u8])[0] == 125);
    } else {
        assert(se =~= seq![125u8]);
        let lktok = seq![44u8] + arr_tok(key_links());
        lemma_parse_exact_mismatch(se, lktok, 0);
        assert(se.len() == 1 && se[0] == 125);
    }
}

/// The rebuttal and scope members parse back to their values.
#[verifier::rlimit(100)]
#[verifier::spinoff_prover]
proof fn lemma_rt_opts(
    rebuttal: Option<Seq<char>>,
    scope: Option<Seq<char>>,
    links: Seq<LinkSummaryV>,
    dx: DecisionV,
)
    ensures
        ({
            let links_part: Seq<u8> = if links.len() > 0 {
                seq![44u8] + arr_tok(key_links()) + crate::codec::links_items(links)
            } else {
                Seq::<u8>::empty()
            };
            let sc = crate::codec::opt_member(key_rebuttal(), rebuttal)
                + crate::codec::opt_member(key_scope(), scope) + links_part + seq![125u8];
            dec_opts(dx, sc) == Some(
                ((DecisionV { rebuttal: rebuttal, scope: scope, ..dx }), links),
            )
        }),
{
    let links_part: Seq<u8> = if links.len() > 0 {
        seq![44u8] + arr_tok(key_links()) + crate::codec::links_items(links)
    } else {
        Seq::<u8>::empty()
    };
    let rp = crate::codec::opt_member(key_rebuttal(), rebuttal);
    let sp = crate::codec::opt_member(key_scope(), scope);
    let se = links_part + seq![125u8];
    let sd = sp + se;
    let sc = rp + sp + links_part + seq![125u8];
    assert(sc =~= rp + sd);
    match rebuttal {
        Some(t) => {
            assert(rp + sd =~= seq![44u8] + str_member(key_rebuttal(), encode_utf8(t))
                + sd);
            lemma_p_req(44u8, key_rebuttal(), t, sd);
        },
        None => {
            assert(rp + sd =~= sd);
            reveal(key_rebuttal);
            reveal(key_scope);
            reveal(key_links);
            let rtok = seq![44u8] + head_tok(key_rebuttal());
            assert(rtok[2] == key_rebuttal()[0]);
            match scope {
                Some(t2) => {
                    assert(sd[2] == key_scope()[0]) by {
                        assert(sp[2] == head_tok(key_scope())[1]);
                    }
                },
                None => {
                    if links.len() > 0 {
                        assert(sd[2] == key_links()[0]) by {
                            assert(sd =~= se);
                            assert(links_part[2] == arr_tok(key_links())[1]);
                        }
                    } else {
                        assert(sd =~= seq![125u8]);
                    }
                },
            }
            lemma_parse_exact_mismatch(sd, rtok, 2);
        },
    }
    match scope {
        Some(t) => {
            assert(sd =~= seq![44u8] + str_member(key_scope(), encode_utf8(t)) + se);
            lemma_p_req(44u8, key_scope(), t, se);
        },
        None => {
            assert(sd =~= se);
            reveal(key_scope);
            reveal(key_links);
            let stok = seq![44u8] + head_tok(key_scope());
            assert(stok[2] == key_scope()[0]);
            if links.len() > 0 {
                assert(se[2] == key_links()[0]) by {
                    assert(links_part[2] == arr_tok(key_links())[1]);
                }
            } else {
                assert(se =~= seq![125u8]);
            }
            lemma_parse_exact_mismatch(se, stok, 2);
        },
    }
    lemma_rt_links((DecisionV { rebuttal: rebuttal, scope: scope, ..dx }), links);
}

/// The kind and weight members parse back to their values.
#[verifier::rlimit(100)]
#[verifier::spinoff_prover]
proof fn lemma_rt_kw(
    kind: Kind,
    weight: Weight,
    rebuttal: Option<Seq<char>>,
    scope: Option<Seq<char>>,
    links: Seq<LinkSummaryV>,
    dx: DecisionV,
)
    ensures
        ({
            let links_part: Seq<u8> = if links.len() > 0 {
                seq![44u8] + arr_tok(key_links()) + crate::codec::links_items(links)
            } else {
                Seq::<u8>::empty()
            };
            let sa = seq![44u8] + str_member(key_kind(), encode_utf8(kind.spec_text()))
                + seq![44u8] + str_member(key_weight(), encode_utf8(weight.spec_text()))
                + crate::codec::opt_member(key_rebuttal(), rebuttal)
                + crate::codec::opt_member(key_scope(), scope) + links_part + seq![125u8];
            dec_kw(dx, sa) == Some(
                (
                    (DecisionV {
                        kind: kind,
                        weight: weight,
                        rebuttal: rebuttal,
                        scope: scope,
                        ..dx
                    }),
                    links,
                ),
            )
        }),
{
    let links_part: Seq<u8> = if links.len() > 0 {
        seq![44u8] + arr_tok(key_links()) + crate::codec::links_items(links)
    } else {
        Seq::<u8>::empty()
    };
    let m_kind = str_member(key_kind(), encode_utf8(kind.spec_text()));
    let m_weight = str_member(key_weight(), encode_utf8(weight.spec_text()));
    let rp = crate::codec::opt_member(key_rebuttal(), rebuttal);
    let sp = crate::codec::opt_member(key_scope(), scope);
    let sc = rp + sp + links_part + seq![125u8];
    let sb = seq![44u8] + m_weight + sc;
    let sa = seq![44u8] + m_kind + seq![44u8] + m_weight + rp + sp + links_part
        + seq![125u8];
    assert(sa =~= seq![44u8] + m_kind + sb);
    lemma_p_req(44u8, key_kind(), kind.spec_text(), sb);
    crate::model::lemma_kind_text_inverse(kind);
    assert(sb =~= seq![44u8] + m_weight + sc);
    lemma_p_req(44u8, key_weight(), weight.spec_text(), sc);
    crate::model::lemma_weight_text_inverse(weight);
    lemma_rt_opts(rebuttal, scope, links, dx);
    assert((DecisionV { rebuttal: rebuttal, scope: scope, ..(DecisionV {
        kind: kind,
        weight: weight,
        ..dx
    }) }) == (DecisionV {
        kind: kind,
        weight: weight,
        rebuttal: rebuttal,
        scope: scope,
        ..dx
    }));
}

/// The back half of an encoded record parses back to the back-half fields.
#[verifier::rlimit(100)]
#[verifier::spinoff_prover]
proof fn lemma_rt_tail(d: DecisionV, links: Seq<LinkSummaryV>, d0: DecisionV)
    requires
        d0.labels == Seq::<Seq<char>>::empty(),
    ensures
        ({
            let tail = enc_tail_part(d, links);
            dec_tail(d0, tail) == Some(
                (
                    (DecisionV {
                        labels: d.labels,
                        kind: d.kind,
                        weight: d.weight,
                        rebuttal: d.rebuttal,
                        scope: d.scope,
                        ..d0
                    }),
                    links,
                ),
            )
        }),
{
    let labels_part: Seq<u8> = if d.labels.len() > 0 {
        seq![44u8] + arr_tok(key_labels()) + crate::codec::strs_items(d.labels)
    } else {
        Seq::<u8>::empty()
    };
    let links_part: Seq<u8> = if links.len() > 0 {
        seq![44u8] + arr_tok(key_links()) + crate::codec::links_items(links)
    } else {
        Seq::<u8>::empty()
    };
    let m_kind = str_member(key_kind(), encode_utf8(d.kind.spec_text()));
    let m_weight = str_member(key_weight(), encode_utf8(d.weight.spec_text()));
    let rp = crate::codec::opt_member(key_rebuttal(), d.rebuttal);
    let sp = crate::codec::opt_member(key_scope(), d.scope);
    let tail = enc_tail_part(d, links);
    let sa = seq![44u8] + m_kind + seq![44u8] + m_weight + rp + sp + links_part
        + seq![125u8];
    assert(tail =~= labels_part + sa);
    let ltok = seq![44u8] + arr_tok(key_labels());
    if d.labels.len() > 0 {
        assert(tail =~= ltok + (crate::codec::strs_items(d.labels) + sa));
        lemma_parse_exact_prefix(ltok, crate::codec::strs_items(d.labels) + sa);
        lemma_strs_items(d.labels, sa);
    } else {
        assert(tail =~= sa);
        reveal(key_labels);
        reveal(key_kind);
        assert(ltok[2] == key_labels()[0]);
        assert(tail[2] == key_kind()[0]) by {
            assert(sa[2] == head_tok(key_kind())[1]);
        }
        lemma_parse_exact_mismatch(tail, ltok, 2);
        assert(d.labels =~= Seq::<Seq<char>>::empty());
        assert((DecisionV { labels: d.labels, ..d0 }) == d0);
    }
    lemma_rt_kw(d.kind, d.weight, d.rebuttal, d.scope, links, (DecisionV {
        labels: d.labels,
        ..d0
    }));
    assert((DecisionV {
        kind: d.kind,
        weight: d.weight,
        rebuttal: d.rebuttal,
        scope: d.scope,
        ..(DecisionV { labels: d.labels, ..d0 })
    }) == (DecisionV {
        labels: d.labels,
        kind: d.kind,
        weight: d.weight,
        rebuttal: d.rebuttal,
        scope: d.scope,
        ..d0
    }));
}

/// The provenance members parse back, leaving the back half.
#[verifier::rlimit(100)]
#[verifier::spinoff_prover]
proof fn lemma_rt_prov(d: DecisionV, tail: Seq<u8>)
    ensures
        ({
            let part = enc_prov_part(d);
            dec_prov(d.id, d.title, d.body, d.level, d.status, d.superseded_by, part + tail)
                == dec_tail(
                (DecisionV {
                    id: d.id,
                    title: d.title,
                    body: d.body,
                    level: d.level,
                    status: d.status,
                    superseded_by: d.superseded_by,
                    author: d.author,
                    created_at: d.created_at,
                    updated_at: d.updated_at,
                    labels: Seq::empty(),
                    kind: Kind::Choice,
                    weight: Weight::Should,
                    rebuttal: None,
                    scope: None,
                }),
                tail,
            )
        }),
{
    reveal(key_author);
    let m_author = str_member(key_author(), encode_utf8(d.author));
    let m_created = str_member(key_created_at(), encode_utf8(d.created_at));
    let m_updated = str_member(key_updated_at(), encode_utf8(d.updated_at));
    let part = enc_prov_part(d);
    let r9 = tail;
    let r8 = seq![44u8] + m_updated + r9;
    let r7 = seq![44u8] + m_created + r8;
    let s = part + tail;
    assert(s =~= seq![44u8] + m_author + r7);
    lemma_p_req(44u8, key_author(), d.author, r7);
    lemma_p_req(44u8, key_created_at(), d.created_at, r8);
    lemma_p_req(44u8, key_updated_at(), d.updated_at, r9);
}

/// The classification members parse back, leaving the rest.
#[verifier::rlimit(100)]
#[verifier::spinoff_prover]
proof fn lemma_rt_class(d: DecisionV, rest: Seq<u8>)
    requires
        rest.len() > 2,
        rest[2] == key_author()[0],
    ensures
        ({
            let part = enc_class_part(d);
            dec_class(d.id, d.title, d.body, part + rest) == dec_prov(
                d.id,
                d.title,
                d.body,
                d.level,
                d.status,
                d.superseded_by,
                rest,
            )
        }),
{
    reveal(key_level);
    let m_level = str_member(key_level(), encode_utf8(d.level.spec_text()));
    let m_status = str_member(key_status(), encode_utf8(d.status.spec_text()));
    let osb = crate::codec::opt_member(key_superseded_by(), d.superseded_by);
    let part = enc_class_part(d);
    let r6 = rest;
    let r5 = osb + r6;
    let r4 = seq![44u8] + m_status + r5;
    let s = part + rest;
    assert(s =~= seq![44u8] + m_level + r4);
    lemma_p_req(44u8, key_level(), d.level.spec_text(), r4);
    crate::model::lemma_level_text_inverse(d.level);
    lemma_p_req(44u8, key_status(), d.status.spec_text(), r5);
    crate::model::lemma_status_text_inverse(d.status);
    match d.superseded_by {
        Some(t) => {
            assert(r5 =~= seq![44u8] + str_member(key_superseded_by(), encode_utf8(t))
                + r6);
            lemma_p_req(44u8, key_superseded_by(), t, r6);
        },
        None => {
            assert(r5 =~= r6);
            reveal(key_superseded_by);
            reveal(key_author);
            let sbtok = seq![44u8] + head_tok(key_superseded_by());
            assert(sbtok[2] == key_superseded_by()[0]);
            assert(r5[2] == key_author()[0]);
            lemma_parse_exact_mismatch(r5, sbtok, 2);
        },
    }
}

/// The opening members parse back, leaving the rest.
#[verifier::rlimit(100)]
#[verifier::spinoff_prover]
proof fn lemma_rt_open(d: DecisionV, rest: Seq<u8>)
    requires
        rest.len() > 2,
        rest[2] == key_level()[0],
    ensures
        ({
            let part = enc_open_part(d);
            dec_spec(part + rest) == dec_class(d.id, d.title, d.body, rest)
        }),
{
    let m_id = str_member(key_id(), encode_utf8(d.id));
    let m_title = str_member(key_title(), encode_utf8(d.title));
    let ob = crate::codec::opt_member(key_body(), d.body);
    let part = enc_open_part(d);
    let r3 = rest;
    let r2 = ob + r3;
    let r1 = seq![44u8] + m_title + r2;
    let s = part + rest;
    assert(s =~= seq![123u8] + m_id + r1);
    lemma_p_req(123u8, key_id(), d.id, r1);
    lemma_p_req(44u8, key_title(), d.title, r2);
    match d.body {
        Some(t) => {
            assert(r2 =~= seq![44u8] + str_member(key_body(), encode_utf8(t)) + r3);
            lemma_p_req(44u8, key_body(), t, r3);
        },
        None => {
            assert(r2 =~= r3);
            reveal(key_body);
            reveal(key_level);
            let btok = seq![44u8] + head_tok(key_body());
            assert(btok[2] == key_body()[0]);
            assert(r2[2] == key_level()[0]);
            lemma_parse_exact_mismatch(r2, btok, 2);
        },
    }
}

/// The classification section begins with the level member.
#[verifier::spinoff_prover]
proof fn lemma_class_part_head(d: DecisionV)
    ensures
        enc_class_part(d).len() > 2,
        enc_class_part(d)[2] == key_level()[0],
{
    reveal(key_level);
    let m_level = str_member(key_level(), encode_utf8(d.level.spec_text()));
    assert(enc_class_part(d)[2] == (seq![44u8] + m_level)[2]);
    assert((seq![44u8] + m_level)[2] == head_tok(key_level())[1]);
}

/// The provenance section begins with the author member.
#[verifier::spinoff_prover]
proof fn lemma_prov_part_head(d: DecisionV)
    ensures
        enc_prov_part(d).len() > 2,
        enc_prov_part(d)[2] == key_author()[0],
{
    reveal(key_author);
    let m_author = str_member(key_author(), encode_utf8(d.author));
    assert(enc_prov_part(d)[2] == (seq![44u8] + m_author)[2]);
    assert((seq![44u8] + m_author)[2] == head_tok(key_author())[1]);
}

/// Law: decoding undoes encoding.  For every decision and every run of
/// link summaries, the encoded record decodes to the same decision,
/// field for field, and the same link summaries in the same order.
#[verifier::rlimit(100)]
#[verifier::spinoff_prover]
pub proof fn lemma_codec_round_trip(d: DecisionV, links: Seq<LinkSummaryV>)
    ensures
        dec_spec(crate::codec::enc_spec(d, links)) == Some((d, links)),
{
    let tail = enc_tail_part(d, links);
    let prov_part = enc_prov_part(d);
    let class_part = enc_class_part(d);
    let open_part = enc_open_part(d);
    lemma_class_part_head(d);
    lemma_prov_part_head(d);
    assert((class_part + (prov_part + tail))[2] == class_part[2]);
    assert((prov_part + tail)[2] == prov_part[2]);
    lemma_rt_open(d, class_part + (prov_part + tail));
    lemma_rt_class(d, prov_part + tail);
    lemma_rt_prov(d, tail);
    let d0 = DecisionV {
        id: d.id,
        title: d.title,
        body: d.body,
        level: d.level,
        status: d.status,
        superseded_by: d.superseded_by,
        author: d.author,
        created_at: d.created_at,
        updated_at: d.updated_at,
        labels: Seq::empty(),
        kind: Kind::Choice,
        weight: Weight::Should,
        rebuttal: None,
        scope: None,
    };
    lemma_rt_tail(d, links, d0);
    assert((DecisionV {
        labels: d.labels,
        kind: d.kind,
        weight: d.weight,
        rebuttal: d.rebuttal,
        scope: d.scope,
        ..d0
    }) == d);
}

} // verus!
