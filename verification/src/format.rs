//! Output-format selection and the rendering dispatch: plain text, or the
//! compact JSON record form (one object, or one object per line for
//! listings).

use vstd::prelude::*;

use crate::error::DictumError;
use crate::model::{Decision, DecisionV, Link};

verus! {

use vstd::utf8::{decode_utf8, encode_utf8, valid_utf8};

/// How output is rendered.
#[derive(Clone, Copy, Debug, PartialEq, Eq, Structural)]
pub enum OutputFormat {
    Text,
    Json,
    Jsonl,
}

impl OutputFormat {
    /// The format a request selects: a recognized name wins; anything else
    /// falls back to text on a terminal and JSON elsewhere.
    pub open spec fn chosen(s: Option<Seq<char>>, is_tty: bool) -> OutputFormat {
        match s {
            Some(t) => if t == "json"@ {
                OutputFormat::Json
            } else if t == "jsonl"@ {
                OutputFormat::Jsonl
            } else if t == "text"@ {
                OutputFormat::Text
            } else if is_tty {
                OutputFormat::Text
            } else {
                OutputFormat::Json
            },
            None => if is_tty {
                OutputFormat::Text
            } else {
                OutputFormat::Json
            },
        }
    }

    /// Picks the output format from an optional request and whether output
    /// goes to a terminal.
    pub fn from_str_or_auto(s: Option<&str>, is_tty: bool) -> (r: OutputFormat)
        ensures
            r == OutputFormat::chosen(s.deep_view(), is_tty),
    {
        match s {
            Some(t) => {
                if crate::strutil::str_eq(t, "json") {
                    OutputFormat::Json
                } else if crate::strutil::str_eq(t, "jsonl") {
                    OutputFormat::Jsonl
                } else if crate::strutil::str_eq(t, "text") {
                    OutputFormat::Text
                } else if is_tty {
                    OutputFormat::Text
                } else {
                    OutputFormat::Json
                }
            },
            None => {
                if is_tty {
                    OutputFormat::Text
                } else {
                    OutputFormat::Json
                }
            },
        }
    }
}

/// The compact records of a run of decisions, one per line, each without
/// links.
pub open spec fn jsonl_bytes_spec(ds: Seq<DecisionV>) -> Seq<u8>
    decreases ds.len(),
{
    if ds.len() == 0 {
        Seq::empty()
    } else {
        jsonl_bytes_spec(ds.drop_last()) + crate::codec::enc_spec(ds.last(), Seq::empty())
            + seq![10u8]
    }
}

/// Renders one decision with its links in the chosen format: indented text,
/// or its compact JSON record (the JSON forms only differ for listings).
/// The text form always renders; a JSON form renders exactly when the
/// record's bytes are valid UTF-8, which encoding text always yields.
pub fn format_decision(decision: &Decision, links: &Vec<Link>, format: OutputFormat) -> (r:
    Result<String, DictumError>)
    ensures
        match format {
            OutputFormat::Text => r matches Ok(s) && s@ == crate::textfmt::decision_text_spec(
                decision@,
                links.deep_view(),
            ),
            OutputFormat::Json => ({
                let bytes = crate::codec::enc_spec(
                    decision@,
                    crate::codec::summaries_of(links.deep_view()),
                );
                match r {
                    Ok(s) => valid_utf8(bytes) && s@ == decode_utf8(bytes),
                    Err(e) => !valid_utf8(bytes) && (e
                        matches DictumError::SerializationError(_)),
                }
            }),
            OutputFormat::Jsonl => ({
                let bytes = crate::codec::enc_spec(decision@, Seq::empty());
                match r {
                    Ok(s) => valid_utf8(bytes) && s@ == decode_utf8(bytes),
                    Err(e) => !valid_utf8(bytes) && (e
                        matches DictumError::SerializationError(_)),
                }
            }),
        },
{
    match format {
        OutputFormat::Text => Ok(crate::textfmt::format_decision(decision, links)),
        OutputFormat::Json => {
            let bytes = crate::codec::encode(decision, links);
            crate::decode::bytes_to_text(bytes)
        },
        OutputFormat::Jsonl => {
            let empty: Vec<Link> = Vec::new();
            proof {
                assert(crate::codec::summaries_of(empty.deep_view())
                    =~= Seq::<crate::codec::LinkSummaryV>::empty());
            }
            let bytes = crate::codec::encode(decision, &empty);
            crate::decode::bytes_to_text(bytes)
        },
    }
}

/// Renders a run of decisions in the chosen format: the text listing, or
/// their compact JSON records one per line.
pub fn format_decision_list(decisions: &Vec<Decision>, format: OutputFormat) -> (r: Result<
    String,
    DictumError,
>)
    ensures
        match format {
            OutputFormat::Text => r matches Ok(s) && (decisions@.len() == 0 ==> s@
                == "No decisions found.\n"@) && (decisions@.len() > 0 ==> s@
                == crate::textfmt::listing_spec(decisions.deep_view())),
            _ => ({
                let bytes = jsonl_bytes_spec(decisions.deep_view());
                match r {
                    Ok(s) => valid_utf8(bytes) && s@ == decode_utf8(bytes),
                    Err(e) => !valid_utf8(bytes) && (e
                        matches DictumError::SerializationError(_)),
                }
            }),
        },
{
    match format {
        OutputFormat::Text => Ok(crate::textfmt::format_decision_list(decisions)),
        _ => {
            let mut bytes: Vec<u8> = Vec::new();
            let ghost dv = decisions.deep_view();
            let n = decisions.len();
            proof {
                assert(bytes@ =~= jsonl_bytes_spec(dv.take(0)));
            }
            for i in 0..n
                invariant
                    n == decisions@.len(),
                    n == dv.len(),
                    dv == decisions.deep_view(),
                    bytes@ == jsonl_bytes_spec(dv.take(i as int)),
            {
                proof {
                    assert(dv[i as int] == decisions@[i as int]@);
                    assert(dv.take(i + 1).drop_last() =~= dv.take(i as int));
                    assert(dv.take(i + 1).last() == dv[i as int]);
                }
                let empty: Vec<Link> = Vec::new();
                proof {
                    assert(crate::codec::summaries_of(empty.deep_view())
                        =~= Seq::<crate::codec::LinkSummaryV>::empty());
                }
                let mut line = crate::codec::encode(&decisions[i], &empty);
                bytes.append(&mut line);
                bytes.push(10);
                proof {
                    assert(bytes@ =~= jsonl_bytes_spec(dv.take(i + 1)));
                }
            }
            proof {
                assert(dv.take(n as int) =~= dv);
            }
            crate::decode::bytes_to_text(bytes)
        },
    }
}

} // verus!
