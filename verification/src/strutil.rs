//! Small string helpers shared across the library: equality and
//! byte-lexicographic comparison of text, substring search, and clones of
//! string containers that provably keep their contents.
//!
//! Text is compared through its UTF-8 bytes.  Byte order coincides with
//! code-point order, so "byte-lexicographic" below is the usual lexicographic
//! order on strings.

use vstd::prelude::*;

verus! {

use vstd::string::StrSliceExecFns;
use vstd::string::StringSliceAdditionalSpecFns;

broadcast use vstd::utf8::group_utf8_lib;

/// Lexicographic strictly-less-than on byte sequences.
pub open spec fn bytes_lt(a: Seq<u8>, b: Seq<u8>) -> bool
    decreases a.len(),
{
    if b.len() == 0 {
        false
    } else if a.len() == 0 {
        true
    } else if a[0] < b[0] {
        true
    } else if a[0] > b[0] {
        false
    } else {
        bytes_lt(a.drop_first(), b.drop_first())
    }
}

/// Byte-lexicographic strictly-less-than on text.
pub open spec fn str_lt(a: Seq<char>, b: Seq<char>) -> bool {
    bytes_lt(vstd::utf8::encode_utf8(a), vstd::utf8::encode_utf8(b))
}

/// Whether two strings hold the same text.
pub fn str_eq(a: &str, b: &str) -> (r: bool)
    ensures
        r == (a@ == b@),
{
    let ab = a.as_bytes();
    let bb = b.as_bytes();
    if ab.len() != bb.len() {
        return false;
    }
    let n = ab.len();
    for i in 0..n
        invariant
            n == ab@.len() == bb@.len(),
            ab@ == a.spec_bytes(),
            bb@ == b.spec_bytes(),
            forall|j: int| 0 <= j < i ==> ab@[j] == bb@[j],
    {
        if ab[i] != bb[i] {
            return false;
        }
    }
    proof {
        assert(a.spec_bytes() =~= b.spec_bytes());
        assert(vstd::utf8::decode_utf8(a.spec_bytes()) == a@);
        assert(vstd::utf8::decode_utf8(b.spec_bytes()) == b@);
    }
    true
}

/// Whether string `a` is byte-lexicographically before string `b`.
pub fn str_less(a: &str, b: &str) -> (r: bool)
    ensures
        r == str_lt(a@, b@),
    decreases a@.len(),
{
    let ab = a.as_bytes();
    let bb = b.as_bytes();
    let an = ab.len();
    let bn = bb.len();
    let mut i: usize = 0;
    proof {
        assert(ab@.skip(0) =~= ab@);
        assert(bb@.skip(0) =~= bb@);
    }
    loop
        invariant
            i <= an,
            i <= bn,
            an == ab@.len(),
            bn == bb@.len(),
            ab@ == a.spec_bytes(),
            bb@ == b.spec_bytes(),
            forall|j: int| 0 <= j < i ==> ab@[j] == bb@[j],
            str_lt(a@, b@) == bytes_lt(ab@.skip(i as int), bb@.skip(i as int)),
        decreases an - i,
    {
        if i == bn {
            proof {
                assert(bb@.skip(i as int).len() == 0);
            }
            return false;
        }
        if i == an {
            proof {
                assert(ab@.skip(i as int).len() == 0);
                assert(bb@.skip(i as int).len() > 0);
            }
            return true;
        }
        let x = ab[i];
        let y = bb[i];
        if x < y {
            proof {
                assert(ab@.skip(i as int)[0] == x);
                assert(bb@.skip(i as int)[0] == y);
            }
            return true;
        }
        if x > y {
            proof {
                assert(ab@.skip(i as int)[0] == x);
                assert(bb@.skip(i as int)[0] == y);
            }
            return false;
        }
        proof {
            assert(ab@.skip(i as int)[0] == x);
            assert(bb@.skip(i as int)[0] == y);
            assert(ab@.skip(i as int).drop_first() =~= ab@.skip(i + 1));
            assert(bb@.skip(i as int).drop_first() =~= bb@.skip(i + 1));
        }
        i = i + 1;
    }
}

/// Whether byte sequence `pat` occurs as a contiguous run inside `hay`.
pub open spec fn bytes_contains(hay: Seq<u8>, pat: Seq<u8>) -> bool {
    exists|k: int|
        0 <= k <= hay.len() - pat.len() && #[trigger] hay.subrange(k, k + pat.len() as int)
            == pat
}

/// Whether the text `pat` occurs as a substring of the text `hay`, compared
/// byte for byte (so exactly, case-sensitively).
pub open spec fn str_contains(hay: Seq<char>, pat: Seq<char>) -> bool {
    bytes_contains(vstd::utf8::encode_utf8(hay), vstd::utf8::encode_utf8(pat))
}

/// Whether `pat` occurs as a substring of `hay` (case-sensitive).
pub fn contains(hay: &str, pat: &str) -> (r: bool)
    ensures
        r == str_contains(hay@, pat@),
{
    let hb = hay.as_bytes();
    let pb = pat.as_bytes();
    let hn = hb.len();
    let pn = pb.len();
    if pn > hn {
        return false;
    }
    let mut k: usize = 0;
    loop
        invariant
            pn <= hn,
            hn == hb@.len(),
            pn == pb@.len(),
            hb@ == hay.spec_bytes(),
            pb@ == pat.spec_bytes(),
            k <= hn - pn + 1,
            forall|q: int|
                0 <= q < k ==> #[trigger] hb@.subrange(q, q + pb@.len() as int) != pb@,
        decreases hn - pn + 1 - k,
    {
        if k > hn - pn {
            proof {
                assert forall|q: int|
                    0 <= q <= hb@.len() - pb@.len() implies #[trigger] hb@.subrange(
                    q,
                    q + pb@.len() as int,
                ) != pb@ by {
                    assert(q < k);
                }
            }
            return false;
        }
        let mut hit = true;
        for j in 0..pn
            invariant
                j <= pn,
                pn <= hn,
                k <= hn - pn,
                hn == hb@.len(),
                pn == pb@.len(),
                hit == (forall|t: int| 0 <= t < j ==> hb@[k + t] == pb@[t]),
        {
            let same = hb[k + j] == pb[j];
            proof {
                if hit && same {
                    assert forall|t: int| 0 <= t < j + 1 implies hb@[k + t] == pb@[t] by {}
                }
                if !(hit && same) {
                    if !same {
                        assert(hb@[k + j as int] != pb@[j as int]);
                    } else {
                        let t = choose|t: int| 0 <= t < j && hb@[k + t] != pb@[t];
                        assert(hb@[k + t] != pb@[t]);
                    }
                }
            }
            hit = hit && same;
        }
        if hit {
            proof {
                assert(hb@.subrange(k as int, k + pb@.len() as int) =~= pb@);
            }
            return true;
        }
        proof {
            let t = choose|t: int| 0 <= t < pn && hb@[k + t] != pb@[t];
            assert(hb@.subrange(k as int, k + pb@.len() as int)[t] != pb@[t]);
        }
        k = k + 1;
    }
}

/// The character with ASCII upper case folded away: the twenty-six ASCII
/// capitals map to their lower-case counterparts, everything else stays.
pub open spec fn fold_char(c: char) -> char {
    if c == 'A' {
        'a'
    } else if c == 'B' {
        'b'
    } else if c == 'C' {
        'c'
    } else if c == 'D' {
        'd'
    } else if c == 'E' {
        'e'
    } else if c == 'F' {
        'f'
    } else if c == 'G' {
        'g'
    } else if c == 'H' {
        'h'
    } else if c == 'I' {
        'i'
    } else if c == 'J' {
        'j'
    } else if c == 'K' {
        'k'
    } else if c == 'L' {
        'l'
    } else if c == 'M' {
        'm'
    } else if c == 'N' {
        'n'
    } else if c == 'O' {
        'o'
    } else if c == 'P' {
        'p'
    } else if c == 'Q' {
        'q'
    } else if c == 'R' {
        'r'
    } else if c == 'S' {
        's'
    } else if c == 'T' {
        't'
    } else if c == 'U' {
        'u'
    } else if c == 'V' {
        'v'
    } else if c == 'W' {
        'w'
    } else if c == 'X' {
        'x'
    } else if c == 'Y' {
        'y'
    } else if c == 'Z' {
        'z'
    } else {
        c
    }
}

/// The text with ASCII upper case folded away, character by character.
pub open spec fn fold_chars(s: Seq<char>) -> Seq<char> {
    s.map_values(|c: char| fold_char(c))
}

/// Folds one character's ASCII case.
pub fn fold_char_exec(c: char) -> (r: char)
    ensures
        r == fold_char(c),
{
    if c == 'A' {
        'a'
    } else if c == 'B' {
        'b'
    } else if c == 'C' {
        'c'
    } else if c == 'D' {
        'd'
    } else if c == 'E' {
        'e'
    } else if c == 'F' {
        'f'
    } else if c == 'G' {
        'g'
    } else if c == 'H' {
        'h'
    } else if c == 'I' {
        'i'
    } else if c == 'J' {
        'j'
    } else if c == 'K' {
        'k'
    } else if c == 'L' {
        'l'
    } else if c == 'M' {
        'm'
    } else if c == 'N' {
        'n'
    } else if c == 'O' {
        'o'
    } else if c == 'P' {
        'p'
    } else if c == 'Q' {
        'q'
    } else if c == 'R' {
        'r'
    } else if c == 'S' {
        's'
    } else if c == 'T' {
        't'
    } else if c == 'U' {
        'u'
    } else if c == 'V' {
        'v'
    } else if c == 'W' {
        'w'
    } else if c == 'X' {
        'x'
    } else if c == 'Y' {
        'y'
    } else if c == 'Z' {
        'z'
    } else {
        c
    }
}

/// Whether `a`, with its ASCII case folded away, holds the same text as
/// `b`.
pub fn str_eq_fold(a: &str, b: &str) -> (r: bool)
    ensures
        r == (fold_chars(a@) == b@),
{
    let an = a.unicode_len();
    let bn = b.unicode_len();
    if an != bn {
        proof {
            assert(fold_chars(a@).len() == a@.len());
        }
        return false;
    }
    for i in 0..an
        invariant
            an == a@.len(),
            an == bn,
            bn == b@.len(),
            forall|j: int| 0 <= j < i ==> fold_char(a@[j]) == b@[j],
    {
        let ca = a.get_char(i);
        let cb = b.get_char(i);
        if fold_char_exec(ca) != cb {
            proof {
                assert(fold_chars(a@)[i as int] == fold_char(a@[i as int]));
            }
            return false;
        }
    }
    proof {
        assert forall|j: int| 0 <= j < a@.len() implies #[trigger] fold_chars(a@)[j]
            == b@[j] by {
            assert(fold_chars(a@)[j] == fold_char(a@[j]));
        }
        assert(fold_chars(a@) =~= b@);
    }
    true
}

/// Clones an optional string; the copy equals the original.
pub fn clone_opt_string(o: &Option<String>) -> (r: Option<String>)
    ensures
        r == *o,
{
    match o {
        Some(s) => Some(s.clone()),
        None => None,
    }
}

/// Clones a vector of strings; the copy equals the original element for
/// element.
pub fn clone_string_vec(v: &Vec<String>) -> (r: Vec<String>)
    ensures
        r@ == v@,
{
    let mut out: Vec<String> = Vec::new();
    let n = v.len();
    for i in 0..n
        invariant
            n == v@.len(),
            out@.len() == i,
            forall|j: int| 0 <= j < i ==> out@[j] == v@[j],
    {
        out.push(v[i].clone());
    }
    proof {
        assert(out@ =~= v@);
    }
    out
}

} // verus!
