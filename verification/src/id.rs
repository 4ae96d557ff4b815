//! Deterministic identifier generation.  An id is derived from the title and
//! creation timestamp alone: a cryptographic digest of their concatenation is
//! truncated to 32 bits, rendered in base 36, padded to at least three and
//! cut to at most six characters, and prefixed.  Identical inputs always give
//! the identical id; collision handling is the caller's business.

use vstd::prelude::*;

use sha2::Digest;

verus! {

use vstd::string::StrSliceExecFns;
use vstd::string::StringExecFns;
use vstd::string::StringSliceAdditionalSpecFns;

/// The SHA-256 digest of a byte sequence, as the 32 digest bytes.
pub uninterp spec fn sha256_of(bytes: Seq<u8>) -> Seq<u8>;

/// Relies on sha2's SHA-256 implementation through the Digest interface:
/// feeding two byte runs digests their concatenation, the digest is 32 bytes
/// long, and it depends on the fed bytes alone.
#[verifier::external_body]
fn sha256_pair(a: &str, b: &str) -> (r: Vec<u8>)
    ensures
        r@ == sha256_of(a.spec_bytes() + b.spec_bytes()),
        r@.len() == 32,
{
    let mut hasher = sha2::Sha256::new();
    hasher.update(a.as_bytes());
    hasher.update(b.as_bytes());
    hasher.finalize().to_vec()
}

/// The base-36 digit alphabet.
pub open spec fn base36_digit(d: int) -> char {
    "0123456789abcdefghijklmnopqrstuvwxyz"@[d]
}

/// The base-36 digits of `n`, most significant first; empty for zero.
pub open spec fn base36_digits(n: nat) -> Seq<char>
    decreases n,
{
    if n == 0 {
        Seq::empty()
    } else {
        base36_digits(n / 36) + seq![base36_digit((n % 36) as int)]
    }
}

/// The base-36 rendering of `n`; zero renders as "0".
pub open spec fn base36_spec(n: nat) -> Seq<char> {
    if n == 0 {
        "0"@
    } else {
        base36_digits(n)
    }
}

/// Every base-36 digit is an ASCII character.
proof fn lemma_base36_digits_ascii(n: nat)
    ensures
        vstd::utf8::is_ascii_chars(base36_digits(n)),
        forall|i: int|
            0 <= i < base36_digits(n).len() ==> ((#[trigger] base36_digits(n)[i]) as nat)
                < 128,
    decreases n,
{
    reveal_strlit("0123456789abcdefghijklmnopqrstuvwxyz");
    if n == 0 {
    } else {
        lemma_base36_digits_ascii(n / 36);
        let pre = base36_digits(n / 36);
        let whole = base36_digits(n);
        assert(whole == pre + seq![base36_digit((n % 36) as int)]);
        assert((base36_digit((n % 36) as int) as nat) < 128);
        assert forall|i: int| 0 <= i < whole.len() implies ((#[trigger] whole[i]) as nat)
            < 128 by {
            if i < pre.len() {
                assert(whole[i] == pre[i]);
            } else {
                assert(whole[i] == base36_digit((n % 36) as int));
            }
        }
        vstd::utf8::is_ascii_chars_nat_bound(whole);
    }
}

/// Renders `n` in base 36 with digits 0-9 then a-z.
pub fn base36_encode(n: u32) -> (r: String)
    ensures
        r@ == base36_spec(n as nat),
{
    let alphabet = "0123456789abcdefghijklmnopqrstuvwxyz";
    proof {
        reveal_strlit("0123456789abcdefghijklmnopqrstuvwxyz");
        assert(alphabet.is_ascii());
        assert(alphabet@.len() == 36);
    }
    if n == 0 {
        return "0".to_owned();
    }
    let mut s = String::new();
    let mut m = n;
    proof {
        assert(base36_digits(n as nat) =~= base36_digits(m as nat) + s@);
    }
    while m > 0
        invariant
            alphabet@ == "0123456789abcdefghijklmnopqrstuvwxyz"@,
            alphabet@.len() == 36,
            alphabet.is_ascii(),
            base36_digits(n as nat) == base36_digits(m as nat) + s@,
            n > 0,
            m == 0 ==> s@.len() > 0,
        decreases m,
    {
        let d = (m % 36) as usize;
        let digit = alphabet.substring_ascii(d, d + 1);
        proof {
            assert(digit@ =~= seq![base36_digit(d as int)]);
        }
        let glued = String::from_str(digit).concat(s.as_str());
        proof {
            let mm = m as nat;
            assert(base36_digits(mm) == base36_digits(mm / 36) + seq![
                base36_digit((mm % 36) as int),
            ]);
            assert(base36_digits(mm) + s@ =~= base36_digits(mm / 36) + glued@);
        }
        s = glued;
        m = m / 36;
    }
    proof {
        assert(base36_digits(0nat) + s@ =~= s@);
    }
    s
}

/// The rendered digits padded with leading zeros to at least three
/// characters and cut to at most six.
pub open spec fn pad_spec(s: Seq<char>) -> Seq<char> {
    if s.len() < 3 {
        Seq::new((3 - s.len()) as nat, |i: int| '0') + s
    } else if s.len() > 6 {
        s.subrange(0, 6)
    } else {
        s
    }
}

/// The 32-bit number read big-endian from the first four digest bytes.
pub open spec fn first_word_spec(digest: Seq<u8>) -> nat
    recommends
        digest.len() >= 4,
{
    (digest[0] * 0x1000000 + digest[1] * 0x10000 + digest[2] * 0x100 + digest[3]) as nat
}

/// The id generated for a title and creation timestamp under a prefix.
pub open spec fn id_spec(prefix: Seq<char>, title: Seq<char>, created_at: Seq<char>) -> Seq<
    char,
> {
    let digest = sha256_of(
        vstd::utf8::encode_utf8(title) + vstd::utf8::encode_utf8(created_at),
    );
    prefix + "-"@ + pad_spec(base36_spec(first_word_spec(digest)))
}

/// Generates the deterministic id for (prefix, title, created_at): the
/// SHA-256 digest of title and timestamp concatenated without separator,
/// its first 32 bits in base 36, zero-padded to at least three characters,
/// cut to at most six, behind "prefix-".
pub fn generate_id(prefix: &str, title: &str, created_at: &str) -> (r: String)
    ensures
        r@ == id_spec(prefix@, title@, created_at@),
{
    let digest = sha256_pair(title, created_at);
    let num: u32 = (digest[0] as u32) * 0x1000000 + (digest[1] as u32) * 0x10000 + (
    digest[2] as u32) * 0x100 + (digest[3] as u32);
    let b36 = base36_encode(num);
    let n = b36.as_str().unicode_len();
    let padded = if n < 3 {
        proof {
            reveal_strlit("0");
        }
        let mut p = String::new();
        let mut fill = n;
        while fill < 3
            invariant
                fill <= 3,
                n <= fill,
                p@ =~= Seq::new((fill - n) as nat, |i: int| '0'),
            decreases 3 - fill,
        {
            let grown = p.concat("0");
            proof {
                reveal_strlit("0");
                assert(grown@ =~= Seq::new((fill + 1 - n) as nat, |i: int| '0'));
            }
            p = grown;
            fill = fill + 1;
        }
        let out = p.concat(b36.as_str());
        proof {
            assert(out@ =~= pad_spec(b36@));
        }
        out
    } else if n > 6 {
        proof {
            lemma_base36_digits_ascii(num as nat);
            if num == 0 {
                reveal_strlit("0");
            }
            assert(vstd::utf8::is_ascii_chars(b36@));
        }
        let cut = b36.as_str().substring_ascii(0, 6);
        proof {
            assert(cut@ =~= pad_spec(b36@));
        }
        cut.to_owned()
    } else {
        b36
    };
    let mut id = prefix.to_owned();
    id.append("-");
    id.append(padded.as_str());
    proof {
        assert(id@ =~= id_spec(prefix@, title@, created_at@));
    }
    id
}

} // verus!
