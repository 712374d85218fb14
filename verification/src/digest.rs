//! The digest of a law: the SHA-256 of its document, in lower-case hex.
use vstd::prelude::*;

use sha2::{Digest, Sha256};

verus! {

/// The SHA-256 digest of `data`.
pub uninterp spec fn sha256_spec(data: Seq<u8>) -> Seq<u8>;

/// Calls `sha2::Sha256::digest`, whose result is the SHA-256 digest of
/// `data`: a function of `data` alone, 32 bytes long (the output size of
/// `Sha256` is `U32`).  What those bytes are is not stated here.
#[verifier::external_body]
fn sha256(data: &[u8]) -> (r: Vec<u8>)
    ensures
        r@ == sha256_spec(data@),
        r@.len() == 32,
{
    Sha256::digest(data).to_vec()
}

pub open spec fn hex_table() -> Seq<char> {
    "0123456789abcdef"@
}

/// The bytes in lower-case hex, two digits per byte, high digit first.
pub open spec fn hex_lower(bytes: Seq<u8>) -> Seq<char>
    decreases bytes.len(),
{
    if bytes.len() == 0 {
        Seq::empty()
    } else {
        hex_lower(bytes.drop_last()) + seq![
            hex_table()[bytes.last() as int / 16],
            hex_table()[bytes.last() as int % 16],
        ]
    }
}

/// The bytes in lower-case hex.
pub fn to_hex(bytes: &[u8]) -> (r: String)
    ensures
        r@ == hex_lower(bytes@),
        r@.len() == 2 * bytes@.len(),
{
    let table: &str = "0123456789abcdef";
    proof {
        reveal_strlit("0123456789abcdef");
    }
    assert(table@ == hex_table());
    let mut out = String::new();
    let mut i: usize = 0;
    proof {
        assert(bytes@.take(0) =~= Seq::<u8>::empty());
    }
    while i < bytes.len()
        invariant
            i <= bytes@.len(),
            table@ == hex_table(),
            table@.len() == 16,
            out@ == hex_lower(bytes@.take(i as int)),
            out@.len() == 2 * i,
        decreases bytes@.len() - i,
    {
        let b = bytes[i];
        let hi = (b / 16) as usize;
        let lo = (b % 16) as usize;
        let ghost before = out@;
        out.append(table.substring_char(hi, hi + 1));
        out.append(table.substring_char(lo, lo + 1));
        proof {
            let t = bytes@.take(i as int + 1);
            assert(t.drop_last() =~= bytes@.take(i as int));
            assert(t.last() == b);
            assert(out@ =~= before + seq![hex_table()[b as int / 16], hex_table()[b as int % 16]]);
        }
        i = i + 1;
    }
    proof {
        assert(bytes@.take(bytes@.len() as int) =~= bytes@);
    }
    out
}

/// The digest of a law document: the SHA-256 of its bytes in lower-case hex.
pub fn compute_digest(document: &[u8]) -> (r: String)
    ensures
        r@ == hex_lower(sha256_spec(document@)),
        r@.len() == 64,
{
    let hash = sha256(document);
    to_hex(hash.as_slice())
}

} // verus!
