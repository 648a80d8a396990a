use vstd::prelude::*;

verus! {

use vstd::bytes::spec_u32_to_le_bytes;
use vstd::bytes::u32_to_le_bytes;

/// Byte length of the RSA modulus carried in the Android public-key format.
pub open spec fn modulus_len() -> nat {
    256
}

/// The Android public-key wire layout: the modulus word count, the negated
/// inverse of the lowest modulus word, the modulus and the Montgomery
/// parameter in little-endian order, and the public exponent, all words
/// little-endian.
pub open spec fn android_pubkey_bytes(
    n0inv: u32,
    modulus: Seq<u8>,
    rr: Seq<u8>,
    exponent: u32,
) -> Seq<u8> {
    spec_u32_to_le_bytes(64) + spec_u32_to_le_bytes(n0inv) + modulus + rr + spec_u32_to_le_bytes(
        exponent,
    )
}

fn append_bytes(out: &mut Vec<u8>, b: &[u8])
    ensures
        final(out)@ == old(out)@ + b@,
{
    let mut i: usize = 0;
    while i < b.len()
        invariant
            i <= b@.len(),
            out@ =~= old(out)@ + b@.take(i as int),
        decreases b@.len() - i,
    {
        let byte = b[i];
        out.push(byte);
        i += 1;
        proof {
            assert(out@ =~= old(out)@ + b@.take(i as int));
        }
    }
    proof {
        assert(out@ =~= old(out)@ + b@);
    }
}

/// Serializes an RSA-2048 public key into the Android wire format from its
/// precomputed parts: the negated inverse of the lowest modulus word, the
/// 256-byte little-endian modulus, the 256-byte little-endian Montgomery
/// parameter, and the exponent.
pub fn encode_android_pubkey(n0inv: u32, modulus_le: &[u8], rr_le: &[u8], exponent: u32) -> (r: Vec<
    u8,
>)
    requires
        modulus_le@.len() == modulus_len(),
        rr_le@.len() == modulus_len(),
    ensures
        r@ == android_pubkey_bytes(n0inv, modulus_le@, rr_le@, exponent),
        r@.len() == 524,
{
    let mut out: Vec<u8> = Vec::new();
    let words = u32_to_le_bytes(64);
    append_bytes(&mut out, words.as_slice());
    let inv = u32_to_le_bytes(n0inv);
    append_bytes(&mut out, inv.as_slice());
    append_bytes(&mut out, modulus_le);
    append_bytes(&mut out, rr_le);
    let exp = u32_to_le_bytes(exponent);
    append_bytes(&mut out, exp.as_slice());
    proof {
        vstd::bytes::lemma_auto_spec_u32_to_from_le_bytes();
        assert(out@ =~= android_pubkey_bytes(n0inv, modulus_le@, rr_le@, exponent));
    }
    out
}

} // verus!
