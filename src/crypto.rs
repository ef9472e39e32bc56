use k256::ecdsa::signature::Verifier;
use vstd::prelude::*;

verus! {

/// Whether `sig` is a valid secp256k1 ECDSA signature of `msg` under the
/// SEC1-encoded public key `key`.
pub uninterp spec fn ecdsa_accepts(key: Seq<u8>, msg: Seq<u8>, sig: Seq<u8>) -> bool;

/// Relies on k256's ECDSA verification: `VerifyingKey::from_sec1_bytes` and
/// `Signature::from_slice` read the key and the signature (an unreadable one
/// verifies nothing), and `Verifier::verify` checks the signature of `msg`.
/// The answer depends on the three byte strings alone.
#[verifier::external_body]
fn ecdsa_verify(key: &[u8; 33], msg: &Vec<u8>, sig: &[u8; 64]) -> (r: bool)
    ensures
        r == ecdsa_accepts(key@, msg@, sig@),
{
    match (
        k256::ecdsa::VerifyingKey::from_sec1_bytes(key),
        k256::ecdsa::Signature::from_slice(sig),
    ) {
        (Ok(k), Ok(s)) => k.verify(msg.as_slice(), &s).is_ok(),
        _ => false,
    }
}

/// A secp256k1 public key in compressed SEC1 form.
#[derive(Clone, Copy, Debug)]
pub struct PublicKey(pub [u8; 33]);

/// A secp256k1 ECDSA signature: the 32 bytes of `r` followed by the 32 bytes of `s`.
#[derive(Clone, Copy, Debug)]
pub struct Signature(pub [u8; 64]);

/// Whether `sig` signs the 32 bytes of `h` under `key`.
pub open spec fn signs(sig: Signature, h: crate::sha256::Hash, key: PublicKey) -> bool {
    ecdsa_accepts(key.0@, h.bytes_spec(), sig.0@)
}

impl Signature {
    /// Checks that this signature signs the digest of the output it spends
    /// under that output's key.
    pub fn verify(&self, output_hash: &crate::sha256::Hash, public_key: &PublicKey) -> (r: bool)
        ensures
            r == signs(*self, *output_hash, *public_key),
    {
        let msg = output_hash.as_bytes();
        ecdsa_verify(&public_key.0, &msg, &self.0)
    }
}

/// Appends the bytes of a fixed-size array.
pub fn push_all<const N: usize>(out: &mut Vec<u8>, bytes: &[u8; N])
    ensures
        final(out)@ == old(out)@ + bytes@,
{
    let mut i: usize = 0;
    while i < N
        invariant
            i <= N,
            N == bytes@.len(),
            out@ == old(out)@ + bytes@.subrange(0, i as int),
        decreases N - i,
    {
        out.push(bytes[i]);
        i = i + 1;
        assert(out@ =~= old(out)@ + bytes@.subrange(0, i as int));
    }
    assert(bytes@.subrange(0, N as int) =~= bytes@);
}

} // verus!
