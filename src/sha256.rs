use crate::u256::U256;
use sha2::Digest;
use vstd::prelude::*;

verus! {

/// What SHA-256 gives for a byte string.
pub uninterp spec fn sha256_digest(data: Seq<u8>) -> Seq<u8>;

/// Relies on `sha2::Sha256::digest`: the SHA-256 digest of `data`, which is
/// always 32 bytes long.
#[verifier::external_body]
fn sha256(data: &Vec<u8>) -> (r: Vec<u8>)
    ensures
        r@ == sha256_digest(data@),
        r@.len() == 32,
{
    sha2::Sha256::digest(data.as_slice()).to_vec()
}

/// The eight bytes of `x`, most significant first.
pub open spec fn u64_be(x: u64) -> Seq<u8> {
    seq![
        (x / 0x100_0000_0000_0000) as u8,
        ((x / 0x1_0000_0000_0000) % 256) as u8,
        ((x / 0x100_0000_0000) % 256) as u8,
        ((x / 0x1_0000_0000) % 256) as u8,
        ((x / 0x100_0000) % 256) as u8,
        ((x / 0x1_0000) % 256) as u8,
        ((x / 0x100) % 256) as u8,
        (x % 256) as u8,
    ]
}

/// The number written by the eight bytes of `d` from `at`, most significant first.
pub open spec fn be_u64(d: Seq<u8>, at: int) -> u64 {
    (d[at] * 0x100_0000_0000_0000 + d[at + 1] * 0x1_0000_0000_0000 + d[at + 2] * 0x100_0000_0000
        + d[at + 3] * 0x1_0000_0000 + d[at + 4] * 0x100_0000 + d[at + 5] * 0x1_0000 + d[at + 6]
        * 0x100 + d[at + 7]) as u64
}

/// Appends the eight bytes of `x`, most significant first.
pub fn push_u64(out: &mut Vec<u8>, x: u64)
    ensures
        final(out)@ == old(out)@ + u64_be(x),
{
    out.push((x / 0x100_0000_0000_0000) as u8);
    out.push(((x / 0x1_0000_0000_0000) % 256) as u8);
    out.push(((x / 0x100_0000_0000) % 256) as u8);
    out.push(((x / 0x1_0000_0000) % 256) as u8);
    out.push(((x / 0x100_0000) % 256) as u8);
    out.push(((x / 0x1_0000) % 256) as u8);
    out.push(((x / 0x100) % 256) as u8);
    out.push((x % 256) as u8);
    assert(final(out)@ =~= old(out)@ + u64_be(x));
}

fn read_be_u64(d: &Vec<u8>, at: usize) -> (r: u64)
    requires
        d@.len() == 32,
        at <= 24,
    ensures
        r == be_u64(d@, at as int),
{
    let r = d[at] as u64 * 0x100_0000_0000_0000 + d[at + 1] as u64 * 0x1_0000_0000_0000
        + d[at + 2] as u64 * 0x100_0000_0000 + d[at + 3] as u64 * 0x1_0000_0000 + d[at + 4] as u64
        * 0x100_0000 + d[at + 5] as u64 * 0x1_0000 + d[at + 6] as u64 * 0x100 + d[at + 7] as u64;
    r
}

/// A 256-bit digest. As a number it is read with its first byte most significant.
#[derive(Clone, Copy, Debug, PartialEq, Eq, Structural)]
pub struct Hash(pub U256);

/// The digest of a 32-byte SHA-256 output.
pub open spec fn digest_from_bytes(d: Seq<u8>) -> Hash {
    Hash(U256 { w3: be_u64(d, 0), w2: be_u64(d, 8), w1: be_u64(d, 16), w0: be_u64(d, 24) })
}

/// The digest of a byte string.
pub open spec fn hash_of(data: Seq<u8>) -> Hash {
    digest_from_bytes(sha256_digest(data))
}

impl Hash {
    /// The 32 bytes of the digest, most significant first.
    pub open spec fn bytes_spec(self) -> Seq<u8> {
        u64_be(self.0.w3) + u64_be(self.0.w2) + u64_be(self.0.w1) + u64_be(self.0.w0)
    }

    /// The all-zero digest, which the first block names as its predecessor.
    pub fn zero() -> (r: Hash)
        ensures
            r.0.value() == 0,
            r == Hash(U256 { w0: 0, w1: 0, w2: 0, w3: 0 }),
    {
        Hash(U256::zero())
    }

    /// Hashes a byte string with SHA-256.
    pub fn hash_bytes(data: &Vec<u8>) -> (r: Hash)
        ensures
            r == hash_of(data@),
    {
        let d = sha256(data);
        Hash(U256 {
            w3: read_be_u64(&d, 0),
            w2: read_be_u64(&d, 8),
            w1: read_be_u64(&d, 16),
            w0: read_be_u64(&d, 24),
        })
    }

    /// Whether the digest, as a number, is at most `target`.
    pub fn matches_target(&self, target: U256) -> (r: bool)
        ensures
            r == (self.0.value() <= target.value()),
    {
        self.0.le(&target)
    }

    /// Appends the 32 bytes of the digest.
    pub fn write_to(&self, out: &mut Vec<u8>)
        ensures
            final(out)@ == old(out)@ + self.bytes_spec(),
    {
        push_u64(out, self.0.w3);
        push_u64(out, self.0.w2);
        push_u64(out, self.0.w1);
        push_u64(out, self.0.w0);
        assert(final(out)@ =~= old(out)@ + self.bytes_spec());
    }

    /// The 32 bytes of the digest, most significant first.
    pub fn as_bytes(&self) -> (r: Vec<u8>)
        ensures
            r@ == self.bytes_spec(),
    {
        let mut out: Vec<u8> = Vec::new();
        self.write_to(&mut out);
        assert(out@ =~= self.bytes_spec());
        out
    }
}

} // verus!
