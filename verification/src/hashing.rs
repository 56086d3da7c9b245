//! The digest primitive and the byte-level helpers that every hash
//! accumulator in this crate is built from.

use vstd::prelude::*;
use sha2::Digest;

verus! {

/// A 32-byte digest, carried as a plain byte vector.
pub type Hash256 = Vec<u8>;

/// What the SHA-256 digest of a byte string is. The digest itself is an
/// outside primitive; contracts speak of it only through this name.
pub uninterp spec fn sha256_of(input: Seq<u8>) -> Seq<u8>;

/// Relies on `sha2::Sha256`: the digest is a function of the input bytes
/// alone, and is exactly 32 bytes long.
#[verifier::external_body]
pub(crate) fn sha256(input: &[u8]) -> (r: Vec<u8>)
    ensures
        r@ == sha256_of(input@),
        r@.len() == 32,
{
    sha2::Sha256::digest(input).to_vec()
}

/// The digest of two byte strings laid end to end: the node rule of every
/// Merkle tree in this crate.
pub open spec fn hash2(a: Seq<u8>, b: Seq<u8>) -> Seq<u8> {
    sha256_of(a + b)
}

/// The all-zero leaf.
pub open spec fn zero32() -> Seq<u8> {
    Seq::new(32, |i: int| 0u8)
}

/// Root of a Merkle tree of `2^depth` zero leaves.
pub open spec fn zero_hash(depth: nat) -> Seq<u8>
    decreases depth,
{
    if depth == 0 {
        zero32()
    } else {
        hash2(zero_hash((depth - 1) as nat), zero_hash((depth - 1) as nat))
    }
}

/// Concatenate two vectors.
pub fn concat(vec1: Vec<u8>, vec2: Vec<u8>) -> (r: Vec<u8>)
    ensures
        r@ == vec1@ + vec2@,
{
    let ghost fst = vec1@;
    let ghost snd = vec2@;
    let mut out = vec1;
    let mut i: usize = 0;
    while i < vec2.len()
        invariant
            i <= vec2.len(),
            vec2@ == snd,
            out@ == fst + snd.take(i as int),
        decreases vec2.len() - i,
    {
        out.push(vec2[i]);
        i = i + 1;
        proof {
            assert(out@ =~= fst + snd.take(i as int));
        }
    }
    proof {
        assert(out@ =~= vec1@ + vec2@);
    }
    out
}

/// Compute the hash of two other hashes concatenated.
pub fn hash_concat(h1: &Hash256, h2: &Hash256) -> (r: Hash256)
    ensures
        r@ == hash2(h1@, h2@),
        r@.len() == 32,
{
    let a = clone_bytes(h1);
    let b = clone_bytes(h2);
    let joined = concat(a, b);
    sha256(joined.as_slice())
}

/// The all-zero leaf, as a value.
pub fn zero32_exec() -> (r: Hash256)
    ensures
        r@ == zero32(),
{
    let mut out: Vec<u8> = Vec::new();
    let mut i: usize = 0;
    while i < 32
        invariant
            i <= 32,
            out@ == zero32().take(i as int),
        decreases 32 - i,
    {
        out.push(0u8);
        i = i + 1;
        proof {
            assert(out@ =~= zero32().take(i as int));
        }
    }
    proof {
        assert(out@ =~= zero32());
    }
    out
}

/// Root of a Merkle tree of `2^depth` zero leaves, as a value.
pub fn zero_hash_exec(depth: usize) -> (r: Hash256)
    ensures
        r@ == zero_hash(depth as nat),
        r@.len() == 32,
{
    let mut h = zero32_exec();
    assert(h@.len() == 32);
    let mut d: usize = 0;
    while d < depth
        invariant
            d <= depth,
            h@ == zero_hash(d as nat),
            h@.len() == 32,
        decreases depth - d,
    {
        h = hash_concat(&h, &h);
        d = d + 1;
    }
    h
}

/// A list's element-wise view has one entry per element.
pub broadcast proof fn lemma_deep_view_len<T: DeepView>(v: Vec<T>)
    ensures
        #[trigger] v.deep_view().len() == v@.len(),
{
}

/// A byte vector's element-wise view is its plain view.
pub broadcast proof fn lemma_bytes_deep_view(v: Vec<u8>)
    ensures
        #[trigger] v.deep_view() == v@,
{
    assert(v.deep_view() =~= v@);
}

/// Byte-for-byte copy of a vector.
pub fn clone_bytes(v: &Vec<u8>) -> (r: Vec<u8>)
    ensures
        r@ == v@,
{
    let mut out: Vec<u8> = Vec::new();
    let mut i: usize = 0;
    while i < v.len()
        invariant
            i <= v.len(),
            out@ == v@.take(i as int),
        decreases v.len() - i,
    {
        out.push(v[i]);
        i = i + 1;
        proof {
            assert(out@ =~= v@.take(i as int));
        }
    }
    proof {
        assert(out@ =~= v@);
    }
    out
}

/// Byte-for-byte equality of two vectors.
pub fn bytes_eq(a: &Vec<u8>, b: &Vec<u8>) -> (r: bool)
    ensures
        r == (a@ =~= b@),
{
    if a.len() != b.len() {
        return false;
    }
    let mut i: usize = 0;
    while i < a.len()
        invariant
            i <= a.len(),
            a@.len() == b@.len(),
            forall|j: int| 0 <= j < i ==> a@[j] == b@[j],
        decreases a.len() - i,
    {
        if a[i] != b[i] {
            return false;
        }
        i = i + 1;
    }
    true
}

/// Byte-for-byte equality of a vector and a slice.
pub fn bytes_eq_slice(a: &Vec<u8>, b: &[u8]) -> (r: bool)
    ensures
        r == (a@ =~= b@),
{
    if a.len() != b.len() {
        return false;
    }
    let mut i: usize = 0;
    while i < a.len()
        invariant
            i <= a.len(),
            a@.len() == b@.len(),
            forall|j: int| 0 <= j < i ==> a@[j] == b@[j],
        decreases a.len() - i,
    {
        if a[i] != b[i] {
            return false;
        }
        i = i + 1;
    }
    true
}

/// Bytewise exclusive-or of two equal-length strings.
pub open spec fn xor_bytes_spec(a: Seq<u8>, b: Seq<u8>) -> Seq<u8> {
    Seq::new(a.len(), |i: int| a[i] ^ b[i])
}

/// Bytewise exclusive-or, used to fold a fresh reveal into a randomness mix.
pub fn xor_bytes(a: &Vec<u8>, b: &Vec<u8>) -> (r: Vec<u8>)
    requires
        a@.len() == b@.len(),
    ensures
        r@ == xor_bytes_spec(a@, b@),
{
    let mut out: Vec<u8> = Vec::new();
    let mut i: usize = 0;
    while i < a.len()
        invariant
            i <= a.len(),
            a@.len() == b@.len(),
            out@ == xor_bytes_spec(a@, b@).take(i as int),
        decreases a.len() - i,
    {
        out.push(a[i] ^ b[i]);
        i = i + 1;
        proof {
            assert(out@ =~= xor_bytes_spec(a@, b@).take(i as int));
        }
    }
    proof {
        assert(out@ =~= xor_bytes_spec(a@, b@));
    }
    out
}

/// A 64-bit number as eight little-endian bytes.
pub open spec fn u64_le_bytes(n: u64) -> Seq<u8> {
    Seq::new(8, |i: int| ((n >> (8 * i)) & 0xff) as u8)
}

/// A 64-bit number as eight little-endian bytes, as a value.
pub fn u64_le_bytes_exec(n: u64) -> (r: Vec<u8>)
    ensures
        r@ == u64_le_bytes(n),
{
    let mut out: Vec<u8> = Vec::new();
    let mut i: usize = 0;
    while i < 8
        invariant
            i <= 8,
            out@ == u64_le_bytes(n).take(i as int),
        decreases 8 - i,
    {
        let shift: u64 = 8 * (i as u64);
        assert(shift < 64);
        out.push(((n >> shift) & 0xff) as u8);
        i = i + 1;
        proof {
            assert(out@ =~= u64_le_bytes(n).take(i as int));
        }
    }
    proof {
        assert(out@ =~= u64_le_bytes(n));
    }
    out
}

} // verus!
