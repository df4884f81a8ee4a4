//! Labelled, domain-separated commitments: a builder that lays out fields as
//! bytes in a fixed format, and a Keccak-256 digest over those bytes.
use vstd::prelude::*;
use vstd::string::StringSliceAdditionalSpecFns;

verus! {

/// What Keccak-256 yields for a byte string.
pub uninterp spec fn keccak256(data: Seq<u8>) -> Seq<u8>;

/// Relies on `sha3::Keccak256` (through `sha3::Digest::digest`): the 32-byte
/// Keccak-256 digest of the bytes given, a function of those bytes alone.
#[verifier::external_body]
fn keccak256_digest(data: &Vec<u8>) -> (r: [u8; 32])
    ensures
        r@ == keccak256(data@),
{
    <sha3::Keccak256 as sha3::Digest>::digest(data.as_slice()).into()
}

/// A 32-byte value: a digest, a nullifier, a record commitment or a tree node.
#[derive(Copy, Debug, PartialEq, Eq, Hash)]
pub struct Digest(pub [u8; 32]);

/// A digest produced by a commitment builder.
pub type Commitment = Digest;

impl Clone for Digest {
    fn clone(&self) -> (r: Digest)
        ensures
            r == *self,
    {
        *self
    }
}

impl Digest {
    pub open spec fn bytes(&self) -> Seq<u8> {
        self.0@
    }

    /// Byte-wise equality of two digests.
    pub fn same_as(&self, other: &Digest) -> (r: bool)
        ensures
            r == (*self == *other),
    {
        bytes32_eq(&self.0, &other.0)
    }
}

/// Byte-wise equality of two 32-byte arrays.
pub fn bytes32_eq(a: &[u8; 32], b: &[u8; 32]) -> (r: bool)
    ensures
        r == (*a == *b),
{
    let mut i: usize = 0;
    while i < 32
        invariant
            0 <= i <= 32,
            a@.len() == 32,
            b@.len() == 32,
            forall|j: int| 0 <= j < i ==> a@[j] == b@[j],
        decreases 32 - i,
    {
        if a[i] != b[i] {
            assert(a@[i as int] != b@[i as int]);
            return false;
        }
        i = i + 1;
    }
    assert(*a =~= *b);
    true
}

/// The `n` low-order bytes of `v`, least significant first.
pub open spec fn le_bytes(v: nat, n: nat) -> Seq<u8>
    decreases n,
{
    if n == 0 {
        Seq::empty()
    } else {
        seq![(v % 256) as u8] + le_bytes(v / 256, (n - 1) as nat)
    }
}

/// Encoding of a `u64`: eight bytes, little-endian.
pub open spec fn enc_u64(v: u64) -> Seq<u8> {
    le_bytes(v as nat, 8)
}

/// Encoding of a string label: its UTF-8 bytes, with no length prefix.
pub open spec fn enc_str(s: &str) -> Seq<u8> {
    s.spec_bytes()
}

/// Encoding of a variable-length byte string: its length, then the bytes.
pub open spec fn enc_var(b: Seq<u8>) -> Seq<u8> {
    enc_u64(b.len() as u64) + b
}

/// The concatenation of a sequence of byte strings, in order.
pub open spec fn concat(parts: Seq<Seq<u8>>) -> Seq<u8>
    decreases parts.len(),
{
    if parts.len() == 0 {
        Seq::empty()
    } else {
        concat(parts.drop_last()) + parts.last()
    }
}

/// The digests of a sequence of commitments, as byte strings.
pub open spec fn commitment_bytes(cs: Seq<Commitment>) -> Seq<Seq<u8>> {
    cs.map_values(|c: Commitment| c.bytes())
}

/// Encoding of an array of sub-commitments: their number, then each digest.
pub open spec fn enc_array(ds: Seq<Seq<u8>>) -> Seq<u8> {
    enc_u64(ds.len() as u64) + concat(ds)
}

/// Adding one more part at the end of a concatenation.
pub proof fn lemma_concat_push(parts: Seq<Seq<u8>>, p: Seq<u8>)
    ensures
        concat(parts.push(p)) == concat(parts) + p,
{
    assert(parts.push(p).drop_last() =~= parts);
}

/// Appends the bytes of `b` to `buf`.
pub fn append_bytes(buf: &mut Vec<u8>, b: &[u8])
    ensures
        final(buf)@ == old(buf)@ + b@,
{
    let mut i: usize = 0;
    while i < b.len()
        invariant
            0 <= i <= b@.len(),
            buf@ == old(buf)@ + b@.subrange(0, i as int),
        decreases b@.len() - i,
    {
        buf.push(b[i]);
        assert(b@.subrange(0, i + 1) =~= b@.subrange(0, i as int).push(b@[i as int]));
        i = i + 1;
    }
    assert(b@.subrange(0, b@.len() as int) =~= b@);
}

/// Appends `v` to `buf` as eight bytes, little-endian.
pub fn append_u64(buf: &mut Vec<u8>, v: u64)
    ensures
        final(buf)@ == old(buf)@ + enc_u64(v),
{
    let mut x: u64 = v;
    let mut i: usize = 0;
    while i < 8
        invariant
            0 <= i <= 8,
            buf@ + le_bytes(x as nat, (8 - i) as nat) == old(buf)@ + enc_u64(v),
        decreases 8 - i,
    {
        let ghost before = buf@;
        let ghost xb = x;
        buf.push((x % 256) as u8);
        x = x / 256;
        assert(le_bytes(xb as nat, (8 - i) as nat) == seq![(xb % 256) as u8] + le_bytes(
            x as nat,
            (8 - i - 1) as nat,
        ));
        assert(buf@ + le_bytes(x as nat, (8 - i - 1) as nat) =~= before + le_bytes(
            xb as nat,
            (8 - i) as nat,
        ));
        i = i + 1;
    }
    assert(le_bytes(x as nat, 0) =~= Seq::<u8>::empty());
    assert(buf@ =~= buf@ + le_bytes(x as nat, 0));
}

/// Lays out labelled fields as bytes, then digests them.
pub struct CommitmentBuilder {
    buf: Vec<u8>,
}

impl CommitmentBuilder {
    /// The bytes laid out so far.
    pub closed spec fn bytes(&self) -> Seq<u8> {
        self.buf@
    }

    /// A builder for the domain named `tag`; the tag comes first.
    pub fn new(tag: &str) -> (r: CommitmentBuilder)
        ensures
            r.bytes() == enc_str(tag),
    {
        let r = CommitmentBuilder { buf: Vec::new() };
        r.constant_str(tag)
    }

    /// Appends the bytes of a label.
    pub fn constant_str(self, s: &str) -> (r: CommitmentBuilder)
        ensures
            r.bytes() == self.bytes() + enc_str(s),
    {
        let mut r = self;
        append_bytes(&mut r.buf, s.as_bytes());
        r
    }

    /// Appends a `u64`, little-endian.
    pub fn u64(self, v: u64) -> (r: CommitmentBuilder)
        ensures
            r.bytes() == self.bytes() + enc_u64(v),
    {
        let mut r = self;
        append_u64(&mut r.buf, v);
        r
    }

    /// Appends a fixed-length 32-byte field.
    pub fn fixed_size_bytes(self, b: &[u8; 32]) -> (r: CommitmentBuilder)
        ensures
            r.bytes() == self.bytes() + b@,
    {
        let mut r = self;
        append_bytes(&mut r.buf, b.as_slice());
        r
    }

    /// Appends a variable-length byte string, prefixed by its length.
    pub fn var_size_bytes(self, b: &[u8]) -> (r: CommitmentBuilder)
        ensures
            r.bytes() == self.bytes() + enc_var(b@),
    {
        let mut r = self.u64(b.len() as u64);
        append_bytes(&mut r.buf, b);
        r
    }

    /// Appends a labelled `u64`.
    pub fn u64_field(self, name: &str, v: u64) -> (r: CommitmentBuilder)
        ensures
            r.bytes() == self.bytes() + enc_str(name) + enc_u64(v),
    {
        self.constant_str(name).u64(v)
    }

    /// Appends a labelled sub-commitment.
    pub fn field(self, name: &str, c: &Commitment) -> (r: CommitmentBuilder)
        ensures
            r.bytes() == self.bytes() + enc_str(name) + c.bytes(),
    {
        self.constant_str(name).fixed_size_bytes(&c.0)
    }

    /// Appends a labelled variable-length byte string.
    pub fn var_size_field(self, name: &str, b: &[u8]) -> (r: CommitmentBuilder)
        ensures
            r.bytes() == self.bytes() + enc_str(name) + enc_var(b@),
    {
        self.constant_str(name).var_size_bytes(b)
    }

    /// Appends a labelled array of sub-commitments: their number, then each one.
    pub fn array_field(self, name: &str, cs: &[Commitment]) -> (r: CommitmentBuilder)
        ensures
            r.bytes() == self.bytes() + enc_str(name) + enc_array(commitment_bytes(cs@)),
    {
        let mut r = self.constant_str(name).u64(cs.len() as u64);
        let ghost start = r.buf@;
        let mut i: usize = 0;
        while i < cs.len()
            invariant
                0 <= i <= cs@.len(),
                r.buf@ == start + concat(commitment_bytes(cs@.subrange(0, i as int))),
            decreases cs@.len() - i,
        {
            r = r.fixed_size_bytes(&cs[i].0);
            proof {
                let s = commitment_bytes(cs@.subrange(0, i as int));
                lemma_concat_push(s, cs@[i as int].bytes());
                assert(commitment_bytes(cs@.subrange(0, i + 1)) =~= s.push(cs@[i as int].bytes()));
            }
            i = i + 1;
        }
        assert(cs@.subrange(0, cs@.len() as int) =~= cs@);
        r
    }

    /// Digests the bytes laid out so far.
    pub fn finalize(self) -> (r: Commitment)
        ensures
            r.bytes() == keccak256(self.bytes()),
    {
        Digest(keccak256_digest(&self.buf))
    }
}

} // verus!
