//! The content hash of an artifact: SHA-256 over its bytes, fed in chunks as
//! they arrive, written in the Nix base-32 alphabet.
use vstd::prelude::*;

verus! {

#[verifier::external_type_specification]
#[verifier::external_body]
pub struct ExDigestContext(ring::digest::Context);

/// The bytes that a SHA-256 digest context has been fed.
pub uninterp spec fn digest_input(c: ring::digest::Context) -> Seq<u8>;

/// The SHA-256 digest of `data`.
pub uninterp spec fn sha256_of(data: Seq<u8>) -> Seq<u8>;

/// The Nix base-32 text of `bytes`.
pub uninterp spec fn nix_base32_of(bytes: Seq<u8>) -> Seq<char>;

/// Whether `c` is in the Nix base-32 alphabet: the digits and the lower-case
/// letters but `e`, `o`, `u` and `t`.
pub open spec fn is_nix_base32_char(c: char) -> bool {
    ('0' <= c && c <= '9') || ('a' <= c && c <= 'z' && c != 'e' && c != 'o' && c != 'u' && c
        != 't')
}

/// The most bytes that SHA-256 can digest: fewer than 2^64 bits.
pub const MAX_HASHED_BYTES: u64 = 0x1fff_ffff_ffff_ffff;

/// Relies on ring::digest::Context::new with ring::digest::SHA256: a fresh
/// context has been fed nothing.
#[verifier::external_body]
fn sha256_context() -> (c: ring::digest::Context)
    ensures
        digest_input(c) == Seq::<u8>::empty(),
{
    ring::digest::Context::new(&ring::digest::SHA256)
}

/// Relies on ring::digest::Context::update: it feeds all of `data` to the
/// context, and never fails.
#[verifier::external_body]
fn context_update(c: &mut ring::digest::Context, data: &[u8])
    ensures
        digest_input(*final(c)) == digest_input(*old(c)) + data@,
{
    c.update(data)
}

/// Relies on ring::digest::Context::finish: the 32-byte digest of what the
/// context was fed; it panics only on 2^64 bits of input or more.
#[verifier::external_body]
fn context_finish(c: ring::digest::Context) -> (r: Vec<u8>)
    requires
        digest_input(c).len() <= MAX_HASHED_BYTES,
    ensures
        r@ == sha256_of(digest_input(c)),
        r@.len() == 32,
{
    c.finish().as_ref().to_vec()
}

/// Relies on nix_base32::to_nix_base32: the Nix base-32 text of the bytes,
/// `(8 * n - 1) / 5 + 1` characters for `n` bytes, each from the alphabet
/// `0123456789abcdfghijklmnpqrsvwxyz`; it panics on no bytes.
#[verifier::external_body]
fn to_nix_base32(bytes: &Vec<u8>) -> (r: String)
    requires
        bytes@.len() > 0,
    ensures
        r@ == nix_base32_of(bytes@),
        r@.len() == (8 * bytes@.len() - 1) as int / 5 + 1,
        forall|i: int| 0 <= i < r@.len() ==> is_nix_base32_char(#[trigger] r@[i]),
{
    nix_base32::to_nix_base32(bytes.as_slice())
}

/// Writes a digest in the Nix base-32 alphabet.
pub fn encode_hash(digest: &Vec<u8>) -> (r: String)
    requires
        digest@.len() > 0,
    ensures
        r@ == nix_base32_of(digest@),
        r@.len() == (8 * digest@.len() - 1) as int / 5 + 1,
        forall|i: int| 0 <= i < r@.len() ==> is_nix_base32_char(#[trigger] r@[i]),
{
    to_nix_base32(digest)
}

/// Hashes an artifact's bytes as they arrive, without holding them.
pub struct ArtifactHasher {
    ctx: ring::digest::Context,
    fed: u64,
}

impl ArtifactHasher {
    /// The bytes fed so far.
    pub closed spec fn input(&self) -> Seq<u8> {
        digest_input(self.ctx)
    }

    pub closed spec fn wf(&self) -> bool {
        &&& digest_input(self.ctx).len() == self.fed
        &&& self.fed <= MAX_HASHED_BYTES
    }

    /// A hasher that has been fed nothing.
    pub fn new() -> (r: ArtifactHasher)
        ensures
            r.wf(),
            r.input() == Seq::<u8>::empty(),
    {
        ArtifactHasher { ctx: sha256_context(), fed: 0 }
    }

    /// Feeds the next chunk of the artifact. Refuses it, changing nothing,
    /// where the total would pass what SHA-256 can digest.
    pub fn update(&mut self, chunk: &[u8]) -> (r: bool)
        requires
            old(self).wf(),
        ensures
            final(self).wf(),
            r == (old(self).input().len() + chunk@.len() <= MAX_HASHED_BYTES),
            final(self).input() == if r {
                old(self).input() + chunk@
            } else {
                old(self).input()
            },
    {
        let n = chunk.len() as u64;
        if n > MAX_HASHED_BYTES - self.fed {
            return false;
        }
        context_update(&mut self.ctx, chunk);
        self.fed = self.fed + n;
        true
    }

    /// The content hash of everything fed: the Nix base-32 text of its SHA-256
    /// digest, 52 characters long.
    pub fn finish(self) -> (r: String)
        requires
            self.wf(),
        ensures
            r@ == nix_base32_of(sha256_of(self.input())),
            r@.len() == 52,
            forall|i: int| 0 <= i < r@.len() ==> is_nix_base32_char(#[trigger] r@[i]),
    {
        let d = context_finish(self.ctx);
        encode_hash(&d)
    }
}

} // verus!
