//! Content fingerprints for duplicate detection: SHA-256, computed by the
//! `sha2` crate over the bytes fed to a hasher in turn.
use vstd::prelude::*;

verus! {

/// What SHA-256 (FIPS 180-4) gives for some bytes; the algorithm is left to
/// the `sha2` crate.
pub uninterp spec fn sha256_of(data: Seq<u8>) -> Seq<u8>;

/// A SHA-256 hasher (`sha2::Sha256`) that has taken in some bytes, named
/// `fed`. Its state is `sha2`'s own and hidden from the proofs.
#[verifier::external_body]
pub struct ContentHasher {
    inner: sha2::Sha256,
}

/// The bytes a hasher has been fed so far, in order.
pub uninterp spec fn fed(h: ContentHasher) -> Seq<u8>;

/// `sha2::Sha256::new`: a hasher that has been fed nothing.
#[verifier::external_body]
fn sha_new() -> (r: ContentHasher)
    ensures
        fed(r) == Seq::<u8>::empty(),
{
    ContentHasher { inner: <sha2::Sha256 as sha2::Digest>::new() }
}

/// `Digest::update`: feeds `data` after what came before.
#[verifier::external_body]
fn sha_update(h: &mut ContentHasher, data: &[u8])
    ensures
        fed(*final(h)) == fed(*old(h)) + data@,
{
    sha2::Digest::update(&mut h.inner, data)
}

/// `Digest::finalize`: the SHA-256 digest of all the bytes fed, 32 bytes
/// long (the output size of SHA-256).
#[verifier::external_body]
fn sha_finish(h: ContentHasher) -> (r: Vec<u8>)
    ensures
        r@ == sha256_of(fed(h)),
        r@.len() == 32,
{
    sha2::Digest::finalize(h.inner).to_vec()
}

impl ContentHasher {
    /// A hasher that has been fed nothing.
    pub fn new() -> (r: ContentHasher)
        ensures
            fed(r) == Seq::<u8>::empty(),
    {
        sha_new()
    }

    /// Feeds `data` after what came before (a file is fed block by block).
    pub fn update(&mut self, data: &[u8])
        ensures
            fed(*final(self)) == fed(*old(self)) + data@,
    {
        sha_update(self, data)
    }

    /// The 32-byte SHA-256 digest of everything fed.
    pub fn finish(self) -> (r: Vec<u8>)
        ensures
            r@ == sha256_of(fed(self)),
            r@.len() == 32,
    {
        sha_finish(self)
    }
}

} // verus!
