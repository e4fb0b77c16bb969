use vstd::prelude::*;

verus! {

/// Role tag for the storage partition holding a series' approved accounts.
pub const TAG_SERIES_APPROVED_IDS: u8 = 0;

/// Role tag for the storage partition holding one owner's set of series names.
pub const TAG_SERIES_PER_OWNER: u8 = 1;

/// The SHA-256 digest of the UTF-8 encoding of a string, as the `sha2`
/// crate computes it. The digest is a function of the characters alone.
pub uninterp spec fn sha256_utf8_of(s: Seq<char>) -> Seq<u8>;

/// Relies on `sha2::Sha256` through `digest::Digest::digest`: a 32-byte
/// digest of the input bytes, depending on the input alone.
#[verifier::external_body]
fn sha256_utf8(id: &str) -> (r: Vec<u8>)
    ensures
        r@ == sha256_utf8_of(id@),
        r@.len() == 32,
{
    let digest = <sha2::Sha256 as sha2::Digest>::digest(id.as_bytes());
    digest.to_vec()
}

/// The partition discriminator for the nested collection owned by `id` in
/// the structural role named by `tag`: the role tag followed by the digest
/// of the owning identifier.
pub open spec fn storage_key_of(tag: u8, id: Seq<char>) -> Seq<u8> {
    seq![tag] + sha256_utf8_of(id)
}

/// Derives the storage partition key for a nested collection: one role tag
/// byte, then the 32-byte digest of the owning identifier.
pub fn derive_storage_key(tag: u8, id: &str) -> (r: Vec<u8>)
    ensures
        r@ == storage_key_of(tag, id@),
        r@.len() == 33,
{
    let mut r: Vec<u8> = Vec::new();
    r.push(tag);
    let mut h = sha256_utf8(id);
    r.append(&mut h);
    proof {
        assert(r@ =~= seq![tag] + sha256_utf8_of(id@));
    }
    r
}

/// Keys of distinct structural roles never collide: a discriminator for a
/// series' approval set differs from a discriminator for any owner's series
/// set already in its leading role tag, whatever the two identifiers are.
pub proof fn lemma_distinct_roles_never_collide(a: Seq<char>, b: Seq<char>)
    ensures
        storage_key_of(TAG_SERIES_APPROVED_IDS, a) != storage_key_of(TAG_SERIES_PER_OWNER, b),
{
    assert(storage_key_of(TAG_SERIES_APPROVED_IDS, a)[0] == TAG_SERIES_APPROVED_IDS);
    assert(storage_key_of(TAG_SERIES_PER_OWNER, b)[0] == TAG_SERIES_PER_OWNER);
}

} // verus!
