use vstd::prelude::*;

verus! {

/// A nested set collection living in its own storage partition: the
/// partition discriminator plus the member strings, with no duplicates
/// (two members never share the same character sequence).
pub struct KeyedSet {
    pub storage_key: Vec<u8>,
    pub items: Vec<String>,
}

impl KeyedSet {
    /// Membership, by character sequence.
    pub open spec fn contains_name(self, x: Seq<char>) -> bool {
        exists|i: int| 0 <= i < self.items@.len() && self.items@[i]@ == x
    }

    /// No two members hold the same character sequence.
    pub open spec fn wf(self) -> bool {
        forall|i: int, j: int|
            0 <= i < j < self.items@.len() ==> self.items@[i]@ != self.items@[j]@
    }

    /// An empty set in the partition named by `storage_key`.
    pub fn new(storage_key: Vec<u8>) -> (r: KeyedSet)
        ensures
            r.storage_key == storage_key,
            r.items@ =~= Seq::<String>::empty(),
            r.wf(),
    {
        KeyedSet { storage_key, items: Vec::new() }
    }

    /// Membership test.
    pub fn contains(&self, x: &String) -> (r: bool)
        ensures
            r == self.contains_name(x@),
    {
        let mut i: usize = 0;
        while i < self.items.len()
            invariant
                i <= self.items@.len(),
                forall|j: int| 0 <= j < i ==> self.items@[j]@ != x@,
            decreases self.items@.len() - i,
        {
            if self.items[i] == *x {
                return true;
            }
            i += 1;
        }
        false
    }

    /// Inserts a member; a no-op when an equal member is already present.
    /// Returns whether the set grew.
    pub fn insert(&mut self, x: String) -> (added: bool)
        ensures
            final(self).storage_key == old(self).storage_key,
            added == !old(self).contains_name(x@),
            added ==> final(self).items@ == old(self).items@.push(x),
            !added ==> final(self).items@ == old(self).items@,
            old(self).wf() ==> final(self).wf(),
            forall|y: Seq<char>|
                final(self).contains_name(y) == (old(self).contains_name(y) || y == x@),
    {
        if self.contains(&x) {
            proof {
                assert forall|y: Seq<char>|
                    self.contains_name(y) == (old(self).contains_name(y) || y == x@) by {}
            }
            false
        } else {
            self.items.push(x);
            proof {
                let n = old(self).items@.len() as int;
                assert(self.items@[n]@ == x@);
                assert forall|y: Seq<char>|
                    self.contains_name(y) == (old(self).contains_name(y) || y == x@) by {
                    if old(self).contains_name(y) {
                        let i = choose|i: int|
                            0 <= i < old(self).items@.len() && old(self).items@[i]@ == y;
                        assert(self.items@[i]@ == y);
                    }
                    if self.contains_name(y) {
                        let i = choose|i: int|
                            0 <= i < self.items@.len() && self.items@[i]@ == y;
                        if i < n {
                            assert(old(self).items@[i]@ == y);
                        }
                    }
                }
            }
            true
        }
    }
}

/// Immutable parameters declared once at series creation.
#[derive(Debug)]
pub struct SeriesParams {
    /// Upper bound on instances mintable from the series (enforced by the
    /// external minting collaborator).
    pub max_supply: u64,
    /// Whether the external minting collaborator must reject duplicated
    /// attribute vectors.
    pub enforce_unique_args: bool,
    /// Positional names of the immutable "mint" attribute vector.
    pub mint: Vec<String>,
    /// Positional names of the mutable "owner" attribute vector.
    pub owner: Vec<String>,
    /// Opaque dependency identifiers, informational only.
    pub packages: Vec<String>,
}

/// The per-instance payload a token record carries: which series it belongs
/// to and its two positionally aligned attribute vectors.
#[derive(Debug)]
pub struct SeriesArgs {
    pub name: String,
    pub mint: Vec<String>,
    pub owner: Vec<String>,
}

/// One series record, keyed by its unique name.
pub struct Series {
    pub name: String,
    pub src: String,
    pub owner_id: String,
    pub approved_account_ids: KeyedSet,
    pub issued_at: u64,
    pub params: SeriesParams,
}

/// The plain-value projection of a series handed to read-only callers: the
/// approval set flattened to a vector of account ids.
#[derive(Debug)]
pub struct SeriesJson {
    pub name: String,
    pub src: String,
    pub owner_id: String,
    pub approved_account_ids: Vec<String>,
    pub issued_at: u64,
    pub params: SeriesParams,
}

/// A partial update to a token's mutable attributes: name-value pairs,
/// applied in order.
pub type OwnerArgs = Vec<(String, String)>;

/// The token-store record consumed here: only its `SeriesArgs` payload is
/// read or written by this registry.
pub struct TokenData {
    pub series_args: SeriesArgs,
}

/// One entry of the token store: the token id and its record.
pub struct TokenEntry {
    pub token_id: String,
    pub data: TokenData,
}

/// One entry of the owner index: an account and the partitioned set of
/// names of the series it owns.
pub struct OwnerEntry {
    pub owner_id: String,
    pub set: KeyedSet,
}

} // verus!
