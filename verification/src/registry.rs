use vstd::prelude::*;

use crate::errors::{Entity, SeriesError};
use crate::keys::{
    derive_storage_key, storage_key_of, TAG_SERIES_APPROVED_IDS, TAG_SERIES_PER_OWNER,
};
use crate::store::{keys_distinct, lemma_map_of_absent, lemma_map_of_index, map_of};
use vstd::pervasive::VecAdditionalExecFns;
use crate::types::{KeyedSet, OwnerEntry, Series, SeriesArgs, SeriesJson, SeriesParams, TokenData, TokenEntry};
use crate::usage::{
    owners_seq_cost, owners_seq_cost_x, sat_add, sat_sub, series_seq_cost, series_seq_cost_x,
    tokens_seq_cost, tokens_seq_cost_x,
};

verus! {

/// The whole persistent state of the registry: the primary keyed series
/// store, the owner index kept in lockstep with it, and the token store
/// whose records this registry reads and rewrites.
pub struct Contract {
    pub series_by_name: Vec<Series>,
    pub series_per_owner: Vec<OwnerEntry>,
    pub token_data_by_id: Vec<TokenEntry>,
}

/// Key projection of the series store.
pub open spec fn series_key() -> spec_fn(Series) -> Seq<char> {
    |s: Series| s.name@
}

/// Key projection of the owner index.
pub open spec fn owner_key() -> spec_fn(OwnerEntry) -> Seq<char> {
    |e: OwnerEntry| e.owner_id@
}

/// Key projection of the token store.
pub open spec fn token_key() -> spec_fn(TokenEntry) -> Seq<char> {
    |t: TokenEntry| t.token_id@
}

impl Contract {
    /// The exact-key map the series store denotes.
    pub open spec fn series_map(self) -> Map<Seq<char>, Series> {
        map_of(self.series_by_name@, series_key())
    }

    /// The exact-key map the owner index denotes.
    pub open spec fn owners_map(self) -> Map<Seq<char>, OwnerEntry> {
        map_of(self.series_per_owner@, owner_key())
    }

    /// The exact-key map the token store denotes.
    pub open spec fn tokens_map(self) -> Map<Seq<char>, TokenEntry> {
        map_of(self.token_data_by_id@, token_key())
    }

    /// The owner index lists `name` under `owner`.
    pub open spec fn owner_has(self, owner: Seq<char>, name: Seq<char>) -> bool {
        exists|j: int|
            0 <= j < self.series_per_owner@.len() && self.series_per_owner@[j].owner_id@ == owner
                && self.series_per_owner@[j].set.contains_name(name)
    }

    /// Well-formedness of the whole state: unique keys in each store, each
    /// nested set well formed and living in the partition derived from its
    /// owning identifier, and every series listed in its owner's index
    /// entry (the converse can fail: re-creating a series under a new
    /// owner leaves the old owner's listing stale).
    pub open spec fn wf(self) -> bool {
        &&& keys_distinct(self.series_by_name@, series_key())
        &&& keys_distinct(self.series_per_owner@, owner_key())
        &&& keys_distinct(self.token_data_by_id@, token_key())
        &&& forall|i: int|
            0 <= i < self.series_by_name@.len() ==> {
                &&& (#[trigger] self.series_by_name@[i]).approved_account_ids.wf()
                &&& self.series_by_name@[i].approved_account_ids.storage_key@ == storage_key_of(
                    TAG_SERIES_APPROVED_IDS,
                    self.series_by_name@[i].name@,
                )
            }
        &&& forall|j: int|
            0 <= j < self.series_per_owner@.len() ==> {
                &&& (#[trigger] self.series_per_owner@[j]).set.wf()
                &&& self.series_per_owner@[j].set.storage_key@ == storage_key_of(
                    TAG_SERIES_PER_OWNER,
                    self.series_per_owner@[j].owner_id@,
                )
            }
        &&& forall|i: int|
            0 <= i < self.series_by_name@.len() ==> self.owner_has(
                (#[trigger] self.series_by_name@[i]).owner_id@,
                self.series_by_name@[i].name@,
            )
    }

    /// An empty registry, as deployed.
    pub fn new() -> (r: Contract)
        ensures
            r.series_by_name@ =~= Seq::<Series>::empty(),
            r.series_per_owner@ =~= Seq::<OwnerEntry>::empty(),
            r.token_data_by_id@ =~= Seq::<TokenEntry>::empty(),
            r.wf(),
    {
        Contract {
            series_by_name: Vec::new(),
            series_per_owner: Vec::new(),
            token_data_by_id: Vec::new(),
        }
    }
}

/// The host meter's reading: total persisted bytes of the state.
pub open spec fn usage_of(c: Contract) -> usize {
    sat_add(
        series_seq_cost(c.series_by_name@),
        sat_add(owners_seq_cost(c.series_per_owner@), tokens_seq_cost(c.token_data_by_id@)),
    )
}

/// Byte growth from `pre` to `post`; shrinkage charges nothing.
pub open spec fn delta_of(pre: Contract, post: Contract) -> usize {
    sat_sub(usage_of(post), usage_of(pre))
}

/// Two partitioned sets holding the same key and members.
pub open spec fn same_set(a: KeyedSet, b: KeyedSet) -> bool {
    &&& a.storage_key@ == b.storage_key@
    &&& a.items@ == b.items@
}

/// Two series records holding the same content.
pub open spec fn same_series_rec(a: Series, b: Series) -> bool {
    &&& a.name@ == b.name@
    &&& a.src@ == b.src@
    &&& a.owner_id@ == b.owner_id@
    &&& a.issued_at == b.issued_at
    &&& same_set(a.approved_account_ids, b.approved_account_ids)
    &&& a.params.max_supply == b.params.max_supply
    &&& a.params.enforce_unique_args == b.params.enforce_unique_args
    &&& a.params.mint@ == b.params.mint@
    &&& a.params.owner@ == b.params.owner@
    &&& a.params.packages@ == b.params.packages@
}

/// Two owner-index entries holding the same content.
pub open spec fn same_owner_entry(a: OwnerEntry, b: OwnerEntry) -> bool {
    &&& a.owner_id@ == b.owner_id@
    &&& same_set(a.set, b.set)
}

/// Two token-store entries holding the same content.
pub open spec fn same_token_entry(a: TokenEntry, b: TokenEntry) -> bool {
    &&& a.token_id@ == b.token_id@
    &&& a.data.series_args.name@ == b.data.series_args.name@
    &&& a.data.series_args.mint@ == b.data.series_args.mint@
    &&& a.data.series_args.owner@ == b.data.series_args.owner@
}

/// `post` holds exactly the records `pre` held.
pub open spec fn unchanged(pre: Contract, post: Contract) -> bool {
    &&& post.series_by_name@.len() == pre.series_by_name@.len()
    &&& forall|k: int|
        0 <= k < pre.series_by_name@.len() ==> same_series_rec(
            #[trigger] post.series_by_name@[k],
            pre.series_by_name@[k],
        )
    &&& post.series_per_owner@.len() == pre.series_per_owner@.len()
    &&& forall|k: int|
        0 <= k < pre.series_per_owner@.len() ==> same_owner_entry(
            #[trigger] post.series_per_owner@[k],
            pre.series_per_owner@[k],
        )
    &&& post.token_data_by_id@.len() == pre.token_data_by_id@.len()
    &&& forall|k: int|
        0 <= k < pre.token_data_by_id@.len() ==> same_token_entry(
            #[trigger] post.token_data_by_id@[k],
            pre.token_data_by_id@[k],
        )
}

/// A state is unchanged from itself.
pub proof fn lemma_unchanged_refl(c: Contract)
    ensures
        unchanged(c, c),
{
}

/// An unchanged state keeps well-formedness.
pub proof fn lemma_wf_from_unchanged(pre: Contract, post: Contract)
    requires
        pre.wf(),
        unchanged(pre, post),
    ensures
        post.wf(),
{
    let ps = pre.series_by_name@;
    let qs = post.series_by_name@;
    let po = pre.series_per_owner@;
    let qo = post.series_per_owner@;
    assert forall|i: int, j: int| 0 <= i < j < qs.len() implies qs[i].name@ != qs[j].name@ by {}
    assert forall|i: int, j: int| 0 <= i < j < qo.len() implies qo[i].owner_id@ != qo[j].owner_id@
    by {}
    assert forall|i: int, j: int|
        0 <= i < j < post.token_data_by_id@.len() implies post.token_data_by_id@[i].token_id@
        != post.token_data_by_id@[j].token_id@ by {}
    assert forall|i: int| 0 <= i < qs.len() implies {
        &&& (#[trigger] qs[i]).approved_account_ids.wf()
        &&& qs[i].approved_account_ids.storage_key@ == storage_key_of(
            TAG_SERIES_APPROVED_IDS,
            qs[i].name@,
        )
    } by {
        let av = qs[i].approved_account_ids.items@;
        let bv = ps[i].approved_account_ids.items@;
        assert(av == bv);
        assert(ps[i].approved_account_ids.wf());
    }
    assert forall|j: int| 0 <= j < qo.len() implies {
        &&& (#[trigger] qo[j]).set.wf()
        &&& qo[j].set.storage_key@ == storage_key_of(TAG_SERIES_PER_OWNER, qo[j].owner_id@)
    } by {
        assert(qo[j].set.items@ == po[j].set.items@);
        assert(po[j].set.wf());
    }
    assert forall|i: int| 0 <= i < qs.len() implies post.owner_has(
        (#[trigger] qs[i]).owner_id@,
        qs[i].name@,
    ) by {
        assert(pre.owner_has(ps[i].owner_id@, ps[i].name@));
        let j0 = choose|j: int|
            0 <= j < po.len() && po[j].owner_id@ == ps[i].owner_id@ && po[j].set.contains_name(
                ps[i].name@,
            );
        let m = choose|m: int|
            0 <= m < po[j0].set.items@.len() && po[j0].set.items@[m]@ == ps[i].name@;
        assert(qo[j0].set.items@ == po[j0].set.items@);
        assert(qo[j0].set.items@[m]@ == ps[i].name@);
        assert(qo[j0].set.contains_name(qs[i].name@));
        assert(qo[j0].owner_id@ == qs[i].owner_id@);
    }
}

impl Contract {
    /// Reads the host meter: total persisted bytes of this state.
    pub fn measure(&self) -> (r: usize)
        ensures
            r == usage_of(*self),
    {
        let series = series_seq_cost_x(&self.series_by_name);
        let owners = owners_seq_cost_x(&self.series_per_owner);
        let tokens = tokens_seq_cost_x(&self.token_data_by_id);
        crate::usage::sat_add_x(series, crate::usage::sat_add_x(owners, tokens))
    }

    /// The position of the series named `name`, if any.
    fn find_series(&self, name: &String) -> (r: Option<usize>)
        ensures
            match r {
                Some(i) => i < self.series_by_name@.len() && self.series_by_name@[i as int].name@
                    == name@,
                None => forall|j: int|
                    0 <= j < self.series_by_name@.len() ==> self.series_by_name@[j].name@ != name@,
            },
    {
        let mut i: usize = 0;
        while i < self.series_by_name.len()
            invariant
                i <= self.series_by_name@.len(),
                forall|j: int| 0 <= j < i ==> self.series_by_name@[j].name@ != name@,
            decreases self.series_by_name@.len() - i,
        {
            if self.series_by_name[i].name == *name {
                return Some(i);
            }
            i += 1;
        }
        None
    }

    /// The position of the owner-index entry for `owner_id`, if any.
    fn find_owner(&self, owner_id: &String) -> (r: Option<usize>)
        ensures
            match r {
                Some(j) => j < self.series_per_owner@.len() && self.series_per_owner@[
                    j as int
                ].owner_id@ == owner_id@,
                None => forall|j: int|
                    0 <= j < self.series_per_owner@.len() ==> self.series_per_owner@[j].owner_id@
                        != owner_id@,
            },
    {
        let mut i: usize = 0;
        while i < self.series_per_owner.len()
            invariant
                i <= self.series_per_owner@.len(),
                forall|j: int| 0 <= j < i ==> self.series_per_owner@[j].owner_id@ != owner_id@,
            decreases self.series_per_owner@.len() - i,
        {
            if self.series_per_owner[i].owner_id == *owner_id {
                return Some(i);
            }
            i += 1;
        }
        None
    }

    /// The position of the token record for `token_id`, if any.
    fn find_token(&self, token_id: &String) -> (r: Option<usize>)
        ensures
            match r {
                Some(k) => k < self.token_data_by_id@.len() && self.token_data_by_id@[
                    k as int
                ].token_id@ == token_id@,
                None => forall|j: int|
                    0 <= j < self.token_data_by_id@.len() ==> self.token_data_by_id@[j].token_id@
                        != token_id@,
            },
    {
        let mut i: usize = 0;
        while i < self.token_data_by_id.len()
            invariant
                i <= self.token_data_by_id@.len(),
                forall|j: int| 0 <= j < i ==> self.token_data_by_id@[j].token_id@ != token_id@,
            decreases self.token_data_by_id@.len() - i,
        {
            if self.token_data_by_id[i].token_id == *token_id {
                return Some(i);
            }
            i += 1;
        }
        None
    }

    /// Fetches one series by name as a plain-value projection; read-only.
    pub fn get_series(&self, name: &String) -> (r: Result<SeriesJson, SeriesError>)
        requires
            self.wf(),
        ensures
            match r {
                Ok(j) => {
                    &&& self.series_map().contains_key(name@)
                    &&& j.name@ == self.series_map()[name@].name@
                    &&& j.src@ == self.series_map()[name@].src@
                    &&& j.owner_id@ == self.series_map()[name@].owner_id@
                    &&& j.approved_account_ids@ == self.series_map()[
                        name@
                    ].approved_account_ids.items@
                    &&& j.issued_at == self.series_map()[name@].issued_at
                    &&& j.params.max_supply == self.series_map()[name@].params.max_supply
                    &&& j.params.enforce_unique_args == self.series_map()[
                        name@
                    ].params.enforce_unique_args
                    &&& j.params.mint@ == self.series_map()[name@].params.mint@
                    &&& j.params.owner@ == self.series_map()[name@].params.owner@
                    &&& j.params.packages@ == self.series_map()[name@].params.packages@
                },
                Err(e) => e == SeriesError::NotFound(Entity::Series)
                    && !self.series_map().contains_key(name@),
            },
    {
        match self.find_series(name) {
            Some(i) => {
                proof {
                    lemma_map_of_index(self.series_by_name@, series_key(), i as int);
                }
                let s = &self.series_by_name[i];
                let approved = s.approved_account_ids.items.clone();
                proof {
                    assert(approved@ =~= s.approved_account_ids.items@);
                }
                let mint = s.params.mint.clone();
                let owner = s.params.owner.clone();
                let packages = s.params.packages.clone();
                proof {
                    assert(mint@ =~= s.params.mint@);
                    assert(owner@ =~= s.params.owner@);
                    assert(packages@ =~= s.params.packages@);
                }
                Ok(
                    SeriesJson {
                        name: s.name.clone(),
                        src: s.src.clone(),
                        owner_id: s.owner_id.clone(),
                        approved_account_ids: approved,
                        issued_at: s.issued_at,
                        params: SeriesParams {
                            max_supply: s.params.max_supply,
                            enforce_unique_args: s.params.enforce_unique_args,
                            mint,
                            owner,
                            packages,
                        },
                    },
                )
            },
            None => {
                proof {
                    lemma_map_of_absent(self.series_by_name@, series_key(), name@);
                }
                Err(SeriesError::NotFound(Entity::Series))
            },
        }
    }

    /// The names of the series `owner_id` is listed as owning; empty when
    /// the owner index has no entry for it. Read-only.
    pub fn series_names_per_owner(&self, owner_id: &String) -> (r: Vec<String>)
        requires
            self.wf(),
        ensures
            self.owners_map().contains_key(owner_id@) ==> r@ == self.owners_map()[
                owner_id@
            ].set.items@,
            !self.owners_map().contains_key(owner_id@) ==> r@ =~= Seq::<String>::empty(),
    {
        match self.find_owner(owner_id) {
            Some(j) => {
                proof {
                    lemma_map_of_index(self.series_per_owner@, owner_key(), j as int);
                }
                let r = self.series_per_owner[j].set.items.clone();
                proof {
                    assert(r@ =~= self.series_per_owner@[j as int].set.items@);
                }
                r
            },
            None => {
                proof {
                    lemma_map_of_absent(self.series_per_owner@, owner_key(), owner_id@);
                }
                Vec::new()
            },
        }
    }
}

/// A freshly created series record: fields taken from the creation inputs,
/// an empty approval set in the partition derived from the series name.
pub open spec fn new_series_record(
    rec: Series,
    series_name: String,
    src: String,
    params: SeriesParams,
    caller: String,
    timestamp: u64,
) -> bool {
    &&& rec.name == series_name
    &&& rec.src == src
    &&& rec.owner_id == caller
    &&& rec.issued_at == timestamp
    &&& rec.params == params
    &&& rec.approved_account_ids.items@ == Seq::<String>::empty()
    &&& rec.approved_account_ids.storage_key@ == storage_key_of(
        TAG_SERIES_APPROVED_IDS,
        series_name@,
    )
}

/// The series store overwrote position `i` in place with the fresh record.
pub open spec fn series_put_at(
    pre: Seq<Series>,
    post: Seq<Series>,
    i: int,
    series_name: String,
    src: String,
    params: SeriesParams,
    caller: String,
    timestamp: u64,
) -> bool {
    &&& 0 <= i < pre.len()
    &&& pre[i].name@ == series_name@
    &&& post.len() == pre.len()
    &&& (forall|k: int| 0 <= k < pre.len() && k != i ==> post[k] == pre[k])
    &&& new_series_record(post[i], series_name, src, params, caller, timestamp)
}

/// The series store after inserting the fresh record under its name: the
/// record with that name overwritten in place, or appended when new.
pub open spec fn series_put(
    pre: Seq<Series>,
    post: Seq<Series>,
    series_name: String,
    src: String,
    params: SeriesParams,
    caller: String,
    timestamp: u64,
) -> bool {
    ||| (exists|i: int| series_put_at(pre, post, i, series_name, src, params, caller, timestamp))
    ||| {
        &&& (forall|i: int| 0 <= i < pre.len() ==> pre[i].name@ != series_name@)
        &&& post.len() == pre.len() + 1
        &&& (forall|k: int| 0 <= k < pre.len() ==> post[k] == pre[k])
        &&& new_series_record(
            post[pre.len() as int],
            series_name,
            src,
            params,
            caller,
            timestamp,
        )
    }
}

/// The owner index after recording that `owner` owns the series named
/// `name`: the owner's entry gains the name (a no-op when already listed),
/// or a fresh singleton entry is appended for a first-time owner.
pub open spec fn owner_add_at(
    pre: Seq<OwnerEntry>,
    post: Seq<OwnerEntry>,
    j: int,
    owner: String,
    name: String,
) -> bool {
    &&& 0 <= j < pre.len()
    &&& pre[j].owner_id@ == owner@
    &&& post.len() == pre.len()
    &&& (forall|k: int| 0 <= k < pre.len() && k != j ==> post[k] == pre[k])
    &&& post[j].owner_id == pre[j].owner_id
    &&& post[j].set.storage_key == pre[j].set.storage_key
    &&& (if pre[j].set.contains_name(name@) {
        post[j].set.items@ == pre[j].set.items@
    } else {
        post[j].set.items@ == pre[j].set.items@.push(name)
    })
}

/// The owner index after recording that `owner` owns the series named
/// `name`: the owner's entry gains the name (a no-op when already listed),
/// or a fresh singleton entry is appended for a first-time owner.
pub open spec fn owner_index_add(
    pre: Seq<OwnerEntry>,
    post: Seq<OwnerEntry>,
    owner: String,
    name: String,
) -> bool {
    ||| (exists|j: int| owner_add_at(pre, post, j, owner, name))
    ||| {
        &&& (forall|j: int| 0 <= j < pre.len() ==> pre[j].owner_id@ != owner@)
        &&& post.len() == pre.len() + 1
        &&& (forall|k: int| 0 <= k < pre.len() ==> post[k] == pre[k])
        &&& post[pre.len() as int].owner_id == owner
        &&& post[pre.len() as int].set.storage_key@ == storage_key_of(
            TAG_SERIES_PER_OWNER,
            owner@,
        )
        &&& post[pre.len() as int].set.items@ == seq![name]
    }
}

/// The whole-state effect of creating (or silently re-creating) a series:
/// the registry holds the fresh record under the name, the caller's owner
/// index entry lists the name, and the token store is untouched. A prior
/// owner's index entry is deliberately not cleaned up.
pub open spec fn create_transition(
    pre: Contract,
    post: Contract,
    series_name: String,
    src: String,
    params: SeriesParams,
    caller: String,
    timestamp: u64,
) -> bool {
    &&& series_put(
        pre.series_by_name@,
        post.series_by_name@,
        series_name,
        src,
        params,
        caller,
        timestamp,
    )
    &&& owner_index_add(pre.series_per_owner@, post.series_per_owner@, caller, series_name)
    &&& post.token_data_by_id@ == pre.token_data_by_id@
}

impl Contract {
    /// Creates the series named `series_name` with content reference `src`
    /// and immutable `params`, owned by `caller`. An existing series of
    /// the same name is silently overwritten, its approval set discarded;
    /// the previous owner's index entry keeps its stale listing. The
    /// caller must attach a positive prepayment covering the measured
    /// byte growth; the surplus is returned. On any error the state is
    /// exactly as before.
    pub fn series_create(
        &mut self,
        series_name: String,
        src: String,
        params: SeriesParams,
        caller: String,
        timestamp: u64,
        attached_deposit: u128,
    ) -> (r: Result<u128, SeriesError>)
        requires
            old(self).wf(),
        ensures
            final(self).wf(),
            match r {
                Ok(refund) => {
                    &&& attached_deposit >= 1
                    &&& create_transition(
                        *old(self),
                        *final(self),
                        series_name,
                        src,
                        params,
                        caller,
                        timestamp,
                    )
                    &&& attached_deposit >= delta_of(*old(self), *final(self)) as u128
                    &&& refund == attached_deposit - delta_of(*old(self), *final(self)) as u128
                },
                Err(e) => match e {
                    SeriesError::DepositRequired => attached_deposit == 0 && unchanged(
                        *old(self),
                        *final(self),
                    ),
                    SeriesError::InsufficientDeposit { required } => {
                        &&& attached_deposit >= 1
                        &&& unchanged(*old(self), *final(self))
                        &&& attached_deposit < required
                        &&& (exists|w: Contract|
                            create_transition(
                                *old(self),
                                w,
                                series_name,
                                src,
                                params,
                                caller,
                                timestamp,
                            ) && required == delta_of(*old(self), w) as u128)
                    },
                    _ => false,
                },
            },
    {
        if attached_deposit == 0 {
            proof {
                lemma_unchanged_refl(*old(self));
            }
            return Err(SeriesError::DepositRequired);
        }
        let before = self.measure();

        let approval_key = derive_storage_key(TAG_SERIES_APPROVED_IDS, series_name.as_str());
        let rec = Series {
            name: series_name.clone(),
            src,
            owner_id: caller.clone(),
            approved_account_ids: KeyedSet::new(approval_key),
            issued_at: timestamp,
            params,
        };

        let found = self.find_series(&series_name);
        let mut displaced: Option<Series> = None;
        let mut replaced_at: usize = 0;
        match found {
            Some(i) => {
                let mut slot = rec;
                self.series_by_name.set_and_swap(i, &mut slot);
                displaced = Some(slot);
                replaced_at = i;
                proof {
                    assert(series_put_at(
                        old(self).series_by_name@,
                        self.series_by_name@,
                        i as int,
                        series_name,
                        src,
                        params,
                        caller,
                        timestamp,
                    ));
                }
            },
            None => {
                let ghost rec_snap = rec;
                self.series_by_name.push(rec);
                proof {
                    assert(self.series_by_name@[old(self).series_by_name@.len() as int]
                        == rec_snap);
                    assert(new_series_record(rec_snap, series_name, src, params, caller, timestamp));
                }
            },
        }

        let ofound = self.find_owner(&caller);
        let mut added_name = false;
        let mut owner_at: usize = 0;
        let pushed_owner = ofound.is_none();
        match ofound {
            Some(j) => {
                let mut entry = self.series_per_owner.remove(j);
                added_name = entry.set.insert(series_name.clone());
                let ghost entry_after = entry;
                self.series_per_owner.insert(j, entry);
                owner_at = j;
                proof {
                    crate::store::lemma_remove_insert(
                        old(self).series_per_owner@,
                        j as int,
                        entry_after,
                    );
                    assert(self.series_per_owner@ == old(self).series_per_owner@.update(
                        j as int,
                        entry_after,
                    ));
                    assert(owner_add_at(
                        old(self).series_per_owner@,
                        self.series_per_owner@,
                        j as int,
                        caller,
                        series_name,
                    ));
                }
            },
            None => {
                let owner_set_key = derive_storage_key(TAG_SERIES_PER_OWNER, caller.as_str());
                let mut set = KeyedSet::new(owner_set_key);
                set.insert(series_name.clone());
                proof {
                    assert(set.items@ =~= seq![series_name]);
                }
                self.series_per_owner.push(OwnerEntry { owner_id: caller.clone(), set });
            },
        }

        proof {
            lemma_create_attempt_ok(
                *old(self),
                *self,
                series_name,
                src,
                params,
                caller,
                timestamp,
            );
        }

        let after = self.measure();
        let cost_units = crate::usage::sat_sub_x(after, before);
        let cost = cost_units as u128;
        if attached_deposit < cost {
            let ghost attempt = *self;
            match displaced {
                Some(mut slot) => {
                    self.series_by_name.set_and_swap(replaced_at, &mut slot);
                    proof {
                        assert(self.series_by_name@ =~= old(self).series_by_name@);
                    }
                },
                None => {
                    let _ = self.series_by_name.pop();
                    proof {
                        assert(self.series_by_name@ =~= old(self).series_by_name@);
                    }
                },
            }
            if pushed_owner {
                let _ = self.series_per_owner.pop();
                proof {
                    assert(self.series_per_owner@ =~= old(self).series_per_owner@);
                }
            } else {
                let mut entry = self.series_per_owner.remove(owner_at);
                let ghost removed = entry;
                if added_name {
                    let _ = entry.set.items.pop();
                }
                let ghost entry_back = entry;
                self.series_per_owner.insert(owner_at, entry);
                proof {
                    let j = owner_at as int;
                    let v0 = old(self).series_per_owner@;
                    crate::store::lemma_remove_insert(attempt.series_per_owner@, j, entry_back);
                    assert(self.series_per_owner@ == attempt.series_per_owner@.update(
                        j,
                        entry_back,
                    ));
                    assert(removed == attempt.series_per_owner@[j]);
                    assert(same_owner_entry(entry_back, v0[j])) by {
                        if added_name {
                            assert(entry_back.set.items@ =~= v0[j].set.items@);
                        }
                    }
                    assert forall|k: int| 0 <= k < v0.len() implies same_owner_entry(
                        #[trigger] self.series_per_owner@[k],
                        v0[k],
                    ) by {
                        if k != j {
                            assert(self.series_per_owner@[k] == v0[k]);
                        }
                    }
                }
            }
            proof {
                assert(unchanged(*old(self), *self));
                lemma_wf_from_unchanged(*old(self), *self);
                assert(create_transition(
                    *old(self),
                    attempt,
                    series_name,
                    src,
                    params,
                    caller,
                    timestamp,
                ));
                assert(cost == delta_of(*old(self), attempt) as u128);
            }
            return Err(SeriesError::InsufficientDeposit { required: cost });
        }
        Ok(attached_deposit - cost)
    }
}

/// Execution budget reserved for the approval operation itself; the
/// outbound notification is granted the caller's remaining budget above
/// this reserve.
pub const GAS_FOR_SERIES_APPROVE: u64 = 10_000_000_000_000;

/// A one-way outbound notification to the approved account's contract,
/// to be dispatched by the host after the local approval has committed.
/// No response is awaited; a failure on the receiving side does not roll
/// the approval back.
#[derive(Debug)]
pub struct SeriesOnApprove {
    pub receiver_id: String,
    pub series_name: String,
    pub owner_id: String,
    pub msg: String,
    pub attached_deposit: u128,
    pub gas: u64,
}

/// What a successful approval hands back to the host: the prepayment
/// surplus to refund, and the optional notification to dispatch.
#[derive(Debug)]
pub struct ApproveOutcome {
    pub refund: u128,
    pub notification: Option<SeriesOnApprove>,
}

/// The whole-state effect of approving `account_id` on the series named
/// `series_name`: that series' approval set gains the account (a no-op
/// when already approved); every other record, the owner index and the
/// token store are untouched.
/// The series at position `i` gained `account_id` in its approval set;
/// everything else about it is untouched.
pub open spec fn approve_at(
    pre: Contract,
    post: Contract,
    i: int,
    series_name: String,
    account_id: String,
) -> bool {
    &&& 0 <= i < pre.series_by_name@.len()
    &&& pre.series_by_name@[i].name@ == series_name@
    &&& post.series_by_name@.len() == pre.series_by_name@.len()
    &&& (forall|k: int|
        0 <= k < pre.series_by_name@.len() && k != i ==> post.series_by_name@[k]
            == pre.series_by_name@[k])
    &&& post.series_by_name@[i].name == pre.series_by_name@[i].name
    &&& post.series_by_name@[i].src == pre.series_by_name@[i].src
    &&& post.series_by_name@[i].owner_id == pre.series_by_name@[i].owner_id
    &&& post.series_by_name@[i].issued_at == pre.series_by_name@[i].issued_at
    &&& post.series_by_name@[i].params == pre.series_by_name@[i].params
    &&& post.series_by_name@[i].approved_account_ids.storage_key
        == pre.series_by_name@[i].approved_account_ids.storage_key
    &&& (if pre.series_by_name@[i].approved_account_ids.contains_name(account_id@) {
        post.series_by_name@[i].approved_account_ids.items@
            == pre.series_by_name@[i].approved_account_ids.items@
    } else {
        post.series_by_name@[i].approved_account_ids.items@
            == pre.series_by_name@[i].approved_account_ids.items@.push(account_id)
    })
}

pub open spec fn approve_transition(
    pre: Contract,
    post: Contract,
    series_name: String,
    account_id: String,
) -> bool {
    &&& (exists|i: int| approve_at(pre, post, i, series_name, account_id))
    &&& post.series_per_owner@ == pre.series_per_owner@
    &&& post.token_data_by_id@ == pre.token_data_by_id@
}

/// After the in-memory mutation of an approval: the new state satisfies
/// the approve transition and is well formed.
proof fn lemma_approve_attempt_ok(
    pre: Contract,
    post: Contract,
    series_name: String,
    account_id: String,
)
    requires
        pre.wf(),
        approve_transition(pre, post, series_name, account_id),
    ensures
        post.wf(),
{
    let ps = pre.series_by_name@;
    let qs = post.series_by_name@;
    let w = choose|w: int| approve_at(pre, post, w, series_name, account_id);
    assert(approve_at(pre, post, w, series_name, account_id));
    assert forall|i: int, j: int| 0 <= i < j < qs.len() implies qs[i].name@ != qs[j].name@ by {
        if i != w {
            assert(qs[i] == ps[i]);
        }
        if j != w {
            assert(qs[j] == ps[j]);
        }
        assert(qs[w].name@ == ps[w].name@);
    }
    assert forall|i: int| 0 <= i < qs.len() implies {
        &&& (#[trigger] qs[i]).approved_account_ids.wf()
        &&& qs[i].approved_account_ids.storage_key@ == storage_key_of(
            TAG_SERIES_APPROVED_IDS,
            qs[i].name@,
        )
    } by {
        if i != w {
            assert(qs[i] == ps[i]);
        }
        if i == w && !ps[w].approved_account_ids.contains_name(account_id@) {
            let olditems = ps[w].approved_account_ids.items@;
            assert forall|a: int, b: int|
                0 <= a < b < qs[i].approved_account_ids.items@.len() implies qs[
                i].approved_account_ids.items@[a]@ != qs[i].approved_account_ids.items@[b]@ by {
                if b == olditems.len() {
                    assert(olditems[a]@ != account_id@);
                }
            }
        }
    }
    assert forall|i: int| 0 <= i < qs.len() implies post.owner_has(
        (#[trigger] qs[i]).owner_id@,
        qs[i].name@,
    ) by {
        if i != w {
            assert(qs[i] == ps[i]);
        }
        assert(pre.owner_has(ps[i].owner_id@, ps[i].name@));
        assert(qs[i].owner_id@ == ps[i].owner_id@ && qs[i].name@ == ps[i].name@);
        assert(post.series_per_owner@ == pre.series_per_owner@);
    }
}

impl Contract {
    /// Approves `account_id` on the series named `series_name`. Only the
    /// series' current owner may approve; re-approving an account is a
    /// no-op. When `msg` is given, a one-way notification for the
    /// approved account's contract is handed back for the host to
    /// dispatch after the approval has committed, funded with no value
    /// and the caller's remaining execution budget above the reserve.
    /// The caller must attach a positive prepayment covering the measured
    /// byte growth; the surplus is returned. On any error the state is
    /// exactly as before.
    pub fn series_approve(
        &mut self,
        series_name: String,
        account_id: String,
        msg: Option<String>,
        caller: String,
        prepaid_gas: u64,
        attached_deposit: u128,
    ) -> (r: Result<ApproveOutcome, SeriesError>)
        requires
            old(self).wf(),
            msg.is_some() ==> prepaid_gas >= GAS_FOR_SERIES_APPROVE,
        ensures
            final(self).wf(),
            match r {
                Ok(out) => {
                    &&& attached_deposit >= 1
                    &&& old(self).series_map().contains_key(series_name@)
                    &&& old(self).series_map()[series_name@].owner_id@ == caller@
                    &&& approve_transition(*old(self), *final(self), series_name, account_id)
                    &&& attached_deposit >= delta_of(*old(self), *final(self)) as u128
                    &&& out.refund == attached_deposit - delta_of(*old(self), *final(self)) as u128
                    &&& (match msg {
                        Some(m) => match out.notification {
                            Some(n) => {
                                &&& n.receiver_id == account_id
                                &&& n.series_name == series_name
                                &&& n.owner_id@ == old(self).series_map()[series_name@].owner_id@
                                &&& n.msg == m
                                &&& n.attached_deposit == 0
                                &&& n.gas == prepaid_gas - GAS_FOR_SERIES_APPROVE
                            },
                            None => false,
                        },
                        None => out.notification is None,
                    })
                },
                Err(e) => match e {
                    SeriesError::DepositRequired => attached_deposit == 0 && unchanged(
                        *old(self),
                        *final(self),
                    ),
                    SeriesError::NotFound(ent) => {
                        &&& ent == Entity::Series
                        &&& attached_deposit >= 1
                        &&& unchanged(*old(self), *final(self))
                        &&& !old(self).series_map().contains_key(series_name@)
                    },
                    SeriesError::Unauthorized => {
                        &&& attached_deposit >= 1
                        &&& unchanged(*old(self), *final(self))
                        &&& old(self).series_map().contains_key(series_name@)
                        &&& old(self).series_map()[series_name@].owner_id@ != caller@
                    },
                    SeriesError::InsufficientDeposit { required } => {
                        &&& attached_deposit >= 1
                        &&& unchanged(*old(self), *final(self))
                        &&& attached_deposit < required
                        &&& (exists|w: Contract|
                            approve_transition(*old(self), w, series_name, account_id) && required
                                == delta_of(*old(self), w) as u128)
                    },
                },
            },
    {
        if attached_deposit == 0 {
            proof {
                lemma_unchanged_refl(*old(self));
            }
            return Err(SeriesError::DepositRequired);
        }
        let found = self.find_series(&series_name);
        let i = match found {
            None => {
                proof {
                    lemma_map_of_absent(self.series_by_name@, series_key(), series_name@);
                    lemma_unchanged_refl(*old(self));
                }
                return Err(SeriesError::NotFound(Entity::Series));
            },
            Some(i) => i,
        };
        proof {
            lemma_map_of_index(self.series_by_name@, series_key(), i as int);
        }
        if !(self.series_by_name[i].owner_id == caller) {
            proof {
                lemma_unchanged_refl(*old(self));
            }
            return Err(SeriesError::Unauthorized);
        }
        let before = self.measure();
        let mut srec = self.series_by_name.remove(i);
        let added = srec.approved_account_ids.insert(account_id.clone());
        let ghost srec_after = srec;
        self.series_by_name.insert(i, srec);
        proof {
            crate::store::lemma_remove_insert(old(self).series_by_name@, i as int, srec_after);
            assert(self.series_by_name@ == old(self).series_by_name@.update(i as int, srec_after));
            assert(approve_at(*old(self), *self, i as int, series_name, account_id));
            lemma_approve_attempt_ok(*old(self), *self, series_name, account_id);
        }
        let after = self.measure();
        let cost_units = crate::usage::sat_sub_x(after, before);
        let cost = cost_units as u128;
        if attached_deposit < cost {
            let ghost attempt = *self;
            let mut srec2 = self.series_by_name.remove(i);
            let ghost removed = srec2;
            if added {
                let _ = srec2.approved_account_ids.items.pop();
            }
            let ghost srec_back = srec2;
            self.series_by_name.insert(i, srec2);
            proof {
                let w = i as int;
                let v0 = old(self).series_by_name@;
                crate::store::lemma_remove_insert(attempt.series_by_name@, w, srec_back);
                assert(self.series_by_name@ == attempt.series_by_name@.update(w, srec_back));
                assert(removed == attempt.series_by_name@[w]);
                assert(same_series_rec(srec_back, v0[w])) by {
                    if added {
                        assert(srec_back.approved_account_ids.items@
                            =~= v0[w].approved_account_ids.items@);
                    }
                }
                assert forall|k: int| 0 <= k < v0.len() implies same_series_rec(
                    #[trigger] self.series_by_name@[k],
                    v0[k],
                ) by {
                    if k != w {
                        assert(self.series_by_name@[k] == v0[k]);
                    }
                }
                assert(unchanged(*old(self), *self));
                lemma_wf_from_unchanged(*old(self), *self);
                assert(approve_transition(*old(self), attempt, series_name, account_id));
                assert(cost == delta_of(*old(self), attempt) as u128);
            }
            return Err(SeriesError::InsufficientDeposit { required: cost });
        }
        let notification = match msg {
            Some(m) => Some(
                SeriesOnApprove {
                    receiver_id: account_id,
                    series_name: series_name,
                    owner_id: self.series_by_name[i].owner_id.clone(),
                    msg: m,
                    attached_deposit: 0,
                    gas: prepaid_gas - GAS_FOR_SERIES_APPROVE,
                },
            ),
            None => None,
        };
        Ok(ApproveOutcome { refund: attached_deposit - cost, notification })
    }
}

/// After the in-memory mutation of a create, before accounting: the new
/// state satisfies the create transition and is well formed.
proof fn lemma_create_attempt_ok(
    pre: Contract,
    post: Contract,
    series_name: String,
    src: String,
    params: SeriesParams,
    caller: String,
    timestamp: u64,
)
    requires
        pre.wf(),
        create_transition(pre, post, series_name, src, params, caller, timestamp),
    ensures
        post.wf(),
{
    let ps = pre.series_by_name@;
    let qs = post.series_by_name@;
    let po = pre.series_per_owner@;
    let qo = post.series_per_owner@;
    // The position of the fresh record: the overwritten slot, or the end.
    let n: int = if exists|i: int|
        series_put_at(ps, qs, i, series_name, src, params, caller, timestamp) {
        choose|i: int| series_put_at(ps, qs, i, series_name, src, params, caller, timestamp)
    } else {
        ps.len() as int
    };
    if exists|i: int| series_put_at(ps, qs, i, series_name, src, params, caller, timestamp) {
        assert(series_put_at(ps, qs, n, series_name, src, params, caller, timestamp));
    }
    assert(0 <= n < qs.len());
    assert(new_series_record(qs[n], series_name, src, params, caller, timestamp));
    assert(forall|k: int| 0 <= k < qs.len() && k != n ==> k < ps.len() && qs[k] == ps[k]);
    assert(n < ps.len() ==> ps[n].name@ == series_name@);
    assert(n == ps.len() ==> forall|i: int| 0 <= i < ps.len() ==> ps[i].name@ != series_name@);
    // Key distinctness of the series store.
    assert forall|i: int, j: int| 0 <= i < j < qs.len() implies qs[i].name@ != qs[j].name@ by {
        if i == n {
            assert(qs[j] == ps[j]);
        } else if j == n {
            assert(qs[i] == ps[i]);
        } else {
            assert(qs[i] == ps[i] && qs[j] == ps[j]);
        }
    }
    // Key distinctness of the owner index.
    assert forall|i: int, j: int| 0 <= i < j < qo.len() implies qo[i].owner_id@ != qo[j].owner_id@
    by {
        if exists|w: int| owner_add_at(po, qo, w, caller, series_name) {
            let w = choose|w: int| owner_add_at(po, qo, w, caller, series_name);
            assert(owner_add_at(po, qo, w, caller, series_name));
            if i != w {
                assert(qo[i] == po[i]);
            }
            if j != w {
                assert(qo[j] == po[j]);
            }
        } else {
            if j < po.len() {
                assert(qo[i] == po[i] && qo[j] == po[j]);
            } else {
                assert(qo[i] == po[i]);
                assert(qo[j].owner_id@ == caller@);
            }
        }
    }
    // Per-entry well-formedness of the series store.
    assert forall|i: int| 0 <= i < qs.len() implies {
        &&& (#[trigger] qs[i]).approved_account_ids.wf()
        &&& qs[i].approved_account_ids.storage_key@ == storage_key_of(
            TAG_SERIES_APPROVED_IDS,
            qs[i].name@,
        )
    } by {
        if i != n {
            assert(qs[i] == ps[i]);
        }
    }
    // Per-entry well-formedness of the owner index.
    assert forall|j: int| 0 <= j < qo.len() implies {
        &&& (#[trigger] qo[j]).set.wf()
        &&& qo[j].set.storage_key@ == storage_key_of(TAG_SERIES_PER_OWNER, qo[j].owner_id@)
    } by {
        if exists|w: int| owner_add_at(po, qo, w, caller, series_name) {
            let w = choose|w: int| owner_add_at(po, qo, w, caller, series_name);
            assert(owner_add_at(po, qo, w, caller, series_name));
            if j != w {
                assert(qo[j] == po[j]);
            } else {
                assert(qo[w].owner_id@ == po[w].owner_id@);
                if !po[w].set.contains_name(series_name@) {
                    let olditems = po[w].set.items@;
                    assert forall|a: int, b: int|
                        0 <= a < b < qo[w].set.items@.len() implies qo[w].set.items@[a]@ != qo[
                    w].set.items@[b]@ by {
                        if b == olditems.len() {
                            assert(olditems[a]@ != series_name@);
                        }
                    }
                }
            }
        } else {
            if j < po.len() {
                assert(qo[j] == po[j]);
            } else {
                assert(qo[j].set.items@ == seq![series_name]);
                assert(qo[j].set.wf());
            }
        }
    }
    // The ownership link: every series is listed under its owner.
    lemma_owner_index_add_keeps(pre, post, caller, series_name);
    lemma_owner_index_add_lists(pre, post, caller, series_name);
    assert forall|i: int| 0 <= i < qs.len() implies post.owner_has(
        (#[trigger] qs[i]).owner_id@,
        qs[i].name@,
    ) by {
        if i == n {
            assert(qs[n].owner_id@ == caller@ && qs[n].name@ == series_name@);
        } else {
            assert(qs[i] == ps[i]);
            assert(pre.owner_has(ps[i].owner_id@, ps[i].name@));
        }
    }
}

/// Recording a name under an owner keeps every listing the index held.
pub proof fn lemma_owner_index_add_keeps(pre: Contract, post: Contract, owner: String, name: String)
    requires
        owner_index_add(pre.series_per_owner@, post.series_per_owner@, owner, name),
    ensures
        forall|o: Seq<char>, n: Seq<char>|
            pre.owner_has(o, n) ==> #[trigger] post.owner_has(o, n),
{
    let po = pre.series_per_owner@;
    let qo = post.series_per_owner@;
    assert forall|o: Seq<char>, n: Seq<char>| pre.owner_has(o, n) implies #[trigger] post.owner_has(
        o,
        n,
    ) by {
        let j0 = choose|j: int|
            0 <= j < po.len() && po[j].owner_id@ == o && po[j].set.contains_name(n);
        let m = choose|m: int| 0 <= m < po[j0].set.items@.len() && po[j0].set.items@[m]@ == n;
        if exists|w: int| owner_add_at(po, qo, w, owner, name) {
            let w = choose|w: int| owner_add_at(po, qo, w, owner, name);
            assert(owner_add_at(po, qo, w, owner, name));
            if j0 != w {
                assert(qo[j0] == po[j0]);
            } else {
                // The updated entry's member set only grew.
                assert(qo[j0].set.items@[m]@ == n);
                assert(qo[j0].set.contains_name(n));
            }
        } else {
            assert(qo[j0] == po[j0]);
        }
        assert(post.owner_has(o, n));
    }
}

/// Recording a name under an owner makes the index list it.
pub proof fn lemma_owner_index_add_lists(pre: Contract, post: Contract, owner: String, name: String)
    requires
        owner_index_add(pre.series_per_owner@, post.series_per_owner@, owner, name),
    ensures
        post.owner_has(owner@, name@),
{
    let po = pre.series_per_owner@;
    let qo = post.series_per_owner@;
    if exists|w: int| owner_add_at(po, qo, w, owner, name) {
        let j = choose|w: int| owner_add_at(po, qo, w, owner, name);
        assert(owner_add_at(po, qo, j, owner, name));
        if po[j].set.contains_name(name@) {
            let m = choose|m: int|
                0 <= m < po[j].set.items@.len() && po[j].set.items@[m]@ == name@;
            assert(qo[j].set.items@[m]@ == name@);
            assert(qo[j].set.contains_name(name@));
        } else {
            let m = po[j].set.items@.len() as int;
            assert(qo[j].set.items@[m]@ == name@);
            assert(qo[j].set.contains_name(name@));
        }
        assert(qo[j].owner_id@ == owner@);
    } else {
        let m = po.len() as int;
        assert(qo[m].set.items@[0]@ == name@);
        assert(qo[m].set.contains_name(name@));
        assert(qo[m].owner_id@ == owner@);
    }
}

/// The token at position `k` had the update mapping applied to its
/// mutable attribute vector, against its series' declared schema;
/// everything else about it is untouched.
pub open spec fn update_at(
    pre: Contract,
    post: Contract,
    k: int,
    token_id: String,
    pairs: Seq<(String, String)>,
) -> bool {
    &&& 0 <= k < pre.token_data_by_id@.len()
    &&& pre.token_data_by_id@[k].token_id@ == token_id@
    &&& pre.series_map().contains_key(pre.token_data_by_id@[k].data.series_args.name@)
    &&& post.token_data_by_id@.len() == pre.token_data_by_id@.len()
    &&& (forall|m: int|
        0 <= m < pre.token_data_by_id@.len() && m != k ==> post.token_data_by_id@[m]
            == pre.token_data_by_id@[m])
    &&& post.token_data_by_id@[k].token_id == pre.token_data_by_id@[k].token_id
    &&& post.token_data_by_id@[k].data.series_args.name
        == pre.token_data_by_id@[k].data.series_args.name
    &&& post.token_data_by_id@[k].data.series_args.mint
        == pre.token_data_by_id@[k].data.series_args.mint
    &&& post.token_data_by_id@[k].data.series_args.owner@ == crate::attrs::apply_updates(
        pre.token_data_by_id@[k].data.series_args.owner@,
        pre.series_map()[pre.token_data_by_id@[k].data.series_args.name@].params.owner@,
        pairs,
    )
}

/// The whole-state effect of a token attribute update: exactly the
/// referenced token's mutable vector is rewritten; the registry and the
/// owner index are untouched.
pub open spec fn update_transition(
    pre: Contract,
    post: Contract,
    token_id: String,
    pairs: Seq<(String, String)>,
) -> bool {
    &&& (exists|k: int| update_at(pre, post, k, token_id, pairs))
    &&& post.series_by_name@ == pre.series_by_name@
    &&& post.series_per_owner@ == pre.series_per_owner@
}

/// After the in-memory mutation of an attribute update: the new state
/// satisfies the update transition and is well formed.
proof fn lemma_update_attempt_ok(
    pre: Contract,
    post: Contract,
    token_id: String,
    pairs: Seq<(String, String)>,
)
    requires
        pre.wf(),
        update_transition(pre, post, token_id, pairs),
    ensures
        post.wf(),
{
    let pt = pre.token_data_by_id@;
    let qt = post.token_data_by_id@;
    let k = choose|k: int| update_at(pre, post, k, token_id, pairs);
    assert(update_at(pre, post, k, token_id, pairs));
    assert forall|i: int, j: int| 0 <= i < j < qt.len() implies qt[i].token_id@ != qt[j].token_id@
    by {
        if i != k {
            assert(qt[i] == pt[i]);
        }
        if j != k {
            assert(qt[j] == pt[j]);
        }
        assert(qt[k].token_id@ == pt[k].token_id@);
    }
    assert forall|i: int| 0 <= i < post.series_by_name@.len() implies post.owner_has(
        (#[trigger] post.series_by_name@[i]).owner_id@,
        post.series_by_name@[i].name@,
    ) by {
        assert(pre.owner_has(pre.series_by_name@[i].owner_id@, pre.series_by_name@[i].name@));
    }
}

impl Contract {
    /// Applies a partial update to the mutable "owner" attribute vector of
    /// the token named `token_id`, one pair at a time: a name declared in
    /// the parent series' schema overwrites exactly its positional slot; a
    /// name the schema does not declare is skipped without failing the
    /// call. No authorization is required of the caller. The caller must
    /// attach a positive prepayment covering the measured byte growth; the
    /// surplus is returned. On any error the state is exactly as before.
    pub fn update_token_owner_args(
        &mut self,
        token_id: String,
        owner_args: crate::types::OwnerArgs,
        attached_deposit: u128,
    ) -> (r: Result<u128, SeriesError>)
        requires
            old(self).wf(),
        ensures
            final(self).wf(),
            match r {
                Ok(refund) => {
                    &&& attached_deposit >= 1
                    &&& update_transition(*old(self), *final(self), token_id, owner_args@)
                    &&& attached_deposit >= delta_of(*old(self), *final(self)) as u128
                    &&& refund == attached_deposit - delta_of(*old(self), *final(self)) as u128
                },
                Err(e) => match e {
                    SeriesError::DepositRequired => attached_deposit == 0 && unchanged(
                        *old(self),
                        *final(self),
                    ),
                    SeriesError::NotFound(ent) => {
                        &&& attached_deposit >= 1
                        &&& unchanged(*old(self), *final(self))
                        &&& (ent == Entity::Token || ent == Entity::Series)
                        &&& (ent == Entity::Token ==> !old(self).tokens_map().contains_key(
                            token_id@,
                        ))
                        &&& (ent == Entity::Series ==> old(self).tokens_map().contains_key(
                            token_id@,
                        ) && !old(self).series_map().contains_key(
                            old(self).tokens_map()[token_id@].data.series_args.name@,
                        ))
                    },
                    SeriesError::InsufficientDeposit { required } => {
                        &&& attached_deposit >= 1
                        &&& unchanged(*old(self), *final(self))
                        &&& attached_deposit < required
                        &&& (exists|w: Contract|
                            update_transition(*old(self), w, token_id, owner_args@) && required
                                == delta_of(*old(self), w) as u128)
                    },
                    _ => false,
                },
            },
    {
        if attached_deposit == 0 {
            proof {
                lemma_unchanged_refl(*old(self));
            }
            return Err(SeriesError::DepositRequired);
        }
        let kfound = self.find_token(&token_id);
        let k = match kfound {
            None => {
                proof {
                    lemma_map_of_absent(self.token_data_by_id@, token_key(), token_id@);
                    lemma_unchanged_refl(*old(self));
                }
                return Err(SeriesError::NotFound(Entity::Token));
            },
            Some(k) => k,
        };
        proof {
            lemma_map_of_index(self.token_data_by_id@, token_key(), k as int);
        }
        let sfound = self.find_series(&self.token_data_by_id[k].data.series_args.name);
        let si = match sfound {
            None => {
                proof {
                    lemma_map_of_absent(
                        self.series_by_name@,
                        series_key(),
                        self.token_data_by_id@[k as int].data.series_args.name@,
                    );
                    lemma_unchanged_refl(*old(self));
                }
                return Err(SeriesError::NotFound(Entity::Series));
            },
            Some(si) => si,
        };
        proof {
            lemma_map_of_index(self.series_by_name@, series_key(), si as int);
        }
        let ghost schema = self.series_by_name@[si as int].params.owner@;
        let before = self.measure();
        let rec = self.token_data_by_id.remove(k);
        let TokenEntry { token_id: tid, data } = rec;
        let TokenData { series_args } = data;
        let SeriesArgs { name, mint, owner } = series_args;
        let mut new_owner = owner.clone();
        proof {
            assert forall|x: int| 0 <= x < owner@.len() implies new_owner@[x] == owner@[x] by {}
            assert(new_owner@ =~= owner@);
        }
        let mut t: usize = 0;
        while t < owner_args.len()
            invariant
                t <= owner_args@.len(),
                si < self.series_by_name@.len(),
                schema == self.series_by_name@[si as int].params.owner@,
                new_owner@ == crate::attrs::apply_updates(owner@, schema, owner_args@.take(
                    t as int,
                )),
            decreases owner_args@.len() - t,
        {
            let pair = &owner_args[t];
            let pos = crate::attrs::position_of(&self.series_by_name[si].params.owner, &pair.0);
            proof {
                crate::attrs::lemma_apply_updates_push(
                    owner@,
                    schema,
                    owner_args@.take(t as int),
                    owner_args@[t as int],
                );
                assert(owner_args@.take(t as int + 1) =~= owner_args@.take(t as int).push(
                    owner_args@[t as int],
                ));
            }
            match pos {
                Some(p) => {
                    if p < new_owner.len() {
                        new_owner.set(p, pair.1.clone());
                    }
                },
                None => {},
            }
            t += 1;
        }
        proof {
            assert(owner_args@.take(owner_args@.len() as int) =~= owner_args@);
        }
        let entry2 = TokenEntry {
            token_id: tid,
            data: TokenData { series_args: SeriesArgs { name, mint, owner: new_owner } },
        };
        let ghost entry2_snap = entry2;
        self.token_data_by_id.insert(k, entry2);
        proof {
            crate::store::lemma_remove_insert(old(self).token_data_by_id@, k as int, entry2_snap);
            assert(self.token_data_by_id@ == old(self).token_data_by_id@.update(
                k as int,
                entry2_snap,
            ));
            assert(update_at(*old(self), *self, k as int, token_id, owner_args@));
            lemma_update_attempt_ok(*old(self), *self, token_id, owner_args@);
        }
        let after = self.measure();
        let cost_units = crate::usage::sat_sub_x(after, before);
        let cost = cost_units as u128;
        if attached_deposit < cost {
            let ghost attempt = *self;
            let back = self.token_data_by_id.remove(k);
            let TokenEntry { token_id: tid2, data: data2 } = back;
            let TokenData { series_args: sa2 } = data2;
            let SeriesArgs { name: name2, mint: mint2, owner: _discarded } = sa2;
            let restored = TokenEntry {
                token_id: tid2,
                data: TokenData { series_args: SeriesArgs { name: name2, mint: mint2, owner } },
            };
            let ghost restored_snap = restored;
            self.token_data_by_id.insert(k, restored);
            proof {
                crate::store::lemma_remove_insert(attempt.token_data_by_id@, k as int, restored_snap);
                assert(restored_snap == old(self).token_data_by_id@[k as int]);
                assert(self.token_data_by_id@ =~= old(self).token_data_by_id@);
                assert(unchanged(*old(self), *self));
                lemma_wf_from_unchanged(*old(self), *self);
                assert(update_transition(*old(self), attempt, token_id, owner_args@));
                assert(cost == delta_of(*old(self), attempt) as u128);
            }
            return Err(SeriesError::InsufficientDeposit { required: cost });
        }
        Ok(attached_deposit - cost)
    }
}

/// The token store overwrote position `k` in place with the new record.
pub open spec fn token_put_at(
    pre: Seq<TokenEntry>,
    post: Seq<TokenEntry>,
    k: int,
    token_id: String,
    args: SeriesArgs,
) -> bool {
    &&& 0 <= k < pre.len()
    &&& pre[k].token_id@ == token_id@
    &&& post.len() == pre.len()
    &&& (forall|m: int| 0 <= m < pre.len() && m != k ==> post[m] == pre[m])
    &&& post[k].token_id == token_id
    &&& post[k].data.series_args == args
}

/// The token store after writing the record for `token_id`: overwritten in
/// place, or appended when the id was new.
pub open spec fn token_put(
    pre: Seq<TokenEntry>,
    post: Seq<TokenEntry>,
    token_id: String,
    args: SeriesArgs,
) -> bool {
    ||| (exists|k: int| token_put_at(pre, post, k, token_id, args))
    ||| {
        &&& (forall|m: int| 0 <= m < pre.len() ==> pre[m].token_id@ != token_id@)
        &&& post.len() == pre.len() + 1
        &&& (forall|m: int| 0 <= m < pre.len() ==> post[m] == pre[m])
        &&& post[pre.len() as int].token_id == token_id
        &&& post[pre.len() as int].data.series_args == args
    }
}

impl Contract {
    /// The token-store collaborator's write: records (or overwrites) the
    /// token named `token_id` with its per-instance payload. Minting
    /// itself is out of scope here; this is the interface it writes
    /// through.
    pub fn put_token_data(&mut self, token_id: String, args: SeriesArgs)
        requires
            old(self).wf(),
        ensures
            final(self).wf(),
            final(self).series_by_name@ == old(self).series_by_name@,
            final(self).series_per_owner@ == old(self).series_per_owner@,
            token_put(old(self).token_data_by_id@, final(self).token_data_by_id@, token_id, args),
    {
        let entry = TokenEntry { token_id: token_id.clone(), data: TokenData { series_args: args } };
        let ghost entry_snap = entry;
        let found = self.find_token(&token_id);
        match found {
            Some(k) => {
                let mut slot = entry;
                self.token_data_by_id.set_and_swap(k, &mut slot);
                proof {
                    assert(token_put_at(
                        old(self).token_data_by_id@,
                        self.token_data_by_id@,
                        k as int,
                        token_id,
                        args,
                    ));
                }
            },
            None => {
                self.token_data_by_id.push(entry);
                proof {
                    assert(self.token_data_by_id@[old(self).token_data_by_id@.len() as int]
                        == entry_snap);
                }
            },
        }
        proof {
            let pt = old(self).token_data_by_id@;
            let qt = self.token_data_by_id@;
            assert forall|i: int, j: int|
                0 <= i < j < qt.len() implies qt[i].token_id@ != qt[j].token_id@ by {}
            assert forall|i: int| 0 <= i < self.series_by_name@.len() implies self.owner_has(
                (#[trigger] self.series_by_name@[i]).owner_id@,
                self.series_by_name@[i].name@,
            ) by {
                assert(old(self).owner_has(
                    old(self).series_by_name@[i].owner_id@,
                    old(self).series_by_name@[i].name@,
                ));
                let o = old(self).series_by_name@[i].owner_id@;
                let n = old(self).series_by_name@[i].name@;
                let j0 = choose|j: int|
                    0 <= j < old(self).series_per_owner@.len() && old(
                        self,
                    ).series_per_owner@[j].owner_id@ == o && old(
                        self,
                    ).series_per_owner@[j].set.contains_name(n);
                assert(self.series_per_owner@[j0].owner_id@ == o);
                assert(self.series_per_owner@[j0].set.contains_name(n));
            }
        }
    }

    /// The token-store collaborator's read: fetches the per-instance
    /// payload of the token named `token_id`. Read-only.
    pub fn get_token_data(&self, token_id: &String) -> (r: Result<SeriesArgs, SeriesError>)
        requires
            self.wf(),
        ensures
            match r {
                Ok(a) => {
                    &&& self.tokens_map().contains_key(token_id@)
                    &&& a.name@ == self.tokens_map()[token_id@].data.series_args.name@
                    &&& a.mint@ == self.tokens_map()[token_id@].data.series_args.mint@
                    &&& a.owner@ == self.tokens_map()[token_id@].data.series_args.owner@
                },
                Err(e) => e == SeriesError::NotFound(Entity::Token)
                    && !self.tokens_map().contains_key(token_id@),
            },
    {
        match self.find_token(token_id) {
            Some(k) => {
                proof {
                    lemma_map_of_index(self.token_data_by_id@, token_key(), k as int);
                }
                let a = &self.token_data_by_id[k].data.series_args;
                let mint = a.mint.clone();
                let owner = a.owner.clone();
                proof {
                    assert(mint@ =~= a.mint@);
                    assert(owner@ =~= a.owner@);
                }
                Ok(SeriesArgs { name: a.name.clone(), mint, owner })
            },
            None => {
                proof {
                    lemma_map_of_absent(self.token_data_by_id@, token_key(), token_id@);
                }
                Err(SeriesError::NotFound(Entity::Token))
            },
        }
    }
}

} // verus!
