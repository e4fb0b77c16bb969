use vstd::prelude::*;

use crate::attrs::{apply_one, apply_updates, first_pos, lemma_first_pos_char};
use crate::registry::{
    approve_at, create_transition, lemma_owner_index_add_keeps, lemma_owner_index_add_lists,
    series_put_at, Contract,
};
use crate::store::lemma_map_of_index;
use crate::types::SeriesParams;

verus! {

/// The position of the freshly created record in the post-state store,
/// with the facts the creation left about it.
proof fn created_record_position(
    pre: Contract,
    post: Contract,
    series_name: String,
    src: String,
    params: SeriesParams,
    caller: String,
    timestamp: u64,
) -> (n: int)
    requires
        create_transition(pre, post, series_name, src, params, caller, timestamp),
    ensures
        0 <= n < post.series_by_name@.len(),
        crate::registry::new_series_record(
            post.series_by_name@[n],
            series_name,
            src,
            params,
            caller,
            timestamp,
        ),
        forall|k: int|
            0 <= k < post.series_by_name@.len() && k != n ==> k < pre.series_by_name@.len()
                && post.series_by_name@[k] == pre.series_by_name@[k],
{
    let ps = pre.series_by_name@;
    let qs = post.series_by_name@;
    if exists|i: int| series_put_at(ps, qs, i, series_name, src, params, caller, timestamp) {
        let n = choose|i: int|
            series_put_at(ps, qs, i, series_name, src, params, caller, timestamp);
        assert(series_put_at(ps, qs, n, series_name, src, params, caller, timestamp));
        n
    } else {
        ps.len() as int
    }
}

/// Creating a series and then reading its name returns exactly the record
/// that was written: the given content reference, owner, parameters, the
/// given timestamp, and an empty approval set.
pub proof fn lemma_create_then_read(
    pre: Contract,
    post: Contract,
    series_name: String,
    src: String,
    params: SeriesParams,
    caller: String,
    timestamp: u64,
)
    requires
        pre.wf(),
        post.wf(),
        create_transition(pre, post, series_name, src, params, caller, timestamp),
    ensures
        post.series_map().contains_key(series_name@),
        post.series_map()[series_name@].src == src,
        post.series_map()[series_name@].owner_id == caller,
        post.series_map()[series_name@].params == params,
        post.series_map()[series_name@].issued_at == timestamp,
        post.series_map()[series_name@].approved_account_ids.items@ == Seq::<String>::empty(),
{
    let n = created_record_position(pre, post, series_name, src, params, caller, timestamp);
    lemma_map_of_index(post.series_by_name@, crate::registry::series_key(), n);
}

/// After creating a series, its owner's index entry lists it; and a second
/// creation by the same owner leaves the first name listed beside the new
/// one.
pub proof fn lemma_owner_index_accumulates(
    pre: Contract,
    mid: Contract,
    post: Contract,
    name1: String,
    src1: String,
    params1: SeriesParams,
    name2: String,
    src2: String,
    params2: SeriesParams,
    owner: String,
    ts1: u64,
    ts2: u64,
)
    requires
        create_transition(pre, mid, name1, src1, params1, owner, ts1),
        create_transition(mid, post, name2, src2, params2, owner, ts2),
    ensures
        mid.owner_has(owner@, name1@),
        post.owner_has(owner@, name1@),
        post.owner_has(owner@, name2@),
{
    lemma_owner_index_add_lists(pre, mid, owner, name1);
    lemma_owner_index_add_keeps(mid, post, owner, name2);
    lemma_owner_index_add_lists(mid, post, owner, name2);
}

/// Re-creating a series under a different owner overwrites the record —
/// the new owner and an empty approval set — while the old owner's index
/// entry keeps its stale listing of the name.
pub proof fn lemma_recreate_overwrites_and_leaves_stale_listing(
    pre: Contract,
    mid: Contract,
    post: Contract,
    name: String,
    src1: String,
    params1: SeriesParams,
    owner1: String,
    ts1: u64,
    src2: String,
    params2: SeriesParams,
    owner2: String,
    ts2: u64,
)
    requires
        pre.wf(),
        mid.wf(),
        post.wf(),
        create_transition(pre, mid, name, src1, params1, owner1, ts1),
        create_transition(mid, post, name, src2, params2, owner2, ts2),
    ensures
        post.series_map().contains_key(name@),
        post.series_map()[name@].owner_id == owner2,
        post.series_map()[name@].approved_account_ids.items@ == Seq::<String>::empty(),
        post.owner_has(owner1@, name@),
        post.owner_has(owner2@, name@),
{
    lemma_create_then_read(mid, post, name, src2, params2, owner2, ts2);
    lemma_owner_index_add_lists(pre, mid, owner1, name);
    lemma_owner_index_add_keeps(mid, post, owner2, name);
    lemma_owner_index_add_lists(mid, post, owner2, name);
}

/// Approving the same account twice is idempotent: the second approval
/// leaves the approval set — and so its size — exactly as the first left
/// it.
pub proof fn lemma_approve_idempotent(
    pre: Contract,
    mid: Contract,
    post: Contract,
    series_name: String,
    account_id: String,
)
    requires
        pre.wf(),
        mid.wf(),
        post.wf(),
        crate::registry::approve_transition(pre, mid, series_name, account_id),
        crate::registry::approve_transition(mid, post, series_name, account_id),
    ensures
        post.series_map().contains_key(series_name@),
        post.series_map()[series_name@].approved_account_ids.items@ == mid.series_map()[
            series_name@
        ].approved_account_ids.items@,
        post.series_map()[series_name@].approved_account_ids.items@.len() == mid.series_map()[
            series_name@
        ].approved_account_ids.items@.len(),
{
    let i1 = choose|i: int| approve_at(pre, mid, i, series_name, account_id);
    assert(approve_at(pre, mid, i1, series_name, account_id));
    let i2 = choose|i: int| approve_at(mid, post, i, series_name, account_id);
    assert(approve_at(mid, post, i2, series_name, account_id));
    assert(mid.series_by_name@[i1].name@ == series_name@);
    if i1 != i2 {
        assert(mid.series_by_name@[i2].name@ == mid.series_by_name@[i1].name@);
        assert(false);
    }
    // After the first approval the account is a member, so the second
    // insert is a no-op.
    assert(mid.series_by_name@[i1].approved_account_ids.contains_name(account_id@)) by {
        if pre.series_by_name@[i1].approved_account_ids.contains_name(account_id@) {
            let m = choose|m: int|
                0 <= m < pre.series_by_name@[i1].approved_account_ids.items@.len()
                    && pre.series_by_name@[i1].approved_account_ids.items@[m]@ == account_id@;
            assert(mid.series_by_name@[i1].approved_account_ids.items@[m]@ == account_id@);
        } else {
            let m = pre.series_by_name@[i1].approved_account_ids.items@.len() as int;
            assert(mid.series_by_name@[i1].approved_account_ids.items@[m]@ == account_id@);
        }
    }
    lemma_map_of_index(mid.series_by_name@, crate::registry::series_key(), i1);
    lemma_map_of_index(post.series_by_name@, crate::registry::series_key(), i2);
}

/// An update mapping whose names the schema nowhere declares leaves the
/// attribute vector exactly as it was.
pub proof fn lemma_unknown_names_change_nothing(
    owner: Seq<String>,
    schema: Seq<String>,
    pairs: Seq<(String, String)>,
)
    requires
        forall|t: int, l: int|
            0 <= t < pairs.len() && 0 <= l < schema.len() ==> schema[l]@ != pairs[t].0@,
    ensures
        apply_updates(owner, schema, pairs) == owner,
    decreases pairs.len(),
{
    if pairs.len() > 0 {
        lemma_first_pos_char(schema, pairs[0].0@);
        assert(first_pos(schema, pairs[0].0@) == -1);
        assert(apply_one(owner, schema, pairs[0].0@, pairs[0].1) == owner);
        assert forall|t: int, l: int|
            0 <= t < pairs.drop_first().len() && 0 <= l < schema.len() implies schema[l]@
            != pairs.drop_first()[t].0@ by {
            assert(pairs.drop_first()[t] == pairs[t + 1]);
        }
        lemma_unknown_names_change_nothing(owner, schema, pairs.drop_first());
    }
}

/// A declared name overwrites exactly the one positional slot the schema
/// assigns it, leaving every other position untouched.
pub proof fn lemma_declared_name_overwrites_its_slot(
    owner: Seq<String>,
    schema: Seq<String>,
    name: Seq<char>,
    value: String,
)
    requires
        0 <= first_pos(schema, name) < owner.len(),
    ensures
        apply_one(owner, schema, name, value).len() == owner.len(),
        apply_one(owner, schema, name, value)[first_pos(schema, name)] == value,
        forall|j: int|
            0 <= j < owner.len() && j != first_pos(schema, name) ==> apply_one(
                owner,
                schema,
                name,
                value,
            )[j] == owner[j],
{
}

} // verus!
