use vstd::prelude::*;

use crate::types::{KeyedSet, OwnerEntry, Series, SeriesArgs, SeriesParams, TokenEntry};

verus! {

/// Clamps a mathematical byte count into the meter's range.
pub open spec fn sat_cap(n: int) -> usize {
    if n > usize::MAX {
        usize::MAX
    } else if n < 0 {
        0
    } else {
        n as usize
    }
}

/// Saturating addition on the meter.
pub open spec fn sat_add(a: usize, b: usize) -> usize {
    sat_cap(a + b)
}

/// Saturating subtraction on the meter.
pub open spec fn sat_sub(a: usize, b: usize) -> usize {
    sat_cap(a - b)
}

pub fn sat_add_x(a: usize, b: usize) -> (r: usize)
    ensures
        r == sat_add(a, b),
{
    if a <= usize::MAX - b {
        a + b
    } else {
        usize::MAX
    }
}

pub fn sat_sub_x(a: usize, b: usize) -> (r: usize)
    ensures
        r == sat_sub(a, b),
{
    if a >= b {
        a - b
    } else {
        0
    }
}

/// Persisted bytes of one string value: a length prefix plus its characters.
pub open spec fn str_cost(s: Seq<char>) -> usize {
    sat_cap(4 + s.len() as int)
}

fn str_cost_x(s: &String) -> (r: usize)
    ensures
        r == str_cost(s@),
{
    sat_add_x(4, s.as_str().unicode_len())
}

/// Persisted bytes of a vector of strings.
pub open spec fn vec_str_cost(v: Seq<String>) -> usize
    decreases v.len(),
{
    if v.len() == 0 {
        0
    } else {
        sat_add(vec_str_cost(v.drop_last()), str_cost(v.last()@))
    }
}

fn vec_str_cost_x(v: &Vec<String>) -> (r: usize)
    ensures
        r == vec_str_cost(v@),
{
    let mut r: usize = 0;
    let mut i: usize = 0;
    while i < v.len()
        invariant
            i <= v@.len(),
            r == vec_str_cost(v@.take(i as int)),
        decreases v@.len() - i,
    {
        proof {
            assert(v@.take(i + 1).drop_last() =~= v@.take(i as int));
            assert(v@.take(i + 1).last() == v@[i as int]);
        }
        r = sat_add_x(r, str_cost_x(&v[i]));
        i += 1;
    }
    proof {
        assert(v@.take(v@.len() as int) =~= v@);
    }
    r
}

/// Persisted bytes of a partitioned set: its partition key plus its members.
pub open spec fn keyed_set_cost(ks: KeyedSet) -> usize {
    sat_add(sat_cap(ks.storage_key@.len() as int), vec_str_cost(ks.items@))
}

fn keyed_set_cost_x(ks: &KeyedSet) -> (r: usize)
    ensures
        r == keyed_set_cost(*ks),
{
    sat_add_x(ks.storage_key.len(), vec_str_cost_x(&ks.items))
}

/// Persisted bytes of the immutable series parameters.
pub open spec fn params_cost(p: SeriesParams) -> usize {
    sat_add(
        9,
        sat_add(
            vec_str_cost(p.mint@),
            sat_add(vec_str_cost(p.owner@), vec_str_cost(p.packages@)),
        ),
    )
}

fn params_cost_x(p: &SeriesParams) -> (r: usize)
    ensures
        r == params_cost(*p),
{
    sat_add_x(
        9,
        sat_add_x(
            vec_str_cost_x(&p.mint),
            sat_add_x(vec_str_cost_x(&p.owner), vec_str_cost_x(&p.packages)),
        ),
    )
}

/// Persisted bytes of one series record.
pub open spec fn series_cost(s: Series) -> usize {
    sat_add(
        str_cost(s.name@),
        sat_add(
            str_cost(s.src@),
            sat_add(
                str_cost(s.owner_id@),
                sat_add(8, sat_add(keyed_set_cost(s.approved_account_ids), params_cost(s.params))),
            ),
        ),
    )
}

fn series_cost_x(s: &Series) -> (r: usize)
    ensures
        r == series_cost(*s),
{
    sat_add_x(
        str_cost_x(&s.name),
        sat_add_x(
            str_cost_x(&s.src),
            sat_add_x(
                str_cost_x(&s.owner_id),
                sat_add_x(
                    8,
                    sat_add_x(keyed_set_cost_x(&s.approved_account_ids), params_cost_x(&s.params)),
                ),
            ),
        ),
    )
}

/// Persisted bytes of one owner-index entry.
pub open spec fn owner_entry_cost(e: OwnerEntry) -> usize {
    sat_add(str_cost(e.owner_id@), keyed_set_cost(e.set))
}

fn owner_entry_cost_x(e: &OwnerEntry) -> (r: usize)
    ensures
        r == owner_entry_cost(*e),
{
    sat_add_x(str_cost_x(&e.owner_id), keyed_set_cost_x(&e.set))
}

/// Persisted bytes of a token's per-instance payload.
pub open spec fn args_cost(a: SeriesArgs) -> usize {
    sat_add(str_cost(a.name@), sat_add(vec_str_cost(a.mint@), vec_str_cost(a.owner@)))
}

/// Persisted bytes of one token-store entry.
pub open spec fn token_entry_cost(t: TokenEntry) -> usize {
    sat_add(str_cost(t.token_id@), args_cost(t.data.series_args))
}

fn token_entry_cost_x(t: &TokenEntry) -> (r: usize)
    ensures
        r == token_entry_cost(*t),
{
    sat_add_x(
        str_cost_x(&t.token_id),
        sat_add_x(
            str_cost_x(&t.data.series_args.name),
            sat_add_x(
                vec_str_cost_x(&t.data.series_args.mint),
                vec_str_cost_x(&t.data.series_args.owner),
            ),
        ),
    )
}

/// Persisted bytes of the whole series registry store.
pub open spec fn series_seq_cost(s: Seq<Series>) -> usize
    decreases s.len(),
{
    if s.len() == 0 {
        0
    } else {
        sat_add(series_seq_cost(s.drop_last()), series_cost(s.last()))
    }
}

pub fn series_seq_cost_x(v: &Vec<Series>) -> (r: usize)
    ensures
        r == series_seq_cost(v@),
{
    let mut r: usize = 0;
    let mut i: usize = 0;
    while i < v.len()
        invariant
            i <= v@.len(),
            r == series_seq_cost(v@.take(i as int)),
        decreases v@.len() - i,
    {
        proof {
            assert(v@.take(i + 1).drop_last() =~= v@.take(i as int));
            assert(v@.take(i + 1).last() == v@[i as int]);
        }
        r = sat_add_x(r, series_cost_x(&v[i]));
        i += 1;
    }
    proof {
        assert(v@.take(v@.len() as int) =~= v@);
    }
    r
}

/// Persisted bytes of the whole owner index.
pub open spec fn owners_seq_cost(s: Seq<OwnerEntry>) -> usize
    decreases s.len(),
{
    if s.len() == 0 {
        0
    } else {
        sat_add(owners_seq_cost(s.drop_last()), owner_entry_cost(s.last()))
    }
}

pub fn owners_seq_cost_x(v: &Vec<OwnerEntry>) -> (r: usize)
    ensures
        r == owners_seq_cost(v@),
{
    let mut r: usize = 0;
    let mut i: usize = 0;
    while i < v.len()
        invariant
            i <= v@.len(),
            r == owners_seq_cost(v@.take(i as int)),
        decreases v@.len() - i,
    {
        proof {
            assert(v@.take(i + 1).drop_last() =~= v@.take(i as int));
            assert(v@.take(i + 1).last() == v@[i as int]);
        }
        r = sat_add_x(r, owner_entry_cost_x(&v[i]));
        i += 1;
    }
    proof {
        assert(v@.take(v@.len() as int) =~= v@);
    }
    r
}

/// Persisted bytes of the whole token store.
pub open spec fn tokens_seq_cost(s: Seq<TokenEntry>) -> usize
    decreases s.len(),
{
    if s.len() == 0 {
        0
    } else {
        sat_add(tokens_seq_cost(s.drop_last()), token_entry_cost(s.last()))
    }
}

pub fn tokens_seq_cost_x(v: &Vec<TokenEntry>) -> (r: usize)
    ensures
        r == tokens_seq_cost(v@),
{
    let mut r: usize = 0;
    let mut i: usize = 0;
    while i < v.len()
        invariant
            i <= v@.len(),
            r == tokens_seq_cost(v@.take(i as int)),
        decreases v@.len() - i,
    {
        proof {
            assert(v@.take(i + 1).drop_last() =~= v@.take(i as int));
            assert(v@.take(i + 1).last() == v@[i as int]);
        }
        r = sat_add_x(r, token_entry_cost_x(&v[i]));
        i += 1;
    }
    proof {
        assert(v@.take(v@.len() as int) =~= v@);
    }
    r
}

} // verus!
