use vstd::prelude::*;

verus! {

/// The position of the first schema name equal to `name`, or -1 when the
/// schema does not declare it.
pub open spec fn first_pos(schema: Seq<String>, name: Seq<char>) -> int
    decreases schema.len(),
{
    if schema.len() == 0 {
        -1
    } else if schema[0]@ == name {
        0
    } else {
        let r = first_pos(schema.drop_first(), name);
        if r == -1 {
            -1
        } else {
            r + 1
        }
    }
}

/// What `first_pos` finds: -1 exactly when the name is undeclared, else
/// the first declaring position.
pub proof fn lemma_first_pos_char(schema: Seq<String>, name: Seq<char>)
    ensures
        first_pos(schema, name) == -1 <==> (forall|l: int|
            0 <= l < schema.len() ==> schema[l]@ != name),
        first_pos(schema, name) != -1 ==> {
            &&& 0 <= first_pos(schema, name) < schema.len()
            &&& schema[first_pos(schema, name)]@ == name
            &&& forall|l: int| 0 <= l < first_pos(schema, name) ==> schema[l]@ != name
        },
    decreases schema.len(),
{
    if schema.len() > 0 && schema[0]@ != name {
        lemma_first_pos_char(schema.drop_first(), name);
        assert forall|l: int| 1 <= l < schema.len() implies schema[l]@ == schema.drop_first()[l
            - 1]@ by {}
    }
}

/// One partial update: overwrite the attribute slot positionally matching
/// `name` in the series' declared schema; an undeclared name, or a slot
/// the token's vector does not reach, is skipped without effect.
pub open spec fn apply_one(
    owner: Seq<String>,
    schema: Seq<String>,
    name: Seq<char>,
    value: String,
) -> Seq<String> {
    let i = first_pos(schema, name);
    if 0 <= i < owner.len() {
        owner.update(i, value)
    } else {
        owner
    }
}

/// A whole update mapping applied in order, one pair at a time.
pub open spec fn apply_updates(
    owner: Seq<String>,
    schema: Seq<String>,
    pairs: Seq<(String, String)>,
) -> Seq<String>
    decreases pairs.len(),
{
    if pairs.len() == 0 {
        owner
    } else {
        apply_updates(
            apply_one(owner, schema, pairs[0].0@, pairs[0].1),
            schema,
            pairs.drop_first(),
        )
    }
}

/// Applying one more pair after a batch equals applying it to the batch's
/// result.
pub proof fn lemma_apply_updates_push(
    owner: Seq<String>,
    schema: Seq<String>,
    pairs: Seq<(String, String)>,
    p: (String, String),
)
    ensures
        apply_updates(owner, schema, pairs.push(p)) == apply_one(
            apply_updates(owner, schema, pairs),
            schema,
            p.0@,
            p.1,
        ),
    decreases pairs.len(),
{
    if pairs.len() == 0 {
        assert(pairs.push(p)[0] == p);
        assert(pairs.push(p).drop_first() =~= Seq::<(String, String)>::empty());
        assert(apply_updates(owner, schema, pairs) == owner);
        assert(apply_updates(owner, schema, pairs.push(p)) == apply_updates(
            apply_one(owner, schema, p.0@, p.1),
            schema,
            pairs.push(p).drop_first(),
        ));
        assert(apply_updates(apply_one(owner, schema, p.0@, p.1), schema, Seq::empty())
            == apply_one(owner, schema, p.0@, p.1));
    } else {
        assert(pairs.push(p)[0] == pairs[0]);
        assert(pairs.push(p).drop_first() =~= pairs.drop_first().push(p));
        let step = apply_one(owner, schema, pairs[0].0@, pairs[0].1);
        assert(apply_updates(owner, schema, pairs.push(p)) == apply_updates(
            step,
            schema,
            pairs.drop_first().push(p),
        ));
        lemma_apply_updates_push(step, schema, pairs.drop_first(), p);
        assert(apply_updates(owner, schema, pairs) == apply_updates(
            step,
            schema,
            pairs.drop_first(),
        ));
    }
}

/// The first position in `schema` holding a string equal to `name`.
pub fn position_of(schema: &Vec<String>, name: &String) -> (r: Option<usize>)
    ensures
        match r {
            Some(p) => first_pos(schema@, name@) == p,
            None => first_pos(schema@, name@) == -1,
        },
{
    let mut i: usize = 0;
    while i < schema.len()
        invariant
            i <= schema@.len(),
            forall|l: int| 0 <= l < i ==> schema@[l]@ != name@,
        decreases schema@.len() - i,
    {
        if schema[i] == *name {
            proof {
                lemma_first_pos_char(schema@, name@);
            }
            return Some(i);
        }
        i += 1;
    }
    proof {
        lemma_first_pos_char(schema@, name@);
    }
    None
}

} // verus!
