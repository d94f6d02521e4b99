//! Micro-batching of query embeddings: the queries that arrive together are
//! grouped by model, so that each model embeds its share in one call and each
//! answer goes back to the query it belongs to.

use vstd::prelude::*;

use crate::error::NucleusError;
use crate::rerank::distinct;
use crate::text::str_eq;

verus! {

/// The positions in `models` that name model `m`, ascending.
pub open spec fn indices_of(models: Seq<Seq<char>>, m: Seq<char>) -> Seq<usize>
    decreases models.len(),
{
    if models.len() == 0 {
        Seq::empty()
    } else {
        let rest = indices_of(models.drop_last(), m);
        if models.last() == m {
            rest.push((models.len() - 1) as usize)
        } else {
            rest
        }
    }
}

/// The views of a list of strings.
pub open spec fn model_views(models: Seq<String>) -> Seq<Seq<char>> {
    models.map_values(|m: String| m@)
}

/// A model is among the distinct models exactly when some query names it.
proof fn lemma_distinct_contains(models: Seq<Seq<char>>, m: Seq<char>)
    ensures
        distinct(models).contains(m) == models.contains(m),
    decreases models.len(),
{
    if models.len() > 0 {
        lemma_distinct_contains(models.drop_last(), m);
        let rest = distinct(models.drop_last());
        if models.last() == m {
            assert(models.contains(m)) by {
                assert(models[models.len() - 1] == m);
            }
            if !rest.contains(m) {
                assert(rest.push(m)[rest.len() as int] == m);
            }
        } else {
            if models.drop_last().contains(m) {
                let k = choose|k: int| 0 <= k < models.drop_last().len() && models.drop_last()[k] == m;
                assert(models[k] == m);
            }
            if models.contains(m) {
                let k = choose|k: int| 0 <= k < models.len() && models[k] == m;
                assert(models.drop_last()[k] == m);
            }
            if !rest.contains(models.last()) {
                if rest.push(models.last()).contains(m) {
                    let k = choose|k: int| 0 <= k < rest.len() + 1 && rest.push(models.last())[k] == m;
                    assert(rest[k] == m);
                }
                if rest.contains(m) {
                    let k = choose|k: int| 0 <= k < rest.len() && rest[k] == m;
                    assert(rest.push(models.last())[k] == m);
                }
            }
        }
    }
}

/// No query names a model that none of the queries names.
proof fn lemma_indices_absent(models: Seq<Seq<char>>, m: Seq<char>)
    requires
        !models.contains(m),
    ensures
        indices_of(models, m) == Seq::<usize>::empty(),
    decreases models.len(),
{
    if models.len() > 0 {
        assert(models[models.len() - 1] == models.last());
        assert forall|k: int| 0 <= k < models.drop_last().len() implies models.drop_last()[k] != m by {
            assert(models.drop_last()[k] == models[k]);
        }
        lemma_indices_absent(models.drop_last(), m);
    }
}

/// The distinct models never repeat.
proof fn lemma_distinct_unique(models: Seq<Seq<char>>)
    ensures
        forall|a: int, b: int|
            0 <= a < b < distinct(models).len() ==> distinct(models)[a] != distinct(models)[b],
    decreases models.len(),
{
    if models.len() > 0 {
        lemma_distinct_unique(models.drop_last());
        let rest = distinct(models.drop_last());
        if !rest.contains(models.last()) {
            assert forall|a: int| 0 <= a < rest.len() implies rest[a] != models.last() by {
                if rest[a] == models.last() {
                    assert(rest.contains(models.last()));
                }
            }
        }
    }
}

/// Every position a model's list holds is a position of the batch.
proof fn lemma_indices_bound(models: Seq<Seq<char>>, m: Seq<char>)
    requires
        models.len() <= usize::MAX,
    ensures
        forall|k: int| 0 <= k < indices_of(models, m).len() ==> indices_of(models, m)[k] < models.len(),
    decreases models.len(),
{
    if models.len() > 0 {
        lemma_indices_bound(models.drop_last(), m);
        let r = indices_of(models.drop_last(), m);
        if models.last() == m {
            let pushed = r.push((models.len() - 1) as usize);
            assert forall|k: int| 0 <= k < pushed.len() implies #[trigger] pushed[k] < models.len() by {
                if k < r.len() {
                    assert(pushed[k] == r[k]);
                }
            }
        }
    }
}

/// Each query of a batch is in the list of exactly one model, its own: the
/// answer given for that position is the one computed under its model.
pub proof fn lemma_query_in_own_group(models: Seq<Seq<char>>, i: int, m: Seq<char>)
    requires
        0 <= i < models.len(),
        models.len() <= usize::MAX,
    ensures
        indices_of(models, m).contains(i as usize) <==> m == models[i],
        distinct(models).contains(models[i]),
    decreases models.len(),
{
    let rest = models.drop_last();
    let last = (models.len() - 1) as usize;
    lemma_indices_bound(rest, m);
    lemma_distinct_contains(models, models[i]);
    assert(models.contains(models[i]));
    if i == models.len() - 1 {
        assert(!indices_of(rest, m).contains(last)) by {
            if indices_of(rest, m).contains(last) {
                let k = choose|k: int| 0 <= k < indices_of(rest, m).len() && indices_of(rest, m)[k] == last;
            }
        }
        if m == models[i] {
            assert(indices_of(models, m).last() == last);
        }
    } else {
        lemma_query_in_own_group(rest, i, m);
        assert(rest[i] == models[i]);
        if models.last() == m {
            let r = indices_of(rest, m);
            if r.push(last).contains(i as usize) {
                let k = choose|k: int| 0 <= k < r.len() + 1 && r.push(last)[k] == i as usize;
                assert(k < r.len());
                assert(r[k] == i as usize);
            }
            if r.contains(i as usize) {
                let k = choose|k: int| 0 <= k < r.len() && r[k] == i as usize;
                assert(r.push(last)[k] == i as usize);
            }
        }
    }
}

/// Group a batch of queries by the model each names: one group per distinct
/// model, in order of first appearance, holding the positions of the queries
/// that name it in ascending order.
pub fn group_by_model(models: &Vec<String>) -> (r: Vec<(String, Vec<usize>)>)
    ensures
        r@.len() == distinct(model_views(models@)).len(),
        forall|g: int|
            0 <= g < r@.len() ==> {
                &&& (#[trigger] r@[g]).0@ == distinct(model_views(models@))[g]
                &&& r@[g].1@ == indices_of(model_views(models@), r@[g].0@)
            },
{
    let ghost all = model_views(models@);
    let mut groups: Vec<(String, Vec<usize>)> = Vec::new();
    let mut i: usize = 0;
    while i < models.len()
        invariant
            i <= models@.len(),
            all == model_views(models@),
            groups@.len() == distinct(all.take(i as int)).len(),
            forall|g: int|
                0 <= g < groups@.len() ==> {
                    &&& (#[trigger] groups@[g]).0@ == distinct(all.take(i as int))[g]
                    &&& groups@[g].1@ == indices_of(all.take(i as int), groups@[g].0@)
                },
        decreases models.len() - i,
    {
        let ghost pre = all.take(i as int);
        let ghost next = all.take(i as int + 1);
        let ghost m = all[i as int];
        assert(next.drop_last() =~= pre);
        assert(next.last() == m);
        assert(m == models@[i as int]@);
        let mut g: usize = 0;
        let mut found = false;
        while !found && g < groups.len()
            invariant
                g <= groups@.len(),
                found ==> g < groups@.len() && groups@[g as int].0@ == m,
                forall|h: int| 0 <= h < g ==> (#[trigger] groups@[h]).0@ != m,
                m == models@[i as int]@,
                i < models@.len(),
            decreases groups.len() - g + if found { 0int } else { 1int },
        {
            if str_eq(groups[g].0.as_str(), models[i].as_str()) {
                found = true;
            } else {
                g = g + 1;
            }
        }
        proof {
            lemma_distinct_unique(pre);
        }
        if found {
            let ghost old_groups = groups@;
            assert(distinct(pre).contains(m)) by {
                assert(distinct(pre)[g as int] == m);
            }
            groups[g].1.push(i);
            assert forall|h: int| 0 <= h < groups@.len() implies {
                &&& (#[trigger] groups@[h]).0@ == distinct(next)[h]
                &&& groups@[h].1@ == indices_of(next, groups@[h].0@)
            } by {
                if h != g {
                    assert(groups@[h] == old_groups[h]);
                    assert(distinct(pre)[h] != distinct(pre)[g as int]);
                }
            }
        } else {
            assert(!distinct(pre).contains(m)) by {
                if distinct(pre).contains(m) {
                    let k = choose|k: int| 0 <= k < distinct(pre).len() && distinct(pre)[k] == m;
                    assert(groups@[k].0@ == m);
                }
            }
            proof {
                lemma_distinct_contains(pre, m);
                lemma_indices_absent(pre, m);
            }
            let ghost old_groups = groups@;
            let mut members: Vec<usize> = Vec::new();
            members.push(i);
            groups.push((models[i].clone(), members));
            assert forall|h: int| 0 <= h < groups@.len() implies {
                &&& (#[trigger] groups@[h]).0@ == distinct(next)[h]
                &&& groups@[h].1@ == indices_of(next, groups@[h].0@)
            } by {
                if h < old_groups.len() {
                    assert(groups@[h] == old_groups[h]);
                    assert(old_groups[h].0@ != m) by {
                        assert(distinct(pre)[h] == old_groups[h].0@);
                    }
                } else {
                    assert(indices_of(pre, m) == Seq::<usize>::empty());
                    assert(groups@[h].1@ =~= seq![i]);
                }
            }
        }
        i = i + 1;
    }
    assert(all.take(models@.len() as int) =~= all);
    groups
}

/// Each model's answer must hold one vector per query of its group.
pub fn check_group_answer(queries: usize, vectors: usize) -> (r: Result<(), NucleusError>)
    ensures
        queries == vectors ==> r is Ok,
        queries != vectors ==> (r matches Err(NucleusError::Embedding(m)) && m@ == "batch returned wrong vector count"@),
{
    if queries == vectors {
        Ok(())
    } else {
        Err(NucleusError::embedding_msg("batch returned wrong vector count".to_owned()))
    }
}

} // verus!
