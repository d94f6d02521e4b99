//! The record edits behind the store's update operations: how a document's
//! label and subdomain assignment is replaced, how a deleted label is detached
//! from what carried it, how a label's descriptive fields change, whether
//! several domains can be searched together, and what a reindex changes.

use vstd::prelude::*;

use crate::error::NucleusError;
use crate::id::{SubdomainId, TagId};
use crate::model::{Domain, Tag};
use crate::store::copy_tags;
use crate::text::str_eq;

verus! {

/// The assignment an update leaves on a document (and so on each of its
/// chunks): the new label list when one is given, the current one otherwise;
/// the new subdomain when the update changes it (set or cleared), the current
/// one otherwise.
pub open spec fn assignment_spec(
    tags: Seq<TagId>,
    sub: Option<SubdomainId>,
    new_tags: Option<Seq<TagId>>,
    new_sub: Option<SubdomainId>,
    change_subdomain: bool,
) -> (Seq<TagId>, Option<SubdomainId>) {
    (
        match new_tags {
            Some(t) => t,
            None => tags,
        },
        if change_subdomain { new_sub } else { sub },
    )
}

/// The label list of a `Vec` update, by its view.
pub open spec fn tags_update_view(new_tags: Option<Vec<TagId>>) -> Option<Seq<TagId>> {
    match new_tags {
        Some(t) => Some(t@),
        None => None,
    }
}

/// The labels and subdomain a document carries after an update (see
/// `assignment_spec`).
pub fn assignment(
    tags: &Vec<TagId>,
    sub: Option<SubdomainId>,
    new_tags: Option<Vec<TagId>>,
    new_sub: Option<SubdomainId>,
    change_subdomain: bool,
) -> (r: (Vec<TagId>, Option<SubdomainId>))
    ensures
        (r.0@, r.1) == assignment_spec(tags@, sub, tags_update_view(new_tags), new_sub, change_subdomain),
{
    let final_tags = match new_tags {
        Some(t) => t,
        None => copy_tags(tags),
    };
    let final_sub = if change_subdomain { new_sub } else { sub };
    (final_tags, final_sub)
}

/// An update that gives no label list and leaves the subdomain alone changes
/// nothing.
pub proof fn lemma_assignment_empty_update(tags: Seq<TagId>, sub: Option<SubdomainId>, new_sub: Option<SubdomainId>)
    ensures
        assignment_spec(tags, sub, None, new_sub, false) == (tags, sub),
{
}

/// Applying the same update twice leaves what applying it once does.
pub proof fn lemma_assignment_idempotent(
    tags: Seq<TagId>,
    sub: Option<SubdomainId>,
    new_tags: Option<Seq<TagId>>,
    new_sub: Option<SubdomainId>,
    change_subdomain: bool,
)
    ensures
        ({
            let once = assignment_spec(tags, sub, new_tags, new_sub, change_subdomain);
            assignment_spec(once.0, once.1, new_tags, new_sub, change_subdomain) == once
        }),
{
}

/// The labels other than `id`.
pub open spec fn other_than(id: TagId) -> spec_fn(TagId) -> bool {
    |t: TagId| t != id
}

/// A label list with every occurrence of `id` removed, the rest in order.
pub open spec fn detached(tags: Seq<TagId>, id: TagId) -> Seq<TagId> {
    tags.filter(other_than(id))
}

/// Detach label `id` from a label list (a chunk's or a document's), keeping
/// the other labels in order.
pub fn without_tag(tags: &Vec<TagId>, id: TagId) -> (r: Vec<TagId>)
    ensures
        r@ == detached(tags@, id),
{
    let mut out: Vec<TagId> = Vec::new();
    let mut i: usize = 0;
    assert(detached(tags@.take(0), id) =~= Seq::<TagId>::empty()) by {
        reveal(Seq::filter);
    }
    while i < tags.len()
        invariant
            i <= tags@.len(),
            out@ == detached(tags@.take(i as int), id),
        decreases tags.len() - i,
    {
        let t = tags[i];
        proof {
            let next = tags@.take(i as int + 1);
            assert(next.drop_last() =~= tags@.take(i as int));
            assert(next.last() == t);
            reveal(Seq::filter);
        }
        if t != id {
            out.push(t);
        }
        i = i + 1;
    }
    assert(tags@.take(tags@.len() as int) =~= tags@);
    out
}

/// Whether a label list carries `id`.
pub fn has_tag(tags: &Vec<TagId>, id: TagId) -> (r: bool)
    ensures
        r == tags@.contains(id),
{
    let mut i: usize = 0;
    while i < tags.len()
        invariant
            i <= tags@.len(),
            forall|j: int| 0 <= j < i ==> tags@[j] != id,
        decreases tags.len() - i,
    {
        if tags[i] == id {
            return true;
        }
        i = i + 1;
    }
    false
}

/// A detached list no longer carries the label, and keeps every other label
/// it carried.
pub proof fn lemma_detached_drops_only(tags: Seq<TagId>, id: TagId, other: TagId)
    requires
        other != id,
    ensures
        !detached(tags, id).contains(id),
        detached(tags, id).contains(other) == tags.contains(other),
{
    let d = detached(tags, id);
    if d.contains(id) {
        let k = choose|k: int| 0 <= k < d.len() && d[k] == id;
        tags.lemma_filter_pred(other_than(id), k);
    }
    if tags.contains(other) {
        let k = choose|k: int| 0 <= k < tags.len() && tags[k] == other;
        tags.lemma_filter_contains(other_than(id), k);
    }
    if d.contains(other) {
        tags.lemma_filter_contains_rev(other_than(id), other);
    }
}

/// Detaching a label twice is detaching it once.
pub proof fn lemma_detached_idempotent(tags: Seq<TagId>, id: TagId)
    ensures
        detached(detached(tags, id), id) == detached(tags, id),
    decreases tags.len(),
{
    reveal(Seq::filter);
    if tags.len() > 0 {
        lemma_detached_idempotent(tags.drop_last(), id);
        let d = detached(tags.drop_last(), id);
        if tags.last() != id {
            assert(d.push(tags.last()).drop_last() =~= d);
        }
    }
}

/// A label after an update of its descriptive fields: each given field
/// replaced, everything else (the id, the lookup name, the parent) kept.
pub fn edit_tag(tag: Tag, display_name: Option<&str>, description: Option<&str>) -> (r: Tag)
    ensures
        r.id == tag.id,
        r.domain_id == tag.domain_id,
        r.name@ == tag.name@,
        r.display_name@ == match display_name {
            Some(d) => d@,
            None => tag.display_name@,
        },
        r.description@ == match description {
            Some(d) => d@,
            None => tag.description@,
        },
        r.parent == tag.parent,
        r.created_at == tag.created_at,
{
    let mut tag = tag;
    if let Some(d) = display_name {
        tag.display_name = d.to_owned();
    }
    if let Some(d) = description {
        tag.description = d.to_owned();
    }
    tag
}

/// The message a search over domains of different models is refused with.
pub open spec fn mixed_models_msg() -> Seq<char> {
    "multi-domain search requires all domains to share the same model"@
}

/// Fold one more domain's `(model, dimension)` into the pair the domains seen
/// so far share: the first domain sets it, each further one must repeat it.
pub fn join_model(shared: Option<(String, usize)>, model: &str, dim: usize) -> (r: Result<(String, usize), NucleusError>)
    ensures
        match shared {
            None => r matches Ok(p) && p.0@ == model@ && p.1 == dim,
            Some(s) => if s.0@ == model@ && s.1 == dim {
                r matches Ok(p) && p.0@ == s.0@ && p.1 == s.1
            } else {
                r matches Err(NucleusError::InvalidRequest(m)) && m@ == mixed_models_msg()
            },
        },
{
    match shared {
        None => Ok((model.to_owned(), dim)),
        Some(s) => {
            if str_eq(s.0.as_str(), model) && s.1 == dim {
                Ok(s)
            } else {
                Err(NucleusError::InvalidRequest(
                    "multi-domain search requires all domains to share the same model".to_owned(),
                ))
            }
        },
    }
}

/// The model a reindex targets: the requested one, else the domain's own.
pub fn reindex_model(current: &str, requested: Option<&str>) -> (r: String)
    ensures
        r@ == match requested {
            Some(m) => m@,
            None => current@,
        },
{
    match requested {
        Some(m) => m.to_owned(),
        None => current.to_owned(),
    }
}

/// The dimension a reindex onto `model` produces, and whether the domain's
/// pinned model must be rewritten first. `dim` is what the embedder reports
/// for the model (`None` when it does not know it): an unknown model is
/// `ModelNotFound`; otherwise the rewrite is owed exactly when the model or
/// the dimension changes.
pub fn reindex_target(domain: &Domain, model: &str, dim: Option<usize>) -> (r: Result<(usize, bool), NucleusError>)
    ensures
        match dim {
            None => r matches Err(NucleusError::ModelNotFound(m)) && m@ == model@,
            Some(d) => r == Ok::<(usize, bool), NucleusError>((d, !(model@ == domain.model@ && d == domain.dim))),
        },
{
    match dim {
        None => Err(NucleusError::ModelNotFound(model.to_owned())),
        Some(d) => Ok((d, !(str_eq(model, domain.model.as_str()) && d == domain.dim))),
    }
}

/// The message a reindex batch is refused with when the embedder answers with
/// a different number of vectors than it was given texts.
pub open spec fn batch_mismatch_msg() -> Seq<char> {
    "reindex: embedder returned a different number of vectors than inputs"@
}

/// An embedder's batch answer must hold one vector per input text.
pub fn check_batch(inputs: usize, vectors: usize) -> (r: Result<(), NucleusError>)
    ensures
        inputs == vectors ==> r is Ok,
        inputs != vectors ==> (r matches Err(NucleusError::Embedding(m)) && m@ == batch_mismatch_msg()),
{
    if inputs == vectors {
        Ok(())
    } else {
        Err(NucleusError::embedding_msg(
            "reindex: embedder returned a different number of vectors than inputs".to_owned(),
        ))
    }
}

} // verus!
