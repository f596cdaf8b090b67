//! The four traversal orderings over a set's DAG. Every algorithm enumerates
//! the sets reachable from a root exactly once each, identified by store
//! slot; a set with no node is traversed through (its children are still
//! visited) but yields no value.

use vstd::prelude::*;

use crate::definition::str_eq;
use crate::errors::TransitiveSetError;
use crate::set::store_wf;
use crate::set::TransitiveSetGen;
use crate::set::TransitiveSetStore;
use crate::value::Value;

verus! {

/// The four orderings a consumer may request.
#[derive(Clone, Copy, Debug, PartialEq, Eq, Structural)]
pub enum TransitiveSetOrdering {
    /// Depth-first, parent before children.
    Preorder,
    /// Depth-first, children before parent.
    Postorder,
    /// Ancestors before descendants: the reverse of postorder.
    Topological,
    /// Breadth-first, in order of first discovery across levels.
    Bfs,
}

impl TransitiveSetOrdering {
    /// Parses an ordering name: `preorder`, `postorder`, `topological` or
    /// `bfs`.
    pub fn parse(ordering: &str) -> (r: Result<TransitiveSetOrdering, TransitiveSetError>)
        ensures
            match r {
                Ok(o) => (ordering@ == "preorder"@ && o == TransitiveSetOrdering::Preorder)
                    || (ordering@ == "postorder"@ && o == TransitiveSetOrdering::Postorder)
                    || (ordering@ == "topological"@ && o == TransitiveSetOrdering::Topological)
                    || (ordering@ == "bfs"@ && o == TransitiveSetOrdering::Bfs),
                Err(e) => ordering@ != "preorder"@ && ordering@ != "postorder"@ && ordering@
                    != "topological"@ && ordering@ != "bfs"@ && (e matches
                    TransitiveSetError::InvalidOrdering { got } && got@ == ordering@),
            },
    {
        if str_eq(ordering, "preorder") {
            Ok(TransitiveSetOrdering::Preorder)
        } else if str_eq(ordering, "postorder") {
            Ok(TransitiveSetOrdering::Postorder)
        } else if str_eq(ordering, "topological") {
            Ok(TransitiveSetOrdering::Topological)
        } else if str_eq(ordering, "bfs") {
            Ok(TransitiveSetOrdering::Bfs)
        } else {
            Err(TransitiveSetError::InvalidOrdering { got: ordering.to_owned() })
        }
    }
}

/// The child slots of the set at `id`.
pub open spec fn children_of(sets: Seq<TransitiveSetGen>, id: usize) -> Seq<usize> {
    sets[id as int].children@
}

/// The visited slots after a depth-first walk from `id`, starting from
/// `vis`. Slots are marked on first discovery, so preorder and postorder
/// share this evolution.
pub open spec fn dfs_vis(sets: Seq<TransitiveSetGen>, id: usize, vis: Set<usize>) -> Set<usize>
    decreases id, 1nat, 0nat,
{
    if id >= sets.len() || vis.contains(id) {
        vis
    } else {
        dfs_vis_list(sets, children_of(sets, id), vis.insert(id), id as int)
    }
}

pub open spec fn dfs_vis_list(
    sets: Seq<TransitiveSetGen>,
    cs: Seq<usize>,
    vis: Set<usize>,
    bound: int,
) -> Set<usize>
    decreases bound, 0nat, cs.len(),
{
    if cs.len() == 0 || bound < 0 {
        vis
    } else if cs[0] as int >= bound {
        dfs_vis_list(sets, cs.drop_first(), vis, bound)
    } else {
        dfs_vis_list(sets, cs.drop_first(), dfs_vis(sets, cs[0], vis), bound)
    }
}

/// The slots first visited by a depth-first preorder walk from `id`, parent
/// before children, already-visited slots skipped.
pub open spec fn pre_ids(sets: Seq<TransitiveSetGen>, id: usize, vis: Set<usize>) -> Seq<usize>
    decreases id, 1nat, 0nat,
{
    if id >= sets.len() || vis.contains(id) {
        Seq::empty()
    } else {
        seq![id] + pre_ids_list(sets, children_of(sets, id), vis.insert(id), id as int)
    }
}

pub open spec fn pre_ids_list(
    sets: Seq<TransitiveSetGen>,
    cs: Seq<usize>,
    vis: Set<usize>,
    bound: int,
) -> Seq<usize>
    decreases bound, 0nat, cs.len(),
{
    if cs.len() == 0 || bound < 0 {
        Seq::empty()
    } else if cs[0] as int >= bound {
        pre_ids_list(sets, cs.drop_first(), vis, bound)
    } else {
        pre_ids(sets, cs[0], vis) + pre_ids_list(
            sets,
            cs.drop_first(),
            dfs_vis(sets, cs[0], vis),
            bound,
        )
    }
}

/// The slots first visited by a depth-first postorder walk from `id`,
/// children fully visited before the parent, already-visited slots skipped.
pub open spec fn post_ids(sets: Seq<TransitiveSetGen>, id: usize, vis: Set<usize>) -> Seq<usize>
    decreases id, 1nat, 0nat,
{
    if id >= sets.len() || vis.contains(id) {
        Seq::empty()
    } else {
        post_ids_list(sets, children_of(sets, id), vis.insert(id), id as int) + seq![id]
    }
}

pub open spec fn post_ids_list(
    sets: Seq<TransitiveSetGen>,
    cs: Seq<usize>,
    vis: Set<usize>,
    bound: int,
) -> Seq<usize>
    decreases bound, 0nat, cs.len(),
{
    if cs.len() == 0 || bound < 0 {
        Seq::empty()
    } else if cs[0] as int >= bound {
        post_ids_list(sets, cs.drop_first(), vis, bound)
    } else {
        post_ids(sets, cs[0], vis) + post_ids_list(
            sets,
            cs.drop_first(),
            dfs_vis(sets, cs[0], vis),
            bound,
        )
    }
}

/// A structural size of the subgraph under `id`, counting shared nodes once
/// per occurrence: the measure that bounds a breadth-first walk.
pub open spec fn bfs_size(sets: Seq<TransitiveSetGen>, id: usize) -> nat
    decreases id, 1nat, 0nat,
{
    if id >= sets.len() {
        1
    } else {
        1 + bfs_size_list(sets, children_of(sets, id), id as int)
    }
}

pub open spec fn bfs_size_list(sets: Seq<TransitiveSetGen>, cs: Seq<usize>, bound: int) -> nat
    decreases bound, 0nat, cs.len(),
{
    if cs.len() == 0 || bound < 0 {
        0
    } else {
        (if (cs[0] as int) < bound {
            bfs_size(sets, cs[0])
        } else {
            1nat
        }) + bfs_size_list(sets, cs.drop_first(), bound)
    }
}

/// The size of a list does not depend on the bound, as long as every element
/// lies below both bounds.
pub proof fn lemma_bfs_size_bound(sets: Seq<TransitiveSetGen>, cs: Seq<usize>, b1: int, b2: int)
    requires
        forall|k: int| 0 <= k < cs.len() ==> (#[trigger] cs[k] as int) < b1 && (cs[k] as int) < b2,
    ensures
        bfs_size_list(sets, cs, b1) == bfs_size_list(sets, cs, b2),
    decreases cs.len(),
{
    if cs.len() > 0 && b1 >= 0 && b2 >= 0 {
        lemma_bfs_size_bound(sets, cs.drop_first(), b1, b2);
    }
}

/// List sizes add over concatenation.
pub proof fn lemma_bfs_size_append(sets: Seq<TransitiveSetGen>, a: Seq<usize>, b: Seq<usize>, bound: int)
    ensures
        bfs_size_list(sets, a + b, bound) == bfs_size_list(sets, a, bound) + bfs_size_list(
            sets, b, bound),
    decreases a.len(),
{
    if bound < 0 {
        if (a + b).len() != 0 {
            assert(bfs_size_list(sets, a + b, bound) == 0);
        }
    } else if a.len() == 0 {
        assert(a + b =~= b);
    } else {
        assert((a + b).drop_first() =~= a.drop_first() + b);
        assert((a + b)[0] == a[0]);
        lemma_bfs_size_append(sets, a.drop_first(), b, bound);
    }
}

/// The slots first visited by a breadth-first walk draining `q`, in order of
/// first discovery across levels.
pub open spec fn bfs_ids(sets: Seq<TransitiveSetGen>, q: Seq<usize>, vis: Set<usize>) -> Seq<usize>
    decreases bfs_size_list(sets, q, sets.len() as int),
    when store_wf(sets) && forall|k: int| 0 <= k < q.len() ==> (#[trigger] q[k]) < sets.len()
    via bfs_ids_dec
{
    if q.len() == 0 {
        Seq::empty()
    } else {
        let h = q[0];
        if h >= sets.len() || vis.contains(h) {
            bfs_ids(sets, q.drop_first(), vis)
        } else {
            seq![h] + bfs_ids(sets, q.drop_first() + children_of(sets, h), vis.insert(h))
        }
    }
}

#[via_fn]
proof fn bfs_ids_dec(sets: Seq<TransitiveSetGen>, q: Seq<usize>, vis: Set<usize>) {
    let bound = sets.len() as int;
    if q.len() > 0 {
        let h = q[0];
        assert(bfs_size_list(sets, q, bound) == bfs_size(sets, h) + bfs_size_list(
            sets, q.drop_first(), bound));
        if h >= sets.len() || vis.contains(h) {
        } else {
            let cs = children_of(sets, h);
            assert(store_wf(sets));
            assert(crate::set::set_valid_in(sets[h as int], sets, h as int));
            assert(forall|k: int| 0 <= k < cs.len() ==> (#[trigger] cs[k] as int) < h as int
                && (cs[k] as int) < bound);
            lemma_bfs_size_append(sets, q.drop_first(), cs, bound);
            lemma_bfs_size_bound(sets, cs, h as int, bound);
            assert(bfs_size(sets, h) == 1 + bfs_size_list(sets, cs, h as int));
        }
    }
}

/// The slots a traversal of the DAG rooted at `root` visits, in the order the
/// requested ordering yields them: each reachable slot exactly once.
pub open spec fn traversal_ids(
    sets: Seq<TransitiveSetGen>,
    root: usize,
    ordering: TransitiveSetOrdering,
) -> Seq<usize> {
    match ordering {
        TransitiveSetOrdering::Preorder => pre_ids(sets, root, Set::empty()),
        TransitiveSetOrdering::Postorder => post_ids(sets, root, Set::empty()),
        TransitiveSetOrdering::Topological => post_ids(sets, root, Set::empty()).reverse(),
        TransitiveSetOrdering::Bfs => bfs_ids(sets, seq![root], Set::empty()),
    }
}

/// The set of slots marked in a visited array.
pub open spec fn marks(v: Seq<bool>) -> Set<usize> {
    Set::new(|i: usize| i < v.len() && v[i as int])
}

proof fn lemma_marks_insert(v: Seq<bool>, id: usize)
    requires
        id < v.len(),
    ensures
        marks(v.update(id as int, true)) == marks(v).insert(id),
{
    assert(marks(v.update(id as int, true)) =~= marks(v).insert(id));
}

/// One step of the executable preorder walk: visits `id` (unless already
/// visited), then its children, appending first-visited slots to `out`.
#[verifier::loop_isolation(false)]
fn pre_walk(store: &TransitiveSetStore, id: usize, visited: &mut Vec<bool>, out: &mut Vec<usize>)
    requires
        store_wf(store@),
        id < store@.len(),
        old(visited)@.len() == store@.len(),
    ensures
        final(visited)@.len() == store@.len(),
        final(out)@ == old(out)@ + pre_ids(store@, id, marks(old(visited)@)),
        marks(final(visited)@) == dfs_vis(store@, id, marks(old(visited)@)),
    decreases id, 1nat, 0nat,
{
    let ghost vis0 = marks(old(visited)@);
    if visited[id] {
        assert(final(out)@ =~= old(out)@ + pre_ids(store@, id, vis0));
        return;
    }
    visited.set(id, true);
    proof {
        lemma_marks_insert(old(visited)@, id);
    }
    out.push(id);
    let ghost vis1 = vis0.insert(id);
    let ghost out1 = out@;
    let s = store.get(id);
    let ghost cs = s.children@;
    proof {
        assert(crate::set::set_valid_in(store@[id as int], store@, id as int));
        assert(cs.skip(0) =~= cs);
    }
    let mut k: usize = 0;
    while k < s.children.len()
        invariant
            k <= cs.len(),
            visited@.len() == store@.len(),
            out@ + pre_ids_list(store@, cs.skip(k as int), marks(visited@), id as int) == out1
                + pre_ids_list(store@, cs, vis1, id as int),
            dfs_vis_list(store@, cs.skip(k as int), marks(visited@), id as int) == dfs_vis_list(
                store@, cs, vis1, id as int),
        decreases cs.len() - k,
    {
        let c = s.children[k];
        assert((c as int) < id as int);
        proof {
            assert(cs.skip(k as int).drop_first() =~= cs.skip(k + 1 as int));
            assert(cs.skip(k as int)[0] == cs[k as int]);
        }
        pre_walk(store, c, visited, out);
        k = k + 1;
    }
    proof {
        assert(cs.skip(cs.len() as int) =~= Seq::<usize>::empty());
        assert(out@ =~= old(out)@ + pre_ids(store@, id, vis0));
    }
}

/// One step of the executable postorder walk: visits the children of `id`,
/// then `id` itself (unless already visited).
#[verifier::loop_isolation(false)]
fn post_walk(store: &TransitiveSetStore, id: usize, visited: &mut Vec<bool>, out: &mut Vec<usize>)
    requires
        store_wf(store@),
        id < store@.len(),
        old(visited)@.len() == store@.len(),
    ensures
        final(visited)@.len() == store@.len(),
        final(out)@ == old(out)@ + post_ids(store@, id, marks(old(visited)@)),
        marks(final(visited)@) == dfs_vis(store@, id, marks(old(visited)@)),
    decreases id, 1nat, 0nat,
{
    let ghost vis0 = marks(old(visited)@);
    if visited[id] {
        assert(final(out)@ =~= old(out)@ + post_ids(store@, id, vis0));
        return;
    }
    visited.set(id, true);
    proof {
        lemma_marks_insert(old(visited)@, id);
    }
    let ghost vis1 = vis0.insert(id);
    let ghost out1 = out@;
    let s = store.get(id);
    let ghost cs = s.children@;
    proof {
        assert(crate::set::set_valid_in(store@[id as int], store@, id as int));
        assert(cs.skip(0) =~= cs);
    }
    let mut k: usize = 0;
    while k < s.children.len()
        invariant
            k <= cs.len(),
            visited@.len() == store@.len(),
            out@ + post_ids_list(store@, cs.skip(k as int), marks(visited@), id as int) == out1
                + post_ids_list(store@, cs, vis1, id as int),
            dfs_vis_list(store@, cs.skip(k as int), marks(visited@), id as int) == dfs_vis_list(
                store@, cs, vis1, id as int),
        decreases cs.len() - k,
    {
        let c = s.children[k];
        assert((c as int) < id as int);
        proof {
            assert(cs.skip(k as int).drop_first() =~= cs.skip(k + 1 as int));
            assert(cs.skip(k as int)[0] == cs[k as int]);
        }
        post_walk(store, c, visited, out);
        k = k + 1;
    }
    out.push(id);
    proof {
        assert(cs.skip(cs.len() as int) =~= Seq::<usize>::empty());
        assert(out@ =~= old(out)@ + post_ids(store@, id, vis0));
    }
}

/// A fresh all-false visited array for `store`.
fn fresh_marks(n: usize) -> (r: Vec<bool>)
    ensures
        r@.len() == n,
        marks(r@) == Set::<usize>::empty(),
{
    let mut v: Vec<bool> = Vec::new();
    let mut i: usize = 0;
    while i < n
        invariant
            i <= n,
            v@.len() == i,
            forall|j: int| 0 <= j < i ==> !(#[trigger] v@[j]),
        decreases n - i,
    {
        v.push(false);
        i = i + 1;
    }
    proof {
        assert(marks(v@) =~= Set::<usize>::empty());
    }
    v
}

/// The breadth-first walk: drains a growing queue, skipping already-visited
/// slots, appending first discoveries in level order.
#[verifier::loop_isolation(false)]
fn bfs_walk(store: &TransitiveSetStore, root: usize) -> (out: Vec<usize>)
    requires
        store_wf(store@),
        root < store@.len(),
    ensures
        out@ == bfs_ids(store@, seq![root], Set::<usize>::empty()),
{
    let mut visited = fresh_marks(store.len());
    let mut out: Vec<usize> = Vec::new();
    let mut queue: Vec<usize> = Vec::new();
    queue.push(root);
    let ghost target = bfs_ids(store@, seq![root], Set::<usize>::empty());
    proof {
        assert(queue@ =~= seq![root]);
        assert(queue@.skip(0) =~= seq![root]);
    }
    let mut qi: usize = 0;
    while qi < queue.len()
        invariant
            qi <= queue@.len(),
            visited@.len() == store@.len(),
            forall|j: int| 0 <= j < queue@.len() ==> (#[trigger] queue@[j]) < store@.len(),
            out@ + bfs_ids(store@, queue@.skip(qi as int), marks(visited@)) == target,
        decreases bfs_size_list(store@, queue@.skip(qi as int), store@.len() as int),
    {
        let h = queue[qi];
        let ghost qrest = queue@.skip(qi as int);
        proof {
            assert(qrest[0] == h);
            assert(qrest.drop_first() =~= queue@.skip(qi + 1 as int));
            assert(bfs_size_list(store@, qrest, store@.len() as int) == bfs_size(store@, h)
                + bfs_size_list(store@, qrest.drop_first(), store@.len() as int));
        }
        if visited[h] {
            qi = qi + 1;
        } else {
            let ghost vm = visited@;
            visited.set(h, true);
            proof {
                lemma_marks_insert(vm, h);
            }
            out.push(h);
            let s = store.get(h);
            let ghost cs = s.children@;
            proof {
                assert(crate::set::set_valid_in(store@[h as int], store@, h as int));
            }
            let ghost q1 = queue@;
            let mut k: usize = 0;
            while k < s.children.len()
                invariant
                    k <= cs.len(),
                    queue@ =~= q1 + cs.subrange(0, k as int),
                decreases cs.len() - k,
            {
                queue.push(s.children[k]);
                proof {
                    assert(cs.subrange(0, k + 1 as int) =~= cs.subrange(0, k as int).push(
                        cs[k as int]));
                }
                k = k + 1;
            }
            proof {
                assert(cs.subrange(0, cs.len() as int) =~= cs);
                assert(queue@.skip(qi + 1 as int) =~= qrest.drop_first() + cs);
                lemma_bfs_size_append(store@, qrest.drop_first(), cs, store@.len() as int);
                lemma_bfs_size_bound(store@, cs, h as int, store@.len() as int);
                assert(bfs_size(store@, h) == 1 + bfs_size_list(store@, cs, h as int));
            }
            qi = qi + 1;
        }
    }
    proof {
        assert(queue@.skip(queue@.len() as int) =~= Seq::<usize>::empty());
        assert(out@ =~= target);
    }
    out
}

/// Among the first `k` slots of `ids`, those that carry a node, in order:
/// the slots a traversal yields values for.
pub open spec fn yielded_upto(sets: Seq<TransitiveSetGen>, ids: Seq<usize>, k: int) -> Seq<usize>
    decreases k,
{
    if k <= 0 || k > ids.len() {
        Seq::empty()
    } else {
        yielded_upto(sets, ids, k - 1) + (if ids[k - 1] < sets.len() && sets[ids[k
            - 1] as int].node is Some {
            seq![ids[k - 1]]
        } else {
            Seq::empty()
        })
    }
}

/// The slots of `ids` that carry a node, in order.
pub open spec fn yielded_ids(sets: Seq<TransitiveSetGen>, ids: Seq<usize>) -> Seq<usize> {
    yielded_upto(sets, ids, ids.len() as int)
}

/// The node value at `id` (meaningful only for slots that carry a node).
pub open spec fn node_value_of(sets: Seq<TransitiveSetGen>, id: usize) -> Value {
    match sets[id as int].node {
        Some(n) => n.value,
        None => Value::Nil,
    }
}

/// The `p`-th projection value at `id` (meaningful only for slots that carry
/// a node with at least `p + 1` projections).
pub open spec fn node_projection_of(sets: Seq<TransitiveSetGen>, id: usize, p: int) -> Value {
    match sets[id as int].node {
        Some(n) => n.projections@[p],
        None => Value::Nil,
    }
}

impl TransitiveSetStore {
    /// The slots of the DAG rooted at `id`, in the requested order: every
    /// reachable set exactly once, whether or not it carries a node. A fresh
    /// call walks afresh: traversals are restartable.
    pub fn iter(&self, id: usize, ordering: TransitiveSetOrdering) -> (r: Vec<usize>)
        requires
            store_wf(self@),
            id < self@.len(),
        ensures
            r@ == traversal_ids(self@, id, ordering),
    {
        match ordering {
            TransitiveSetOrdering::Preorder => {
                let mut visited = fresh_marks(self.len());
                let mut out: Vec<usize> = Vec::new();
                pre_walk(self, id, &mut visited, &mut out);
                proof {
                    assert(out@ =~= traversal_ids(self@, id, ordering));
                }
                out
            },
            TransitiveSetOrdering::Postorder => {
                let mut visited = fresh_marks(self.len());
                let mut out: Vec<usize> = Vec::new();
                post_walk(self, id, &mut visited, &mut out);
                proof {
                    assert(out@ =~= traversal_ids(self@, id, ordering));
                }
                out
            },
            TransitiveSetOrdering::Topological => {
                let mut visited = fresh_marks(self.len());
                let mut post: Vec<usize> = Vec::new();
                post_walk(self, id, &mut visited, &mut post);
                let mut out: Vec<usize> = Vec::new();
                let mut j: usize = post.len();
                while j > 0
                    invariant
                        j <= post@.len(),
                        out@.len() == post@.len() - j,
                        forall|m: int| 0 <= m < out@.len() ==> #[trigger] out@[m] == post@[
                            post@.len() - 1 - m],
                    decreases j,
                {
                    j = j - 1;
                    out.push(post[j]);
                }
                proof {
                    assert(out@ =~= post@.reverse());
                }
                out
            },
            TransitiveSetOrdering::Bfs => {
                let out = bfs_walk(self, id);
                out
            },
        }
    }

    /// The node values of the DAG rooted at `id`, in the requested order:
    /// one value per reachable set that carries a node. Sets without a node
    /// are traversed through but yield nothing.
    pub fn iter_values(&self, id: usize, ordering: TransitiveSetOrdering) -> (r: Vec<&Value>)
        requires
            store_wf(self@),
            id < self@.len(),
        ensures
            ({
                let yielded = yielded_ids(self@, traversal_ids(self@, id, ordering));
                r@.len() == yielded.len() && forall|k: int| 0 <= k < yielded.len()
                    ==> *(#[trigger] r@[k]) == node_value_of(self@, yielded[k])
            }),
    {
        let ids = self.iter(id, ordering);
        let mut out: Vec<&Value> = Vec::new();
        let mut j: usize = 0;
        while j < ids.len()
            invariant
                store_wf(self@),
                j <= ids@.len(),
                ids@ == traversal_ids(self@, id, ordering),
                ({
                    let part = yielded_upto(self@, ids@, j as int);
                    out@.len() == part.len() && forall|k: int| 0 <= k < part.len()
                        ==> *(#[trigger] out@[k]) == node_value_of(self@, part[k])
                }),
            decreases ids@.len() - j,
        {
            let slot = ids[j];
            if slot < self.len() {
                let s = self.get(slot);
                match &s.node {
                    Some(n) => {
                        out.push(&n.value);
                    },
                    None => {},
                }
            }
            j = j + 1;
        }
        out
    }

    /// The values of projection `projection` at each node of the DAG rooted
    /// at `id`, in the requested order. Fails if a yielded node does not
    /// declare the projection; with a schema-consistent store only the first
    /// yielded node can fail this validation, since construction has already
    /// checked every child against the same schema.
    pub fn iter_projection_values(
        &self,
        id: usize,
        ordering: TransitiveSetOrdering,
        projection: usize,
    ) -> (r: Result<Vec<&Value>, TransitiveSetError>)
        requires
            store_wf(self@),
            id < self@.len(),
        ensures
            ({
                let yielded = yielded_ids(self@, traversal_ids(self@, id, ordering));
                match r {
                    Ok(vs) => vs@.len() == yielded.len() && (forall|k: int|
                        0 <= k < yielded.len() ==> (self@[(#[trigger] yielded[k]) as int].node
                            matches Some(n) && projection < n.projections@.len())) && (forall|
                        k: int| 0 <= k < yielded.len() ==> *(#[trigger] vs@[k])
                        == node_projection_of(self@, yielded[k], projection as int)),
                    Err(e) => (exists|k: int| 0 <= k < yielded.len()
                        && (self@[#[trigger] yielded[k] as int].node matches Some(n)
                            && n.projections@.len() <= projection)) && (e matches
                        TransitiveSetError::InvalidProjectionId { index } && index == projection),
                }
            }),
    {
        let ids = self.iter(id, ordering);
        let mut out: Vec<&Value> = Vec::new();
        let mut j: usize = 0;
        while j < ids.len()
            invariant
                store_wf(self@),
                j <= ids@.len(),
                ids@ == traversal_ids(self@, id, ordering),
                ({
                    let part = yielded_upto(self@, ids@, j as int);
                    out@.len() == part.len() && forall|k: int| 0 <= k < part.len()
                        ==> *(#[trigger] out@[k]) == node_projection_of(
                            self@, part[k], projection as int)
                }),
                forall|k: int| 0 <= k < yielded_upto(self@, ids@, j as int).len()
                    ==> (self@[(#[trigger] yielded_upto(self@, ids@, j as int)[k]) as int].node
                        matches Some(n) && projection < n.projections@.len()),
            decreases ids@.len() - j,
        {
            let slot = ids[j];
            if slot < self.len() {
                let s = self.get(slot);
                match &s.node {
                    Some(n) => {
                        if projection < n.projections.len() {
                            out.push(&n.projections[projection]);
                        } else {
                            proof {
                                assert(yielded_upto(self@, ids@, j + 1 as int) == yielded_upto(
                                    self@, ids@, j as int) + seq![slot]);
                                lemma_yielded_upto_extends(
                                    self@, ids@, j + 1 as int, ids@.len() as int);
                                let yf = yielded_ids(self@, ids@);
                                let part1 = yielded_upto(self@, ids@, j + 1 as int);
                                assert(part1[part1.len() - 1] == slot);
                                assert(yf[part1.len() - 1] == slot);
                            }
                            return Err(TransitiveSetError::InvalidProjectionId {
                                index: projection,
                            });
                        }
                    },
                    None => {},
                }
            }
            j = j + 1;
        }
        Ok(out)
    }
}

/// A prefix of the yielded slots is a prefix of the whole: element `k` of
/// `yielded_upto(.., j)` is element `k` of `yielded_upto(.., j2)` for `j2`
/// beyond `j`.
pub proof fn lemma_yielded_upto_extends(
    sets: Seq<TransitiveSetGen>,
    ids: Seq<usize>,
    j: int,
    j2: int,
)
    requires
        0 <= j <= j2 <= ids.len(),
    ensures
        yielded_upto(sets, ids, j).len() <= yielded_upto(sets, ids, j2).len(),
        forall|k: int| 0 <= k < yielded_upto(sets, ids, j).len()
            ==> #[trigger] yielded_upto(sets, ids, j2)[k] == yielded_upto(sets, ids, j)[k],
    decreases j2 - j,
{
    if j < j2 {
        lemma_yielded_upto_extends(sets, ids, j, j2 - 1);
    }
}

/// Whether `b` is `a` itself or a (possibly indirect) child of `a`.
pub open spec fn reaches(sets: Seq<TransitiveSetGen>, a: usize, b: usize) -> bool
    decreases a, 1nat, 0nat,
{
    a < sets.len() && (a == b || reaches_list(sets, children_of(sets, a), b, a as int))
}

pub open spec fn reaches_list(sets: Seq<TransitiveSetGen>, cs: Seq<usize>, b: usize, bound: int) -> bool
    decreases bound, 0nat, cs.len(),
{
    if cs.len() == 0 || bound < 0 {
        false
    } else {
        ((cs[0] as int) < bound && reaches(sets, cs[0], b)) || reaches_list(
            sets, cs.drop_first(), b, bound)
    }
}

/// Reachability through a child list is reachability from one of its
/// members.
pub proof fn lemma_reaches_list_iff(sets: Seq<TransitiveSetGen>, cs: Seq<usize>, b: usize, bound: int)
    requires
        bound >= 0,
    ensures
        reaches_list(sets, cs, b, bound) <==> exists|k: int| 0 <= k < cs.len()
            && (cs[k] as int) < bound && reaches(sets, #[trigger] cs[k], b),
    decreases cs.len(),
{
    if cs.len() > 0 {
        lemma_reaches_list_iff(sets, cs.drop_first(), b, bound);
        if reaches_list(sets, cs, b, bound) {
            if (cs[0] as int) < bound && reaches(sets, cs[0], b) {
                assert(0 <= 0 < cs.len() && (cs[0] as int) < bound && reaches(sets, cs[0], b));
            } else {
                let k = choose|k: int| 0 <= k < cs.drop_first().len() && (cs.drop_first()[k] as int)
                    < bound && reaches(sets, #[trigger] cs.drop_first()[k], b);
                assert(cs[k + 1] == cs.drop_first()[k]);
            }
        }
        if exists|k: int| 0 <= k < cs.len() && (cs[k] as int) < bound && reaches(
            sets, #[trigger] cs[k], b) {
            let k = choose|k: int| 0 <= k < cs.len() && (cs[k] as int) < bound && reaches(
                sets, #[trigger] cs[k], b);
            if k > 0 {
                assert(cs.drop_first()[k - 1] == cs[k]);
            }
        }
    }
}

/// In a well-formed store, reachability only descends: a reachable slot is
/// never above its ancestor.
pub proof fn lemma_reaches_bound(sets: Seq<TransitiveSetGen>, a: usize, b: usize)
    requires
        store_wf(sets),
        reaches(sets, a, b),
    ensures
        b <= a,
        b < sets.len(),
    decreases a,
{
    if a != b {
        assert(crate::set::set_valid_in(sets[a as int], sets, a as int));
        lemma_reaches_list_iff(sets, children_of(sets, a), b, a as int);
        let k = choose|k: int| 0 <= k < children_of(sets, a).len() && (children_of(
            sets, a)[k] as int) < a as int && reaches(sets, #[trigger] children_of(sets, a)[k], b);
        lemma_reaches_bound(sets, children_of(sets, a)[k], b);
    }
}

/// Whether every slot reachable from `v` is in `vis`: `v` is finished.
pub open spec fn desc_closed(sets: Seq<TransitiveSetGen>, v: usize, vis: Set<usize>) -> bool {
    forall|y: usize| #[trigger] reaches(sets, v, y) ==> vis.contains(y)
}

/// Every visited slot at or below `b` is finished. During a depth-first walk
/// the unfinished (gray) slots are exactly the ancestors on the current
/// path, and in a well-formed store those all sit above the slots still to
/// be walked.
pub open spec fn good_le(sets: Seq<TransitiveSetGen>, vis: Set<usize>, b: int) -> bool {
    forall|v: usize| #[trigger] vis.contains(v) && v as int <= b ==> desc_closed(sets, v, vis)
}

/// Every visited slot strictly below `b` is finished.
pub open spec fn good_lt(sets: Seq<TransitiveSetGen>, vis: Set<usize>, b: int) -> bool {
    forall|v: usize| #[trigger] vis.contains(v) && (v as int) < b ==> desc_closed(sets, v, vis)
}

/// The bundle of facts a depth-first postorder walk from `id` guarantees:
/// its output extends the visited set exactly, repeats nothing, stays at or
/// below `id`, finishes everything it emits, and emits every slot only after
/// every reachable descendant of that slot (the finish-time property).
pub proof fn lemma_post_node(sets: Seq<TransitiveSetGen>, id: usize, vis: Set<usize>)
    requires
        store_wf(sets),
        id < sets.len(),
        good_le(sets, vis, id as int),
    ensures
        ({
            let l = post_ids(sets, id, vis);
            let v2 = dfs_vis(sets, id, vis);
            &&& (forall|y: usize| v2.contains(y) <==> vis.contains(y) || l.contains(y))
            &&& (forall|i: int| 0 <= i < l.len() ==> !vis.contains(#[trigger] l[i]) && l[i] <= id
                && l[i] < sets.len())
            &&& (forall|i: int, j: int| 0 <= i < j < l.len() ==> l[i] != l[j])
            &&& (forall|i: int| 0 <= i < l.len() ==> desc_closed(sets, #[trigger] l[i], v2))
            &&& desc_closed(sets, id, v2)
            &&& good_le(sets, v2, id as int)
            &&& (forall|i: int, y: usize| 0 <= i < l.len() && #[trigger] reaches(sets, l[i], y)
                && y != l[i] ==> vis.contains(y) || (exists|j: int| 0 <= j < i && l[j] == y))
        }),
    decreases id, 1nat, 0nat,
{
    let l = post_ids(sets, id, vis);
    let v2 = dfs_vis(sets, id, vis);
    if vis.contains(id) {
        assert(l =~= Seq::<usize>::empty());
        assert(desc_closed(sets, id, v2));
    } else {
        let cs = children_of(sets, id);
        let vis1 = vis.insert(id);
        assert(crate::set::set_valid_in(sets[id as int], sets, id as int));
        lemma_post_list(sets, cs, vis1, id as int);
        let ll = post_ids_list(sets, cs, vis1, id as int);
        let vl = dfs_vis_list(sets, cs, vis1, id as int);
        assert(l == ll + seq![id]);
        assert(v2 == vl);
        // membership
        assert forall|y: usize| v2.contains(y) <==> vis.contains(y) || l.contains(y) by {
            if v2.contains(y) {
                if vis1.contains(y) {
                    if y == id {
                        assert(l[l.len() - 1] == id);
                        assert(l.contains(y));
                    }
                } else {
                    assert(ll.contains(y));
                    let i = choose|i: int| 0 <= i < ll.len() && ll[i] == y;
                    assert(l[i] == y);
                    assert(l.contains(y));
                }
            }
            if l.contains(y) {
                let i = choose|i: int| 0 <= i < l.len() && l[i] == y;
                if i < ll.len() {
                    assert(ll.contains(y));
                    assert(vl.contains(y));
                } else {
                    assert(y == id);
                    assert(vl.contains(y));
                }
            }
            if vis.contains(y) {
                assert(vis1.contains(y));
                assert(vl.contains(y));
            }
        }
        // elements not previously visited, bounded
        assert forall|i: int| 0 <= i < l.len() implies !vis.contains(#[trigger] l[i]) && l[i] <= id
            && l[i] < sets.len() by {
            if i < ll.len() {
                assert(!vis1.contains(ll[i]));
            }
        }
        // no duplicates
        assert forall|i: int, j: int| 0 <= i < j < l.len() implies l[i] != l[j] by {
            if j == l.len() - 1 {
                assert(l[j] == id);
                assert(!vis1.contains(ll[i]));
            }
        }
        // descendants of id are all visited afterwards
        assert(desc_closed(sets, id, v2)) by {
            assert forall|y: usize| #[trigger] reaches(sets, id, y) implies v2.contains(y) by {
                if y == id {
                    assert(vis1.contains(id));
                    assert(vl.contains(id));
                } else {
                    lemma_reaches_list_iff(sets, cs, y, id as int);
                    let k = choose|k: int| 0 <= k < cs.len() && (cs[k] as int) < id as int
                        && reaches(sets, #[trigger] cs[k], y);
                    assert(desc_closed(sets, cs[k], vl));
                }
            }
        }
        // everything emitted is finished
        assert forall|i: int| 0 <= i < l.len() implies desc_closed(sets, #[trigger] l[i], v2) by {
            if i < ll.len() {
                assert(desc_closed(sets, ll[i], vl));
            }
        }
        // goodness is preserved at this level
        assert forall|v: usize| #[trigger] v2.contains(v) && v as int <= id as int implies
            desc_closed(sets, v, v2) by {
            if vis.contains(v) {
                assert(desc_closed(sets, v, vis));
                assert forall|y: usize| #[trigger] reaches(sets, v, y) implies v2.contains(y) by {
                    assert(vis.contains(y));
                }
            } else {
                assert(l.contains(v));
                let i = choose|i: int| 0 <= i < l.len() && l[i] == v;
                assert(desc_closed(sets, l[i], v2));
            }
        }
        // the finish-time order
        assert forall|i: int, y: usize| 0 <= i < l.len() && #[trigger] reaches(sets, l[i], y)
            && y != l[i] implies vis.contains(y) || (exists|j: int| 0 <= j < i && l[j] == y) by {
            if i < ll.len() {
                if !vis.contains(y) {
                    assert(vis1.contains(y) || (exists|j: int| 0 <= j < i && ll[j] == y));
                    if vis1.contains(y) {
                        lemma_reaches_bound(sets, l[i], y);
                        assert(y != id);
                        assert(false);
                    } else {
                        let j = choose|j: int| 0 <= j < i && ll[j] == y;
                        assert(l[j] == y);
                    }
                }
            } else {
                // l[i] == id: every proper descendant was emitted earlier or
                // was already visited
                assert(l[i] == id);
                assert(v2.contains(y)) by {
                    assert(desc_closed(sets, id, v2));
                }
                if !vis.contains(y) {
                    assert(l.contains(y));
                    let j = choose|j: int| 0 <= j < l.len() && l[j] == y;
                    assert(j != i);
                    assert(j < i);
                }
            }
        }
    }
}

/// The list form of [`lemma_post_node`], walking a child list whose members
/// all sit below `bound`.
pub proof fn lemma_post_list(sets: Seq<TransitiveSetGen>, cs: Seq<usize>, vis: Set<usize>, bound: int)
    requires
        store_wf(sets),
        0 <= bound <= sets.len(),
        forall|k: int| 0 <= k < cs.len() ==> (#[trigger] cs[k] as int) < bound,
        good_lt(sets, vis, bound),
    ensures
        ({
            let l = post_ids_list(sets, cs, vis, bound);
            let v2 = dfs_vis_list(sets, cs, vis, bound);
            &&& (forall|y: usize| v2.contains(y) <==> vis.contains(y) || l.contains(y))
            &&& (forall|i: int| 0 <= i < l.len() ==> !vis.contains(#[trigger] l[i])
                && (l[i] as int) < bound && l[i] < sets.len())
            &&& (forall|i: int, j: int| 0 <= i < j < l.len() ==> l[i] != l[j])
            &&& (forall|i: int| 0 <= i < l.len() ==> desc_closed(sets, #[trigger] l[i], v2))
            &&& (forall|k: int| 0 <= k < cs.len() ==> desc_closed(sets, #[trigger] cs[k], v2))
            &&& good_lt(sets, v2, bound)
            &&& (forall|i: int, y: usize| 0 <= i < l.len() && #[trigger] reaches(sets, l[i], y)
                && y != l[i] ==> vis.contains(y) || (exists|j: int| 0 <= j < i && l[j] == y))
        }),
    decreases bound, 0nat, cs.len(),
{
    let l = post_ids_list(sets, cs, vis, bound);
    let v2 = dfs_vis_list(sets, cs, vis, bound);
    if cs.len() == 0 {
        assert(l =~= Seq::<usize>::empty());
    } else {
        let c = cs[0];
        assert((c as int) < bound);
        assert(good_le(sets, vis, c as int));
        lemma_post_node(sets, c, vis);
        let lc = post_ids(sets, c, vis);
        let vc = dfs_vis(sets, c, vis);
        assert(good_lt(sets, vc, bound)) by {
            assert forall|v: usize| #[trigger] vc.contains(v) && (v as int) < bound implies
                desc_closed(sets, v, vc) by {
                if vis.contains(v) {
                    assert(desc_closed(sets, v, vis));
                    assert forall|y: usize| #[trigger] reaches(sets, v, y) implies vc.contains(y)
                        by {
                        assert(vis.contains(y));
                    }
                } else {
                    assert(lc.contains(v));
                    let i = choose|i: int| 0 <= i < lc.len() && lc[i] == v;
                    assert(desc_closed(sets, lc[i], vc));
                }
            }
        }
        assert(forall|k: int| 0 <= k < cs.drop_first().len() ==> (#[trigger] cs.drop_first()[
            k] as int) < bound);
        lemma_post_list(sets, cs.drop_first(), vc, bound);
        let lr = post_ids_list(sets, cs.drop_first(), vc, bound);
        let vr = dfs_vis_list(sets, cs.drop_first(), vc, bound);
        assert(l == lc + lr);
        assert(v2 == vr);
        // membership
        assert forall|y: usize| v2.contains(y) <==> vis.contains(y) || l.contains(y) by {
            if v2.contains(y) && !vis.contains(y) {
                if vc.contains(y) {
                    assert(lc.contains(y));
                    let i = choose|i: int| 0 <= i < lc.len() && lc[i] == y;
                    assert(l[i] == y);
                } else {
                    assert(lr.contains(y));
                    let i = choose|i: int| 0 <= i < lr.len() && lr[i] == y;
                    assert(l[lc.len() + i] == y);
                }
                assert(l.contains(y));
            }
            if vis.contains(y) {
                assert(vc.contains(y));
                assert(vr.contains(y));
            }
            if l.contains(y) {
                let i = choose|i: int| 0 <= i < l.len() && l[i] == y;
                if i < lc.len() {
                    assert(lc.contains(y));
                    assert(vc.contains(y));
                    assert(vr.contains(y));
                } else {
                    assert(lr[i - lc.len()] == y);
                    assert(lr.contains(y));
                    assert(vr.contains(y));
                }
            }
        }
        // elements fresh and bounded
        assert forall|i: int| 0 <= i < l.len() implies !vis.contains(#[trigger] l[i])
            && (l[i] as int) < bound && l[i] < sets.len() by {
            if i < lc.len() {
                assert(lc[i] == l[i]);
            } else {
                assert(lr[i - lc.len()] == l[i]);
                assert(!vc.contains(l[i]));
            }
        }
        // no duplicates
        assert forall|i: int, j: int| 0 <= i < j < l.len() implies l[i] != l[j] by {
            if i < lc.len() && j >= lc.len() {
                assert(vc.contains(lc[i]));
                assert(!vc.contains(lr[j - lc.len()]));
            } else if i >= lc.len() {
                assert(lr[i - lc.len()] != lr[j - lc.len()]);
            }
        }
        // everything emitted is finished
        assert forall|i: int| 0 <= i < l.len() implies desc_closed(sets, #[trigger] l[i], v2) by {
            if i < lc.len() {
                assert(desc_closed(sets, lc[i], vc));
                assert forall|y: usize| #[trigger] reaches(sets, l[i], y) implies v2.contains(y)
                    by {
                    assert(vc.contains(y));
                    assert(vr.contains(y));
                }
            } else {
                assert(desc_closed(sets, lr[i - lc.len()], vr));
            }
        }
        // the heads of the list are finished
        assert forall|k: int| 0 <= k < cs.len() implies desc_closed(sets, #[trigger] cs[k], v2)
            by {
            if k == 0 {
                assert(desc_closed(sets, c, vc));
                assert forall|y: usize| #[trigger] reaches(sets, c, y) implies v2.contains(y) by {
                    assert(vc.contains(y));
                    assert(vr.contains(y));
                }
            } else {
                assert(cs.drop_first()[k - 1] == cs[k]);
                assert(desc_closed(sets, cs.drop_first()[k - 1], vr));
            }
        }
        // goodness preserved
        assert forall|v: usize| #[trigger] v2.contains(v) && (v as int) < bound implies
            desc_closed(sets, v, v2) by {
            assert(good_lt(sets, vr, bound));
        }
        // the finish-time order
        assert forall|i: int, y: usize| 0 <= i < l.len() && #[trigger] reaches(sets, l[i], y)
            && y != l[i] implies vis.contains(y) || (exists|j: int| 0 <= j < i && l[j] == y) by {
            if i < lc.len() {
                if !vis.contains(y) {
                    let j = choose|j: int| 0 <= j < i && lc[j] == y;
                    assert(l[j] == y);
                }
            } else {
                let ir = i - lc.len();
                assert(lr[ir] == l[i]);
                if !vc.contains(y) {
                    let j = choose|j: int| 0 <= j < ir && lr[j] == y;
                    assert(l[lc.len() + j] == y);
                } else {
                    if !vis.contains(y) {
                        assert(lc.contains(y));
                        let j = choose|j: int| 0 <= j < lc.len() && lc[j] == y;
                        assert(l[j] == y);
                        assert(j < i);
                    }
                }
            }
        }
    }
}

/// Membership of a preorder walk: it visits exactly what the shared
/// visited-set evolution says, so preorder and postorder visit the same
/// slots.
pub proof fn lemma_pre_elems(sets: Seq<TransitiveSetGen>, id: usize, vis: Set<usize>)
    ensures
        ({
            let l = pre_ids(sets, id, vis);
            let v2 = dfs_vis(sets, id, vis);
            forall|y: usize| v2.contains(y) <==> vis.contains(y) || l.contains(y)
        }),
    decreases id, 1nat, 0nat,
{
    let l = pre_ids(sets, id, vis);
    let v2 = dfs_vis(sets, id, vis);
    if id >= sets.len() || vis.contains(id) {
        assert(l =~= Seq::<usize>::empty());
    } else {
        let cs = children_of(sets, id);
        let vis1 = vis.insert(id);
        lemma_pre_elems_list(sets, cs, vis1, id as int);
        let ll = pre_ids_list(sets, cs, vis1, id as int);
        assert(l == seq![id] + ll);
        assert forall|y: usize| v2.contains(y) <==> vis.contains(y) || l.contains(y) by {
            assert(l[0] == id);
            if v2.contains(y) && !vis.contains(y) && y != id {
                assert(ll.contains(y));
                let i = choose|i: int| 0 <= i < ll.len() && ll[i] == y;
                assert(l[i + 1] == y);
            }
            if l.contains(y) {
                let i = choose|i: int| 0 <= i < l.len() && l[i] == y;
                if i > 0 {
                    assert(ll[i - 1] == y);
                    assert(ll.contains(y));
                }
            }
        }
    }
}

pub proof fn lemma_pre_elems_list(sets: Seq<TransitiveSetGen>, cs: Seq<usize>, vis: Set<usize>, bound: int)
    ensures
        ({
            let l = pre_ids_list(sets, cs, vis, bound);
            let v2 = dfs_vis_list(sets, cs, vis, bound);
            forall|y: usize| v2.contains(y) <==> vis.contains(y) || l.contains(y)
        }),
    decreases bound, 0nat, cs.len(),
{
    let l = pre_ids_list(sets, cs, vis, bound);
    let v2 = dfs_vis_list(sets, cs, vis, bound);
    if cs.len() == 0 || bound < 0 {
        assert(l =~= Seq::<usize>::empty());
    } else if cs[0] as int >= bound {
        lemma_pre_elems_list(sets, cs.drop_first(), vis, bound);
    } else {
        let c = cs[0];
        lemma_pre_elems(sets, c, vis);
        let lc = pre_ids(sets, c, vis);
        let vc = dfs_vis(sets, c, vis);
        lemma_pre_elems_list(sets, cs.drop_first(), vc, bound);
        let lr = pre_ids_list(sets, cs.drop_first(), vc, bound);
        assert(l == lc + lr);
        assert forall|y: usize| v2.contains(y) <==> vis.contains(y) || l.contains(y) by {
            if v2.contains(y) && !vis.contains(y) {
                if vc.contains(y) {
                    let i = choose|i: int| 0 <= i < lc.len() && lc[i] == y;
                    assert(l[i] == y);
                } else {
                    let i = choose|i: int| 0 <= i < lr.len() && lr[i] == y;
                    assert(l[lc.len() + i] == y);
                }
            }
            if l.contains(y) {
                let i = choose|i: int| 0 <= i < l.len() && l[i] == y;
                if i < lc.len() {
                    assert(lc.contains(y));
                } else {
                    assert(lr[i - lc.len()] == y);
                    assert(lr.contains(y));
                }
            }
        }
    }
}

/// What a breadth-first walk guarantees, given that every already-visited
/// slot has all its children either visited or still queued: every queued
/// slot is yielded (unless already visited), and every child of a yielded
/// slot is yielded or was already visited.
pub proof fn lemma_bfs_closed(sets: Seq<TransitiveSetGen>, q: Seq<usize>, vis: Set<usize>)
    requires
        store_wf(sets),
        forall|k: int| 0 <= k < q.len() ==> (#[trigger] q[k]) < sets.len(),
        forall|v: usize, c: usize| vis.contains(v) && v < sets.len() && children_of(
            sets, v).contains(c) ==> vis.contains(c) || q.contains(c),
    ensures
        ({
            let out = bfs_ids(sets, q, vis);
            &&& (forall|k: int| 0 <= k < q.len() ==> vis.contains(#[trigger] q[k]) || out.contains(
                q[k]))
            &&& (forall|x: usize, c: usize| out.contains(x) && children_of(sets, x).contains(c)
                ==> vis.contains(c) || out.contains(c))
            &&& (forall|i: int| 0 <= i < out.len() ==> (#[trigger] out[i]) < sets.len())
        }),
    decreases bfs_size_list(sets, q, sets.len() as int),
{
    let bound = sets.len() as int;
    let out = bfs_ids(sets, q, vis);
    if q.len() == 0 {
    } else {
        let h = q[0];
        assert(bfs_size_list(sets, q, bound) == bfs_size(sets, h) + bfs_size_list(
            sets, q.drop_first(), bound));
        if vis.contains(h) {
            assert forall|v: usize, c: usize| vis.contains(v) && v < sets.len() && children_of(
                sets, v).contains(c) implies vis.contains(c) || q.drop_first().contains(c) by {
                if !vis.contains(c) {
                    let k = choose|k: int| 0 <= k < q.len() && q[k] == c;
                    if k == 0 {
                        assert(vis.contains(c));
                    } else {
                        assert(q.drop_first()[k - 1] == c);
                    }
                }
            }
            lemma_bfs_closed(sets, q.drop_first(), vis);
            let outr = bfs_ids(sets, q.drop_first(), vis);
            assert(out == outr);
            assert forall|k: int| 0 <= k < q.len() implies vis.contains(#[trigger] q[k])
                || out.contains(q[k]) by {
                if k > 0 {
                    assert(q.drop_first()[k - 1] == q[k]);
                }
            }
        } else {
            let cs = children_of(sets, h);
            assert(crate::set::set_valid_in(sets[h as int], sets, h as int));
            let q1 = q.drop_first() + cs;
            let vis1 = vis.insert(h);
            assert(forall|k: int| 0 <= k < q1.len() ==> (#[trigger] q1[k]) < sets.len()) by {
                assert(forall|k: int| 0 <= k < cs.len() ==> (#[trigger] cs[k]) < sets.len());
                assert(forall|k: int| 0 <= k < q1.len() ==> q1[k] == (if k < q.len() - 1 {
                    q.drop_first()[k]
                } else {
                    cs[k - (q.len() - 1)]
                }));
            }
            assert forall|v: usize, c: usize| vis1.contains(v) && v < sets.len() && children_of(
                sets, v).contains(c) implies vis1.contains(c) || q1.contains(c) by {
                if v == h {
                    if !vis1.contains(c) {
                        let k = choose|k: int| 0 <= k < cs.len() && cs[k] == c;
                        assert(q1[q.len() - 1 + k] == c);
                    }
                } else {
                    if !vis.contains(c) && !vis1.contains(c) {
                        let k = choose|k: int| 0 <= k < q.len() && q[k] == c;
                        if k == 0 {
                            assert(c == h);
                            assert(vis1.contains(c));
                        } else {
                            assert(q.drop_first()[k - 1] == c);
                            assert(q1[k - 1] == c);
                        }
                    }
                }
            }
            // the measure shrinks by one
            lemma_bfs_size_append(sets, q.drop_first(), cs, bound);
            lemma_bfs_size_bound(sets, cs, h as int, bound);
            assert(bfs_size(sets, h) == 1 + bfs_size_list(sets, cs, h as int));
            lemma_bfs_closed(sets, q1, vis1);
            let outr = bfs_ids(sets, q1, vis1);
            assert(out == seq![h] + outr);
            assert(out[0] == h);
            assert forall|k: int| 0 <= k < q.len() implies vis.contains(#[trigger] q[k])
                || out.contains(q[k]) by {
                if k == 0 {
                    assert(out.contains(h));
                } else {
                    assert(q.drop_first()[k - 1] == q[k]);
                    assert(q1[k - 1] == q[k]);
                    if !vis.contains(q[k]) && q[k] != h {
                        assert(outr.contains(q[k]));
                        let i = choose|i: int| 0 <= i < outr.len() && outr[i] == q[k];
                        assert(out[i + 1] == q[k]);
                    }
                }
            }
            assert forall|x: usize, c: usize| out.contains(x) && children_of(sets, x).contains(c)
                implies vis.contains(c) || out.contains(c) by {
                if !vis.contains(c) {
                    let i = choose|i: int| 0 <= i < out.len() && out[i] == x;
                    if i == 0 {
                        let k = choose|k: int| 0 <= k < cs.len() && cs[k] == c;
                        assert(q1[q.len() - 1 + k] == c);
                        if c != h {
                            assert(outr.contains(c) || vis1.contains(c));
                            if outr.contains(c) {
                                let m = choose|m: int| 0 <= m < outr.len() && outr[m] == c;
                                assert(out[m + 1] == c);
                            }
                        }
                    } else {
                        assert(outr[i - 1] == x);
                        assert(outr.contains(x));
                        if c != h {
                            assert(vis1.contains(c) || outr.contains(c));
                            if outr.contains(c) {
                                let m = choose|m: int| 0 <= m < outr.len() && outr[m] == c;
                                assert(out[m + 1] == c);
                            }
                        }
                    }
                }
            }
            assert forall|i: int| 0 <= i < out.len() implies (#[trigger] out[i]) < sets.len() by {
                if i > 0 {
                    assert(outr[i - 1] == out[i]);
                }
            }
        }
    }
}

/// Topological-order law: a topological traversal yields every reachable
/// slot exactly once, and yields a slot only after every yielded slot that
/// has it as a (possibly indirect) child — ancestors first, so a consumer
/// replaying the traversal sees each set before anything it was folded from.
pub proof fn lemma_topological_traversal(sets: Seq<TransitiveSetGen>, root: usize, d: usize)
    requires
        store_wf(sets),
        root < sets.len(),
        reaches(sets, root, d),
    ensures
        ({
            let order = traversal_ids(sets, root, TransitiveSetOrdering::Topological);
            &&& order.contains(d)
            &&& (forall|i: int, j: int| #![trigger order[i], order[j]] 0 <= i < order.len()
                && 0 <= j < order.len() && order[i] == d && order[j] == d ==> i == j)
            &&& (forall|i: int, j: int| #![trigger reaches(sets, order[i], d), order[j]]
                0 <= i < order.len() && 0 <= j < order.len() && order[j] == d
                && reaches(sets, order[i], d) && order[i] != d ==> i < j)
        }),
{
    let vis0 = Set::<usize>::empty();
    assert(good_le(sets, vis0, root as int));
    lemma_post_node(sets, root, vis0);
    let post = post_ids(sets, root, vis0);
    let v2 = dfs_vis(sets, root, vis0);
    let order = traversal_ids(sets, root, TransitiveSetOrdering::Topological);
    assert(order == post.reverse());
    assert(order.len() == post.len());
    assert(v2.contains(d));
    assert(post.contains(d));
    let pd = choose|i: int| 0 <= i < post.len() && post[i] == d;
    assert(order[post.len() - 1 - pd] == d);
    assert(order.contains(d));
    assert forall|i: int, j: int| #![trigger order[i], order[j]] 0 <= i < order.len()
        && 0 <= j < order.len() && order[i] == d && order[j] == d implies i == j by {
        assert(post[post.len() - 1 - i] == d);
        assert(post[post.len() - 1 - j] == d);
    }
    assert forall|i: int, j: int| #![trigger reaches(sets, order[i], d), order[j]]
        0 <= i < order.len() && 0 <= j < order.len() && order[j] == d
        && reaches(sets, order[i], d) && order[i] != d implies i < j by {
        let pi = post.len() - 1 - i;
        let pj = post.len() - 1 - j;
        assert(post[pi] == order[i]);
        assert(post[pj] == d);
        assert(reaches(sets, post[pi], d));
        assert(vis0.contains(d) || (exists|m: int| 0 <= m < pi && post[m] == d));
        let m = choose|m: int| 0 <= m < pi && post[m] == d;
        assert(m == pj);
    }
}

/// Valueless-set law: a traversal yields values only for slots that carry a
/// node, yet every yielded slot was visited, and every child of a visited
/// slot is itself visited — a set with no value is traversed through.
pub proof fn lemma_traversal_of_valueless(
    sets: Seq<TransitiveSetGen>,
    root: usize,
    ordering: TransitiveSetOrdering,
)
    requires
        store_wf(sets),
        root < sets.len(),
    ensures
        ({
            let ids = traversal_ids(sets, root, ordering);
            let yielded = yielded_ids(sets, ids);
            &&& ids.contains(root)
            &&& (forall|x: usize, c: usize| ids.contains(x) && children_of(sets, x).contains(c)
                ==> ids.contains(c))
            &&& (forall|y: usize| #[trigger] reaches(sets, root, y) ==> ids.contains(y))
            &&& (forall|k: int| 0 <= k < yielded.len() ==> sets[(#[trigger] yielded[k]) as int].node
                is Some)
            &&& (forall|y: usize| sets[y as int].node is None && y < sets.len()
                ==> !yielded.contains(y))
        }),
{
    let vis0 = Set::<usize>::empty();
    let ids = traversal_ids(sets, root, ordering);
    assert(good_le(sets, vis0, root as int));
    lemma_post_node(sets, root, vis0);
    let v2 = dfs_vis(sets, root, vis0);
    let post = post_ids(sets, root, vis0);
    assert(reaches(sets, root, root));
    match ordering {
        TransitiveSetOrdering::Preorder => {
            lemma_pre_elems(sets, root, vis0);
            assert(ids.contains(root)) by {
                assert(v2.contains(root));
            }
            assert forall|x: usize, c: usize| ids.contains(x) && children_of(sets, x).contains(c)
                implies ids.contains(c) by {
                lemma_visited_child_visited(sets, v2, post, x, c);
            }
        },
        TransitiveSetOrdering::Postorder => {
            assert(ids == post);
            assert(ids.contains(root)) by {
                assert(v2.contains(root));
            }
            assert forall|x: usize, c: usize| ids.contains(x) && children_of(sets, x).contains(c)
                implies ids.contains(c) by {
                lemma_visited_child_visited(sets, v2, post, x, c);
            }
        },
        TransitiveSetOrdering::Topological => {
            assert(ids == post.reverse());
            assert(forall|y: usize| post.contains(y) <==> ids.contains(y)) by {
                lemma_reverse_contains(post);
            }
            assert(ids.contains(root)) by {
                assert(v2.contains(root));
            }
            assert forall|x: usize, c: usize| ids.contains(x) && children_of(sets, x).contains(c)
                implies ids.contains(c) by {
                lemma_visited_child_visited(sets, v2, post, x, c);
            }
        },
        TransitiveSetOrdering::Bfs => {
            assert(ids == bfs_ids(sets, seq![root], vis0));
            assert(forall|k: int| 0 <= k < seq![root].len() ==> (#[trigger] seq![root][k])
                < sets.len());
            lemma_bfs_closed(sets, seq![root], vis0);
            assert(seq![root][0] == root);
            assert(ids.contains(root));
            assert forall|x: usize, c: usize| ids.contains(x) && children_of(sets, x).contains(c)
                implies ids.contains(c) by {}
        },
    }
    assert forall|y: usize| #[trigger] reaches(sets, root, y) implies ids.contains(y) by {
        lemma_reachable_in_closed(sets, root, y, ids);
    }
    lemma_yielded_are_nodes(sets, ids, ids.len() as int);
    let yielded = yielded_ids(sets, ids);
    assert forall|y: usize| sets[y as int].node is None && y < sets.len() implies
        !yielded.contains(y) by {
        if yielded.contains(y) {
            let k = choose|k: int| 0 <= k < yielded.len() && yielded[k] == y;
        }
    }
}

/// Any collection of slots that contains `x` and is closed under children
/// contains everything reachable from `x`.
pub proof fn lemma_reachable_in_closed(
    sets: Seq<TransitiveSetGen>,
    x: usize,
    y: usize,
    ids: Seq<usize>,
)
    requires
        store_wf(sets),
        reaches(sets, x, y),
        ids.contains(x),
        forall|v: usize, c: usize| ids.contains(v) && children_of(sets, v).contains(c)
            ==> ids.contains(c),
    ensures
        ids.contains(y),
    decreases x,
{
    if x != y {
        assert(crate::set::set_valid_in(sets[x as int], sets, x as int));
        lemma_reaches_list_iff(sets, children_of(sets, x), y, x as int);
        let k = choose|k: int| 0 <= k < children_of(sets, x).len() && (children_of(
            sets, x)[k] as int) < x as int && reaches(sets, #[trigger] children_of(sets, x)[k], y);
        let c = children_of(sets, x)[k];
        assert(children_of(sets, x).contains(c));
        lemma_reachable_in_closed(sets, c, y, ids);
    }
}

/// In the shared visited set of a depth-first walk started on an empty
/// visited set, every child of a visited slot is visited.
proof fn lemma_visited_child_visited(
    sets: Seq<TransitiveSetGen>,
    v2: Set<usize>,
    post: Seq<usize>,
    x: usize,
    c: usize,
)
    requires
        store_wf(sets),
        forall|y: usize| v2.contains(y) <==> post.contains(y),
        forall|i: int| 0 <= i < post.len() ==> desc_closed(sets, #[trigger] post[i], v2),
        forall|i: int| 0 <= i < post.len() ==> (#[trigger] post[i]) < sets.len(),
        v2.contains(x),
        children_of(sets, x).contains(c),
    ensures
        v2.contains(c),
{
    let i = choose|i: int| 0 <= i < post.len() && post[i] == x;
    assert(desc_closed(sets, x, v2));
    assert(crate::set::set_valid_in(sets[x as int], sets, x as int));
    let k = choose|k: int| 0 <= k < children_of(sets, x).len() && children_of(sets, x)[k] == c;
    assert((c as int) < x as int);
    assert(reaches(sets, c, c));
    lemma_reaches_list_iff(sets, children_of(sets, x), c, x as int);
    assert(reaches(sets, x, c));
}

/// A sequence and its reverse hold the same elements.
proof fn lemma_reverse_contains(s: Seq<usize>)
    ensures
        forall|y: usize| s.contains(y) <==> s.reverse().contains(y),
{
    assert forall|y: usize| s.contains(y) <==> s.reverse().contains(y) by {
        if s.contains(y) {
            let i = choose|i: int| 0 <= i < s.len() && s[i] == y;
            assert(s.reverse()[s.len() - 1 - i] == y);
        }
        if s.reverse().contains(y) {
            let i = choose|i: int| 0 <= i < s.reverse().len() && s.reverse()[i] == y;
            assert(s[s.len() - 1 - i] == y);
        }
    }
}

/// Every slot among the first `k` of `ids` that the yield filter keeps
/// carries a node and came from `ids`.
proof fn lemma_yielded_are_nodes(sets: Seq<TransitiveSetGen>, ids: Seq<usize>, k: int)
    ensures
        ({
            let part = yielded_upto(sets, ids, k);
            forall|m: int| 0 <= m < part.len() ==> sets[(#[trigger] part[m]) as int].node is Some
                && ids.contains(part[m])
        }),
    decreases k,
{
    if k > 0 && k <= ids.len() {
        lemma_yielded_are_nodes(sets, ids, k - 1);
        let part = yielded_upto(sets, ids, k);
        let prev = yielded_upto(sets, ids, k - 1);
        assert forall|m: int| 0 <= m < part.len() implies sets[(#[trigger] part[m]) as int].node
            is Some && ids.contains(part[m]) by {
            if m < prev.len() {
                assert(part[m] == prev[m]);
            } else {
                assert(part[m] == ids[k - 1]);
            }
        }
    }
}

/// Freeze law: freezing preserves content exactly, so every query answers on
/// the frozen store as it did on the building store — the same traversal
/// orders, the same yielded slots, and pointwise the same sets (keys, nodes,
/// reductions, children).
pub proof fn lemma_freeze_preserves_queries(
    before: TransitiveSetStore,
    after: crate::set::FrozenTransitiveSetStore,
    root: usize,
    ordering: TransitiveSetOrdering,
)
    requires
        after@ == before@,
    ensures
        traversal_ids(after@, root, ordering) == traversal_ids(before@, root, ordering),
        yielded_ids(after@, traversal_ids(after@, root, ordering)) == yielded_ids(
            before@, traversal_ids(before@, root, ordering)),
        forall|id: int| 0 <= id < before@.len() ==> after@[id] == before@[id],
{
}

} // verus!
