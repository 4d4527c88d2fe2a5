//! Index bookkeeping for the soft-body meshes of the dangos: the boundary loop of a
//! player's surface, triangle grouping and the wrapped key sequence of the outline spline.

use vstd::prelude::*;

verus! {

/// The successor table that a list of boundary edges defines over `vertex_count` vertices:
/// every vertex starts with successor 0, and each edge `(from, to)` in turn sets the
/// successor of `from` to `to` (later edges win).
pub open spec fn adjacency(edges: Seq<(usize, usize)>, vertex_count: nat) -> Seq<usize>
    decreases edges.len(),
{
    if edges.len() == 0 {
        Seq::new(vertex_count, |i: int| 0usize)
    } else {
        adjacency(edges.drop_last(), vertex_count).update(edges.last().0 as int, edges.last().1)
    }
}

/// The vertex reached after following the successor table `steps` times from `start`.
pub open spec fn walk(successor: Seq<usize>, start: usize, steps: nat) -> usize
    decreases steps,
{
    if steps == 0 {
        start
    } else {
        successor[walk(successor, start, (steps - 1) as nat) as int]
    }
}

/// Every edge endpoint is a vertex index.
pub open spec fn edges_within(edges: Seq<(usize, usize)>, vertex_count: nat) -> bool {
    forall|i: int| 0 <= i < edges.len() ==> #[trigger] edges[i].0 < vertex_count && edges[i].1 < vertex_count
}

proof fn lemma_adjacency_bounded(edges: Seq<(usize, usize)>, vertex_count: nat)
    requires
        vertex_count > 0,
        edges_within(edges, vertex_count),
    ensures
        adjacency(edges, vertex_count).len() == vertex_count,
        forall|i: int| 0 <= i < vertex_count ==> #[trigger] adjacency(edges, vertex_count)[i] < vertex_count,
    decreases edges.len(),
{
    if edges.len() > 0 {
        let prefix = edges.drop_last();
        assert forall|i: int| 0 <= i < prefix.len() implies #[trigger] prefix[i].0 < vertex_count && prefix[i].1 < vertex_count by {
            assert(prefix[i] == edges[i]);
        }
        lemma_adjacency_bounded(prefix, vertex_count);
        assert(edges.last() == edges[edges.len() - 1]);
    }
}

/// Law: the successor table takes every edge in: a vertex that starts an edge has that
/// edge's end as its successor, unless a later edge starts at the same vertex.
pub proof fn lemma_adjacency_follows_edges(edges: Seq<(usize, usize)>, vertex_count: nat, i: int)
    requires
        0 <= i < edges.len(),
        edges_within(edges, vertex_count),
        forall|j: int| i < j < edges.len() ==> #[trigger] edges[j].0 != edges[i].0,
    ensures
        adjacency(edges, vertex_count).len() == vertex_count,
        adjacency(edges, vertex_count)[edges[i].0 as int] == edges[i].1,
    decreases edges.len(),
{
    let prefix = edges.drop_last();
    lemma_edges_within_prefix(edges, vertex_count);
    lemma_adjacency_len(edges, vertex_count);
    lemma_adjacency_len(prefix, vertex_count);
    let last = edges.len() - 1;
    assert(edges.last() == edges[last]);
    assert(edges[i].0 < vertex_count && edges[last].0 < vertex_count);
    if i < last {
        assert(edges[last].0 != edges[i].0);
        assert forall|j: int| i < j < prefix.len() implies #[trigger] prefix[j].0 != prefix[i].0 by {
            assert(prefix[j] == edges[j]);
            assert(edges[j].0 != edges[i].0);
        }
        assert(prefix[i] == edges[i]);
        lemma_adjacency_follows_edges(prefix, vertex_count, i);
        assert(adjacency(edges, vertex_count) == adjacency(prefix, vertex_count).update(edges[last].0 as int, edges[last].1));
    } else {
        assert(adjacency(edges, vertex_count) == adjacency(prefix, vertex_count).update(edges[last].0 as int, edges[last].1));
    }
}

/// Law: a vertex that starts no edge has successor 0.
pub proof fn lemma_adjacency_unlinked(edges: Seq<(usize, usize)>, vertex_count: nat, v: int)
    requires
        0 <= v < vertex_count,
        edges_within(edges, vertex_count),
        forall|j: int| 0 <= j < edges.len() ==> #[trigger] edges[j].0 != v,
    ensures
        adjacency(edges, vertex_count)[v] == 0,
    decreases edges.len(),
{
    if edges.len() > 0 {
        let prefix = edges.drop_last();
        lemma_edges_within_prefix(edges, vertex_count);
        assert forall|j: int| 0 <= j < prefix.len() implies #[trigger] prefix[j].0 != v by {
            assert(prefix[j] == edges[j]);
        }
        lemma_adjacency_unlinked(prefix, vertex_count, v);
        lemma_adjacency_len(prefix, vertex_count);
        assert(edges.last() == edges[edges.len() - 1]);
    }
}

proof fn lemma_adjacency_len(edges: Seq<(usize, usize)>, vertex_count: nat)
    requires
        edges_within(edges, vertex_count),
    ensures
        adjacency(edges, vertex_count).len() == vertex_count,
    decreases edges.len(),
{
    if edges.len() > 0 {
        lemma_edges_within_prefix(edges, vertex_count);
        lemma_adjacency_len(edges.drop_last(), vertex_count);
        assert(edges.last() == edges[edges.len() - 1]);
    }
}

proof fn lemma_edges_within_prefix(edges: Seq<(usize, usize)>, vertex_count: nat)
    requires
        edges.len() > 0,
        edges_within(edges, vertex_count),
    ensures
        edges_within(edges.drop_last(), vertex_count),
{
    let prefix = edges.drop_last();
    assert forall|m: int| 0 <= m < prefix.len() implies #[trigger] prefix[m].0 < vertex_count && prefix[m].1 < vertex_count by {
        assert(prefix[m] == edges[m]);
        assert(edges[m].0 < vertex_count && edges[m].1 < vertex_count);
    }
}

proof fn lemma_walk_bounded(successor: Seq<usize>, start: usize, steps: nat)
    requires
        start < successor.len(),
        forall|i: int| 0 <= i < successor.len() ==> #[trigger] successor[i] < successor.len(),
    ensures
        walk(successor, start, steps) < successor.len(),
    decreases steps,
{
    if steps > 0 {
        lemma_walk_bounded(successor, start, (steps - 1) as nat);
    }
}

/// Orders the boundary vertices of a player's surface: starting at the first endpoint of
/// the first boundary edge, it follows each vertex's successor until `point_count`
/// vertices have been listed.
pub fn boundary_indices(edges: &Vec<(usize, usize)>, vertex_count: usize, point_count: usize) -> (indices: Vec<usize>)
    requires
        edges.len() > 0,
        edges_within(edges@, vertex_count as nat),
    ensures
        indices.len() == point_count,
        forall|k: int| 0 <= k < point_count ==> #[trigger] indices[k] == walk(adjacency(edges@, vertex_count as nat), edges@[0].0, k as nat),
        point_count > 0 ==> indices[0] == edges[0].0,
        forall|k: int, i: int| 0 <= k < point_count - 1 && 0 <= i < edges.len() && #[trigger] edges[i].0 == #[trigger] indices[k]
            && (forall|j: int| i < j < edges.len() ==> edges[j].0 != edges[i].0)
            ==> indices[k + 1] == edges[i].1,
        forall|k: int| 0 <= k < point_count - 1 && (forall|j: int| 0 <= j < edges.len() ==> edges[j].0 != #[trigger] indices[k])
            ==> indices[k + 1] == 0,
{
    let ghost n = vertex_count as nat;
    assert(edges@[0].0 < n);
    let mut successor: Vec<usize> = vec![0; vertex_count];
    proof {
        assert(successor@ =~= adjacency(edges@.take(0), n));
    }
    let mut j: usize = 0;
    while j < edges.len()
        invariant
            j <= edges.len(),
            edges_within(edges@, n),
            n == vertex_count,
            successor@ == adjacency(edges@.take(j as int), n),
            successor.len() == vertex_count,
        decreases edges.len() - j,
    {
        let (from, to) = edges[j];
        assert(edges@[j as int].0 < n);
        successor.set(from, to);
        proof {
            let t = edges@.take(j as int + 1);
            assert(t.drop_last() =~= edges@.take(j as int));
            assert(t.last() == edges@[j as int]);
        }
        j = j + 1;
    }
    proof {
        assert(edges@.take(edges.len() as int) =~= edges@);
        lemma_adjacency_bounded(edges@, n);
    }
    let ghost adj = successor@;
    let start = edges[0].0;
    let mut indices: Vec<usize> = Vec::new();
    let mut i = start;
    while indices.len() < point_count
        invariant
            adj == successor@,
            adj == adjacency(edges@, n),
            adj.len() == n,
            forall|v: int| 0 <= v < n ==> #[trigger] adj[v] < n,
            start < n,
            indices.len() <= point_count,
            i == walk(adj, start, indices.len() as nat),
            forall|k: int| 0 <= k < indices.len() ==> #[trigger] indices[k] == walk(adj, start, k as nat),
        decreases point_count - indices.len(),
    {
        proof {
            lemma_walk_bounded(adj, start, indices.len() as nat);
        }
        indices.push(i);
        i = successor[i];
    }
    proof {
        assert forall|k: int, e: int| 0 <= k < point_count - 1 && 0 <= e < edges.len() && #[trigger] edges[e].0 == #[trigger] indices[k]
            && (forall|j: int| e < j < edges.len() ==> edges[j].0 != edges[e].0)
            implies indices[k + 1] == edges[e].1 by {
            lemma_adjacency_follows_edges(edges@, n, e);
            assert(indices[k + 1] == walk(adj, start, (k + 1) as nat));
            assert(indices[k] == walk(adj, start, k as nat));
        }
        assert forall|k: int| 0 <= k < point_count - 1 && (forall|j: int| 0 <= j < edges.len() ==> edges[j].0 != #[trigger] indices[k])
            implies indices[k + 1] == 0 by {
            assert(indices[k] == walk(adj, start, k as nat));
            lemma_walk_bounded(adj, start, k as nat);
            assert forall|j: int| 0 <= j < edges@.len() implies #[trigger] edges@[j].0 != indices[k] as int by {
                assert(edges[j].0 != indices[k]);
            }
            lemma_adjacency_unlinked(edges@, n, indices[k] as int);
            assert(indices[k + 1] == walk(adj, start, (k + 1) as nat));
        }
    }
    indices
}

/// Groups a flat triangle index list into triples.
pub fn group_triangles(indices: &Vec<usize>) -> (triangles: Vec<(usize, usize, usize)>)
    requires
        indices.len() % 3 == 0,
    ensures
        triangles.len() * 3 == indices.len(),
        forall|k: int| 0 <= k < triangles.len() ==> #[trigger] triangles[k] == (indices[3 * k], indices[3 * k + 1], indices[3 * k + 2]),
{
    let mut triangles: Vec<(usize, usize, usize)> = Vec::new();
    let mut i: usize = 0;
    while i < indices.len()
        invariant
            indices.len() % 3 == 0,
            i % 3 == 0,
            i <= indices.len(),
            triangles.len() * 3 == i,
            forall|k: int| 0 <= k < triangles.len() ==> #[trigger] triangles[k] == (indices[3 * k], indices[3 * k + 1], indices[3 * k + 2]),
        decreases indices.len() - i,
    {
        triangles.push((indices[i], indices[i + 1], indices[i + 2]));
        i = i + 3;
    }
    triangles
}

/// The boundary indices followed by their first three again: two of them give the
/// interpolating spline context and one closes the loop. An empty boundary stays empty.
pub fn wrapped_boundary_indices(boundary: &Vec<usize>) -> (wrapped: Vec<usize>)
    requires
        boundary.len() + 3 <= usize::MAX,
    ensures
        boundary.len() == 0 ==> wrapped.len() == 0,
        boundary.len() > 0 ==> wrapped.len() == boundary.len() + 3,
        forall|k: int| 0 <= k < wrapped.len() ==> #[trigger] wrapped[k] == boundary[k % (boundary.len() as int)],
{
    let mut wrapped: Vec<usize> = Vec::new();
    let n = boundary.len();
    if n == 0 {
        return wrapped;
    }
    let mut k: usize = 0;
    while k < n + 3
        invariant
            n == boundary.len(),
            n > 0,
            n + 3 <= usize::MAX,
            k <= n + 3,
            wrapped.len() == k,
            forall|j: int| 0 <= j < k ==> #[trigger] wrapped[j] == boundary[j % (n as int)],
        decreases n + 3 - k,
    {
        wrapped.push(boundary[k % n]);
        k = k + 1;
    }
    wrapped
}


/// One edge of a scan: the first edge starts the chain with both its ends, and an edge that
/// starts where the chain ends appends its end; other edges are skipped.
pub open spec fn chain_step(chain: Seq<usize>, edge: (usize, usize)) -> Seq<usize> {
    if chain.len() == 0 {
        seq![edge.0, edge.1]
    } else if chain.last() == edge.0 {
        chain.push(edge.1)
    } else {
        chain
    }
}

/// The chain after scanning the edges once, in order.
pub open spec fn chain_pass(chain: Seq<usize>, edges: Seq<(usize, usize)>) -> Seq<usize>
    decreases edges.len(),
{
    if edges.len() == 0 {
        chain
    } else {
        chain_step(chain_pass(chain, edges.drop_last()), edges.last())
    }
}

/// The chain after `passes` complete scans of the edges.
pub open spec fn chain_after(edges: Seq<(usize, usize)>, passes: nat) -> Seq<usize>
    decreases passes,
{
    if passes == 0 {
        seq![]
    } else {
        chain_pass(chain_after(edges, (passes - 1) as nat), edges)
    }
}

/// How many steps a chain has taken: one fewer than its vertices (none for the empty chain).
pub open spec fn chain_steps(chain: Seq<usize>) -> int {
    if chain.len() == 0 { 0 } else { chain.len() - 1 }
}

proof fn lemma_pass_grows(chain: Seq<usize>, edges: Seq<(usize, usize)>)
    ensures
        chain_steps(chain_pass(chain, edges)) >= chain_steps(chain),
    decreases edges.len(),
{
    if edges.len() > 0 {
        lemma_pass_grows(chain, edges.drop_last());
    }
}

proof fn lemma_after_grows(edges: Seq<(usize, usize)>, p: nat, q: nat)
    requires
        p <= q,
    ensures
        chain_steps(chain_after(edges, p)) <= chain_steps(chain_after(edges, q)),
    decreases q,
{
    if p < q {
        lemma_after_grows(edges, p, (q - 1) as nat);
        lemma_pass_grows(chain_after(edges, (q - 1) as nat), edges);
    }
}

/// Lays the vertices of a closed outline out as a chain for spline keys: it scans the
/// edges over and over, starting the chain with the first edge's two ends and then
/// appending the end of every edge that starts where the chain ends, until the chain has
/// at least `edges.len() + 2` steps. Consecutive chain vertices are joined by an edge. The
/// scans must get there at some point (on an outline whose edges lead nowhere further they
/// would go on forever).
pub fn outline_chain(edges: &Vec<(usize, usize)>) -> (chain: Vec<usize>)
    requires
        edges.len() < usize::MAX / 4,
        exists|passes: nat| chain_steps(#[trigger] chain_after(edges@, passes)) >= edges.len() + 2,
    ensures
        chain.len() >= edges.len() + 3,
        chain[0] == edges[0].0,
        chain[1] == edges[0].1,
        forall|i: int| 0 <= i < chain.len() - 1 ==> exists|j: int| 0 <= j < edges.len()
            && #[trigger] edges[j].0 == #[trigger] chain[i] && edges[j].1 == chain[i + 1],
        exists|passes: nat| passes > 0 && chain@ == #[trigger] chain_after(edges@, passes)
            && chain_steps(chain_after(edges@, passes)) >= edges.len() + 2
            && chain_steps(chain_after(edges@, (passes - 1) as nat)) < edges.len() + 2,
{
    let bound = edges.len() + 2;
    let ghost enough: nat = choose|passes: nat| chain_steps(#[trigger] chain_after(edges@, passes)) >= edges.len() + 2;
    let ghost mut passes: nat = 0;
    let mut chain: Vec<usize> = Vec::new();
    let mut previous: Option<usize> = None;
    let mut count: usize = 0;
    while count < bound
        invariant
            bound == edges.len() + 2,
            edges.len() < usize::MAX / 4,
            chain_steps(chain_after(edges@, enough)) >= bound,
            count < bound + edges.len(),
            previous is None <==> count == 0,
            count == 0 ==> chain.len() == 0,
            count > 0 ==> chain.len() == count + 1 && chain[0] == edges[0].0 && chain[1] == edges[0].1,
            previous matches Some(p) ==> p == chain[chain.len() - 1],
            forall|i: int| 0 <= i < chain.len() - 1 ==> exists|j: int| 0 <= j < edges.len()
                && #[trigger] edges[j].0 == #[trigger] chain[i] && edges[j].1 == chain[i + 1],
            chain@ == chain_after(edges@, passes),
            count == chain_steps(chain@),
            passes > 0 ==> chain_steps(chain_after(edges@, (passes - 1) as nat)) < bound,
            count < bound ==> passes < enough,
        decreases enough - passes,
    {
        let start_count = count;
        let ghost start_chain = chain@;
        let mut k: usize = 0;
        while k < edges.len()
            invariant
                bound == edges.len() + 2,
                edges.len() < usize::MAX / 4,
                start_count < bound,
                k <= edges.len(),
                start_count <= count <= start_count + k,
                previous is None <==> count == 0,
                count == 0 ==> chain.len() == 0,
                count > 0 ==> chain.len() == count + 1 && chain[0] == edges[0].0 && chain[1] == edges[0].1,
                previous matches Some(p) ==> p == chain[chain.len() - 1],
                chain@ == chain_pass(start_chain, edges@.take(k as int)),
                count == chain_steps(chain@),
                forall|i: int| 0 <= i < chain.len() - 1 ==> exists|j: int| 0 <= j < edges.len()
                    && #[trigger] edges[j].0 == #[trigger] chain[i] && edges[j].1 == chain[i + 1],
            decreases edges.len() - k,
        {
            let (from, to) = edges[k];
            let ghost old_chain = chain@;
            proof {
                assert(edges@.take(k as int + 1).drop_last() =~= edges@.take(k as int));
                assert(edges@.take(k as int + 1).last() == edges@[k as int]);
            }
            match previous {
                None => {
                    chain.push(from);
                    chain.push(to);
                    previous = Some(to);
                    count = count + 1;
                    proof {
                        assert(edges[k as int].0 == chain[0] && edges[k as int].1 == chain[1]);
                    }
                },
                Some(index) => {
                    if index == from {
                        chain.push(to);
                        previous = Some(to);
                        count = count + 1;
                        proof {
                            assert forall|i: int| 0 <= i < chain.len() - 1 implies exists|j: int| 0 <= j < edges.len()
                                && #[trigger] edges[j].0 == #[trigger] chain[i] && edges[j].1 == chain[i + 1] by {
                                if i < chain.len() - 2 {
                                    assert(chain[i] == old_chain[i] && chain[i + 1] == old_chain[i + 1]);
                                } else {
                                    assert(edges[k as int].0 == chain[i] && edges[k as int].1 == chain[i + 1]);
                                }
                            }
                        }
                    }
                },
            }
            k = k + 1;
        }
        proof {
            assert(edges@.take(edges.len() as int) =~= edges@);
            passes = passes + 1;
            if count < bound && passes >= enough {
                lemma_after_grows(edges@, enough, passes);
            }
        }
    }
    chain
}

} // verus!
