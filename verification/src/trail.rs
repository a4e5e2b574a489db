//! Trails: paths of edges from a root, and what they cost.

use vstd::prelude::*;
use crate::depths::GraphResolveDepths;
use crate::edges::DepthCounter;
use crate::identifier::VertexKey;
use crate::subgraph::EdgeKey;

verus! {

/// How many edges of a trail consume the counter `c`.
pub open spec fn uses(trail: Seq<EdgeKey>, c: DepthCounter) -> nat
    decreases trail.len(),
{
    if trail.len() == 0 {
        0
    } else {
        uses(trail.drop_last(), c) + if trail.last().kind.counter_spec() == c {
            1nat
        } else {
            0nat
        }
    }
}

/// Whether edge `i` of a trail ends where the next one starts.
pub open spec fn linked(trail: Seq<EdgeKey>, i: int) -> bool {
    trail[i].target == trail[i + 1].source
}

/// Whether `trail` leads from a root to `v` along edges of `edges`: each
/// edge starts where the one before it ends. The empty trail leads from a
/// root to itself.
pub open spec fn is_trail(
    edges: Set<EdgeKey>,
    roots: Set<VertexKey>,
    trail: Seq<EdgeKey>,
    v: VertexKey,
) -> bool {
    &&& forall|i: int| 0 <= i < trail.len() ==> edges.contains(#[trigger] trail[i])
    &&& forall|i: int| 0 <= i < trail.len() - 1 ==> #[trigger] linked(trail, i)
    &&& if trail.len() == 0 {
        roots.contains(v)
    } else {
        roots.contains(trail[0].source) && trail.last().target == v
    }
}

/// Whether a trail has consumed exactly the difference between two budgets.
pub open spec fn spent(
    trail: Seq<EdgeKey>,
    initial: GraphResolveDepths,
    remaining: GraphResolveDepths,
) -> bool {
    &&& uses(trail, DepthCounter::DataType) + remaining.data_type_depth == initial.data_type_depth
    &&& uses(trail, DepthCounter::PropertyType) + remaining.property_type_depth
        == initial.property_type_depth
    &&& uses(trail, DepthCounter::EntityType) + remaining.entity_type_depth
        == initial.entity_type_depth
    &&& uses(trail, DepthCounter::Entity) + remaining.entity_depth == initial.entity_depth
}

/// Whether a trail stays within a budget, counter by counter.
pub open spec fn affordable(trail: Seq<EdgeKey>, budget: GraphResolveDepths) -> bool {
    &&& uses(trail, DepthCounter::DataType) <= budget.data_type_depth
    &&& uses(trail, DepthCounter::PropertyType) <= budget.property_type_depth
    &&& uses(trail, DepthCounter::EntityType) <= budget.entity_type_depth
    &&& uses(trail, DepthCounter::Entity) <= budget.entity_depth
}

/// Whether some trail reaches `v` and leaves exactly `remaining` of the
/// budget `initial`.
pub open spec fn reached_with(
    edges: Set<EdgeKey>,
    roots: Set<VertexKey>,
    initial: GraphResolveDepths,
    v: VertexKey,
    remaining: GraphResolveDepths,
) -> bool {
    exists|trail: Seq<EdgeKey>| #[trigger]
        is_trail(edges, roots, trail, v) && spent(trail, initial, remaining)
}

/// Whether some trail reaches `v` within the budget.
pub open spec fn within_budget(
    edges: Set<EdgeKey>,
    roots: Set<VertexKey>,
    budget: GraphResolveDepths,
    v: VertexKey,
) -> bool {
    exists|trail: Seq<EdgeKey>| #[trigger]
        is_trail(edges, roots, trail, v) && affordable(trail, budget)
}

/// A root is reached by the empty trail, with the whole budget left.
pub proof fn lemma_root_reached(
    edges: Set<EdgeKey>,
    roots: Set<VertexKey>,
    initial: GraphResolveDepths,
    v: VertexKey,
)
    requires
        roots.contains(v),
    ensures
        reached_with(edges, roots, initial, v, initial),
{
    let trail = Seq::<EdgeKey>::empty();
    assert(is_trail(edges, roots, trail, v) && spent(trail, initial, initial));
}

/// A trail that leaves some budget stays within the budget.
pub proof fn lemma_reached_is_within(
    edges: Set<EdgeKey>,
    roots: Set<VertexKey>,
    initial: GraphResolveDepths,
    v: VertexKey,
    remaining: GraphResolveDepths,
)
    requires
        reached_with(edges, roots, initial, v, remaining),
    ensures
        within_budget(edges, roots, initial, v),
{
    let trail = choose|trail: Seq<EdgeKey>| #[trigger]
        is_trail(edges, roots, trail, v) && spent(trail, initial, remaining);
    assert(is_trail(edges, roots, trail, v) && affordable(trail, initial));
}

/// More edges keep every trail.
pub proof fn lemma_reached_monotone(
    edges: Set<EdgeKey>,
    more: Set<EdgeKey>,
    roots: Set<VertexKey>,
    initial: GraphResolveDepths,
    v: VertexKey,
    remaining: GraphResolveDepths,
)
    requires
        edges.subset_of(more),
    ensures
        reached_with(edges, roots, initial, v, remaining) ==> reached_with(
            more,
            roots,
            initial,
            v,
            remaining,
        ),
        within_budget(edges, roots, initial, v) ==> within_budget(more, roots, initial, v),
{
    if reached_with(edges, roots, initial, v, remaining) {
        let trail = choose|trail: Seq<EdgeKey>| #[trigger]
            is_trail(edges, roots, trail, v) && spent(trail, initial, remaining);
        assert(is_trail(more, roots, trail, v) && spent(trail, initial, remaining));
    }
    if within_budget(edges, roots, initial, v) {
        let trail = choose|trail: Seq<EdgeKey>| #[trigger]
            is_trail(edges, roots, trail, v) && affordable(trail, initial);
        assert(is_trail(more, roots, trail, v) && affordable(trail, initial));
    }
}

/// A trail to the source of an edge, followed by the edge, is a trail to its
/// target, and costs one more of the counter that the edge consumes.
pub proof fn lemma_reached_extend(
    edges: Set<EdgeKey>,
    roots: Set<VertexKey>,
    initial: GraphResolveDepths,
    remaining: GraphResolveDepths,
    edge: EdgeKey,
)
    requires
        reached_with(edges, roots, initial, edge.source, remaining),
        remaining.decrement_spec(edge.kind) is Some,
    ensures
        reached_with(
            edges.insert(edge),
            roots,
            initial,
            edge.target,
            remaining.decrement_spec(edge.kind).unwrap(),
        ),
{
    let trail = choose|trail: Seq<EdgeKey>| #[trigger]
        is_trail(edges, roots, trail, edge.source) && spent(trail, initial, remaining);
    let longer = trail.push(edge);
    let left = remaining.decrement_spec(edge.kind).unwrap();
    assert(longer.drop_last() =~= trail);
    assert(longer.last() == edge);
    assert forall|i: int| 0 <= i < longer.len() implies edges.insert(edge).contains(
        #[trigger] longer[i],
    ) by {
        if i < trail.len() {
            assert(longer[i] == trail[i]);
        }
    }
    assert forall|i: int| 0 <= i < longer.len() - 1 implies #[trigger] linked(longer, i) by {
        if i < trail.len() - 1 {
            assert(linked(trail, i));
            assert(longer[i] == trail[i] && longer[i + 1] == trail[i + 1]);
        } else {
            assert(longer[i] == trail.last());
        }
    }
    if trail.len() > 0 {
        assert(longer[0] == trail[0]);
    }
    assert(is_trail(edges.insert(edge), roots, longer, edge.target));
    remaining.lemma_decrement(edge.kind);
    assert(spent(longer, initial, left));
}

} // verus!
