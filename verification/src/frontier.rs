//! Frontiers, batches and resolver rows.
//!
//! A frontier is the list of vertices awaiting expansion, each with what is
//! left of its depth budget and the interval of the variable axis under which
//! it was reached. A batch is the part of a frontier that may follow one kind
//! of edge, with that edge already paid for. A resolver answers a batch with
//! rows, each naming the batch entry it starts from by position.

use vstd::prelude::*;
use crate::depths::GraphResolveDepths;
use crate::edges::EdgeKind;
use crate::identifier::{EntityId, VertexId, VertexKey};
use crate::temporal::TemporalInterval;

verus! {

/// A vertex awaiting expansion.
#[derive(Debug, Clone)]
pub struct FrontierEntry {
    pub vertex: VertexId,
    pub depths: GraphResolveDepths,
    pub interval: TemporalInterval,
}

/// The view of a [`FrontierEntry`].
pub struct FrontierItem {
    pub vertex: VertexKey,
    pub depths: GraphResolveDepths,
    pub interval: TemporalInterval,
}

impl View for FrontierEntry {
    type V = FrontierItem;

    open spec fn view(&self) -> FrontierItem {
        FrontierItem { vertex: self.vertex@, depths: self.depths, interval: self.interval }
    }
}

/// The views of a list of entries, in order.
pub open spec fn items_of(entries: Seq<FrontierEntry>) -> Seq<FrontierItem> {
    entries.map_values(|e: FrontierEntry| e@)
}

/// One answer of a resolver: an edge from the batch entry at `source_index`
/// to `target`. A target entity comes with the interval over which the edge
/// holds.
#[derive(Debug, Clone)]
pub struct EdgeRow {
    pub source_index: usize,
    pub target: VertexId,
}

/// The view of an [`EdgeRow`].
pub struct RowKey {
    pub source_index: int,
    pub target: VertexKey,
}

impl View for EdgeRow {
    type V = RowKey;

    open spec fn view(&self) -> RowKey {
        RowKey { source_index: self.source_index as int, target: self.target@ }
    }
}

/// The views of a list of rows, in order.
pub open spec fn rows_of(rows: Seq<EdgeRow>) -> Seq<RowKey> {
    rows.map_values(|r: EdgeRow| r@)
}

/// The batch for one kind of edge: the entries of the frontier whose budget
/// admits the edge, in order, each with the edge's counter lowered by one.
pub open spec fn plan_spec(frontier: Seq<FrontierItem>, kind: EdgeKind) -> Seq<FrontierItem>
    decreases frontier.len(),
{
    if frontier.len() == 0 {
        Seq::empty()
    } else {
        let front = plan_spec(frontier.drop_last(), kind);
        match frontier.last().depths.decrement_spec(kind) {
            Some(d) => front.push(
                FrontierItem {
                    vertex: frontier.last().vertex,
                    depths: d,
                    interval: frontier.last().interval,
                },
            ),
            None => front,
        }
    }
}

/// Every entry of a batch comes from an entry of the frontier that admits
/// the edge: same vertex, same interval, the budget lowered by that edge.
pub proof fn lemma_plan_origin(frontier: Seq<FrontierItem>, kind: EdgeKind, j: int)
    requires
        0 <= j < plan_spec(frontier, kind).len(),
    ensures
        exists|i: int|
            0 <= i < frontier.len() && (#[trigger] frontier[i]).depths.decrement_spec(kind)
                == Some(plan_spec(frontier, kind)[j].depths) && frontier[i].vertex == plan_spec(
                frontier,
                kind,
            )[j].vertex && frontier[i].interval == plan_spec(frontier, kind)[j].interval,
    decreases frontier.len(),
{
    let front = plan_spec(frontier.drop_last(), kind);
    if j < front.len() {
        lemma_plan_origin(frontier.drop_last(), kind, j);
        let i = choose|i: int|
            0 <= i < frontier.drop_last().len() && (#[trigger] frontier.drop_last()[i]).depths.decrement_spec(
                kind,
            ) == Some(front[j].depths) && frontier.drop_last()[i].vertex == front[j].vertex
                && frontier.drop_last()[i].interval == front[j].interval;
        assert(frontier[i] == frontier.drop_last()[i]);
    } else {
        assert(frontier[frontier.len() - 1] == frontier.last());
    }
}

/// A batch is empty exactly when no entry of the frontier admits the edge;
/// in particular when every budget is spent.
pub proof fn lemma_plan_empty(frontier: Seq<FrontierItem>, kind: EdgeKind)
    ensures
        plan_spec(frontier, kind).len() == 0 <==> forall|i: int|
            0 <= i < frontier.len() ==> (#[trigger] frontier[i]).depths.decrement_spec(kind)
                is None,
        plan_spec(frontier, kind).len() <= frontier.len(),
    decreases frontier.len(),
{
    if frontier.len() > 0 {
        lemma_plan_empty(frontier.drop_last(), kind);
        if plan_spec(frontier, kind).len() == 0 {
            assert forall|i: int| 0 <= i < frontier.len() implies (#[trigger] frontier[i]).depths.decrement_spec(
                kind,
            ) is None by {
                if i < frontier.len() - 1 {
                    assert(frontier.drop_last()[i] == frontier[i]);
                }
            }
        } else {
            if plan_spec(frontier.drop_last(), kind).len() > 0 {
                let i = choose|i: int|
                    0 <= i < frontier.drop_last().len() && !((#[trigger] frontier.drop_last()[i]).depths.decrement_spec(
                        kind,
                    ) is None);
                assert(frontier[i] == frontier.drop_last()[i]);
            } else {
                assert(frontier[frontier.len() - 1] == frontier.last());
            }
        }
    }
}

/// The part of a frontier that may follow one kind of edge.
pub fn plan(frontier: &Vec<FrontierEntry>, kind: EdgeKind) -> (r: Vec<FrontierEntry>)
    ensures
        items_of(r@) == plan_spec(items_of(frontier@), kind),
{
    let mut out: Vec<FrontierEntry> = Vec::new();
    let mut i: usize = 0;
    assert(items_of(frontier@).take(0) =~= Seq::<FrontierItem>::empty());
    assert(items_of(out@) =~= Seq::<FrontierItem>::empty());
    while i < frontier.len()
        invariant
            i <= frontier.len(),
            items_of(out@) == plan_spec(items_of(frontier@).take(i as int), kind),
        decreases frontier.len() - i,
    {
        let ghost before = items_of(out@);
        let ghost prefix = items_of(frontier@).take(i as int + 1);
        assert(prefix.drop_last() =~= items_of(frontier@).take(i as int));
        assert(prefix.last() == frontier@[i as int]@);
        match frontier[i].depths.decrement(kind) {
            Some(d) => {
                let entry = FrontierEntry {
                    vertex: frontier[i].vertex.duplicate(),
                    depths: d,
                    interval: frontier[i].interval,
                };
                out.push(entry);
                assert(items_of(out@) =~= before.push(entry@));
            },
            None => {},
        }
        i += 1;
    }
    assert(items_of(frontier@).take(i as int) =~= items_of(frontier@));
    out
}

/// The vertices of a batch, in order: the sources handed to a resolver.
pub fn sources(batch: &Vec<FrontierEntry>) -> (r: Vec<VertexId>)
    ensures
        r@.len() == batch@.len(),
        forall|i: int| 0 <= i < r@.len() ==> (#[trigger] r@[i])@ == batch@[i].vertex@,
{
    let mut out: Vec<VertexId> = Vec::new();
    let mut i: usize = 0;
    while i < batch.len()
        invariant
            i <= batch.len(),
            out@.len() == i,
            forall|j: int| 0 <= j < i ==> (#[trigger] out@[j])@ == batch@[j].vertex@,
        decreases batch.len() - i,
    {
        out.push(batch[i].vertex.duplicate());
        i += 1;
    }
    out
}

/// The intervals of a batch, in order: entry `i` of the result belongs to
/// source `i`.
pub fn intervals(batch: &Vec<FrontierEntry>) -> (r: Vec<TemporalInterval>)
    ensures
        r@.len() == batch@.len(),
        forall|i: int| 0 <= i < r@.len() ==> #[trigger] r@[i] == batch@[i].interval,
{
    let mut out: Vec<TemporalInterval> = Vec::new();
    let mut i: usize = 0;
    while i < batch.len()
        invariant
            i <= batch.len(),
            out@.len() == i,
            forall|j: int| 0 <= j < i ==> #[trigger] out@[j] == batch@[j].interval,
        decreases batch.len() - i,
    {
        out.push(batch[i].interval);
        i += 1;
    }
    out
}

/// The ordinals `0, 1, ..` of a batch of `len` sources: what a resolver
/// echoes in a row to name the source it answers.
pub fn ordinals(len: usize) -> (r: Vec<usize>)
    ensures
        r@.len() == len,
        forall|i: int| 0 <= i < len ==> #[trigger] r@[i] == i,
{
    let mut out: Vec<usize> = Vec::new();
    let mut i: usize = 0;
    while i < len
        invariant
            i <= len,
            out@.len() == i,
            forall|j: int| 0 <= j < i ==> #[trigger] out@[j] == j,
        decreases len - i,
    {
        out.push(i);
        i += 1;
    }
    out
}

/// The owners and ids of the entities in a list of sources, as two parallel
/// columns; `None` when some source is not an entity.
pub fn entity_columns(sources: &Vec<VertexId>) -> (r: Option<(Vec<u128>, Vec<u128>)>)
    ensures
        r is Some <==> forall|i: int|
            0 <= i < sources@.len() ==> (#[trigger] sources@[i])@.entity_id() is Some,
        r matches Some((owners, uuids)) ==> {
            &&& owners@.len() == sources@.len()
            &&& uuids@.len() == sources@.len()
            &&& forall|i: int|
                0 <= i < sources@.len() ==> (#[trigger] sources@[i])@.entity_id() == Some(
                    EntityId { owner_id: owners@[i], entity_uuid: uuids@[i] },
                )
        },
{
    let mut owners: Vec<u128> = Vec::new();
    let mut uuids: Vec<u128> = Vec::new();
    let mut i: usize = 0;
    while i < sources.len()
        invariant
            i <= sources.len(),
            owners@.len() == i,
            uuids@.len() == i,
            forall|j: int|
                0 <= j < i ==> (#[trigger] sources@[j])@.entity_id() == Some(
                    EntityId { owner_id: owners@[j], entity_uuid: uuids@[j] },
                ),
        decreases sources.len() - i,
    {
        match sources[i].entity_id() {
            Some(id) => {
                owners.push(id.owner_id);
                uuids.push(id.entity_uuid);
            },
            None => {
                return None;
            },
        }
        i += 1;
    }
    Some((owners, uuids))
}

/// The base URLs and revisions of the ontology types in a list of sources,
/// as two parallel columns; `None` when some source is an entity.
pub fn ontology_columns(sources: &Vec<VertexId>) -> (r: Option<(Vec<String>, Vec<u32>)>)
    ensures
        r is Some <==> forall|i: int|
            0 <= i < sources@.len() ==> (#[trigger] sources@[i])@.entity_id() is None,
        r matches Some((urls, revisions)) ==> {
            &&& urls@.len() == sources@.len()
            &&& revisions@.len() == sources@.len()
            &&& forall|i: int|
                0 <= i < sources@.len() ==> (#[trigger] sources@[i])@.ontology_key() == Some(
                    crate::identifier::OntologyKey {
                        base_url: urls@[i]@,
                        revision: revisions@[i],
                    },
                )
        },
{
    let mut urls: Vec<String> = Vec::new();
    let mut revisions: Vec<u32> = Vec::new();
    let mut i: usize = 0;
    while i < sources.len()
        invariant
            i <= sources.len(),
            urls@.len() == i,
            revisions@.len() == i,
            forall|j: int|
                0 <= j < i ==> (#[trigger] sources@[j])@.ontology_key() == Some(
                    crate::identifier::OntologyKey {
                        base_url: urls@[j]@,
                        revision: revisions@[j],
                    },
                ),
            forall|j: int| 0 <= j < i ==> (#[trigger] sources@[j])@.entity_id() is None,
        decreases sources.len() - i,
    {
        match &sources[i] {
            VertexId::DataType(id) | VertexId::PropertyType(id) | VertexId::EntityType(id) => {
                urls.push(id.base_url.clone());
                revisions.push(id.revision);
            },
            _ => {
                return None;
            },
        }
        i += 1;
    }
    Some((urls, revisions))
}

} // verus!
