//! The layered traversal driver.
//!
//! A [`Traversal`] holds the state of one query: the subgraph under
//! construction, the traversal context and the frontiers. It decides; it
//! does not read. Whoever drives it asks for the next request, has a
//! resolver answer it, and supplies the rows, until there is no further
//! request; then the payloads of the scheduled vertices are installed and
//! the subgraph is handed out.

use vstd::prelude::*;
use crate::context::TraversalContext;
use crate::depths::GraphResolveDepths;
use crate::edges::{
    EdgeDirection, EdgeKind, KnowledgeGraphEdgeKind, OntologyEdgeKind, SharedEdgeKind,
};
use crate::error::QueryError;
use crate::frontier::{
    intervals, items_of, plan, plan_spec, rows_of, sources, EdgeRow, FrontierEntry, FrontierItem,
};
use crate::identifier::{
    distinct_keys, key_set, lemma_key_set_push, EntityIdWithInterval, VertexId, VertexKey,
    VertexKind,
};
use crate::model::{
    frontier_of, height, row_valid, rows_valid, successor, target_kind, Phase, Step,
    TraversalModel,
};
use crate::soundness::{
    frame_of, lemma_advance_inv, lemma_ordered_facts, lemma_seeded_inv, lemma_sound_facts,
    lemma_supply_inv, root_kind, subgraph_frame, vertices_accounted, QueryFrame,
};
use crate::subgraph::{entries_map, entry_ids, insert_if_absent, EdgeKey, Subgraph};
use crate::temporal::{QueryTemporalAxes, TemporalInterval, TimeAxis, Timestamp};

verus! {

/// What a resolver is asked: the edges of one kind, followed in one
/// direction, that leave the given sources. Source `i` goes with interval
/// `i`; a row of the answer names its source by that position.
#[derive(Debug)]
pub struct Request {
    pub kind: EdgeKind,
    pub direction: EdgeDirection,
    pub sources: Vec<VertexId>,
    pub intervals: Vec<TemporalInterval>,
    pub pinned: Timestamp,
    pub variable_axis: TimeAxis,
}

/// The view of a [`Request`].
pub struct RequestView {
    pub kind: EdgeKind,
    pub direction: EdgeDirection,
    pub sources: Seq<VertexKey>,
    pub intervals: Seq<TemporalInterval>,
    pub pinned: Timestamp,
    pub variable_axis: TimeAxis,
}

impl View for Request {
    type V = RequestView;

    open spec fn view(&self) -> RequestView {
        RequestView {
            kind: self.kind,
            direction: self.direction,
            sources: self.sources@.map_values(|id: VertexId| id@),
            intervals: self.intervals@,
            pinned: self.pinned,
            variable_axis: self.variable_axis,
        }
    }
}

/// The request for the answer to `batch` at `step` under `axes`.
pub open spec fn request_for(step: Step, batch: Seq<FrontierItem>, axes: QueryTemporalAxes) -> RequestView {
    RequestView {
        kind: step.kind,
        direction: step.direction,
        sources: batch.map_values(|item: FrontierItem| item.vertex),
        intervals: batch.map_values(|item: FrontierItem| item.interval),
        pinned: axes.pinned,
        variable_axis: axes.variable_axis,
    }
}

impl Request {
    /// A request that asks for the answer to a batch has the view of the
    /// request for that batch.
    pub proof fn lemma_asks(self, step: Step, batch: Seq<FrontierItem>, axes: QueryTemporalAxes)
        requires
            self.asks(step, batch, axes),
        ensures
            self@ == request_for(step, batch, axes),
    {
        assert(self@.sources =~= request_for(step, batch, axes).sources);
        assert(self@.intervals =~= request_for(step, batch, axes).intervals);
    }

    /// Whether the request asks for the answer to `batch` at `step` under `axes`.
    pub open spec fn asks(self, step: Step, batch: Seq<FrontierItem>, axes: QueryTemporalAxes) -> bool {
        &&& self.kind == step.kind
        &&& self.direction == step.direction
        &&& self.pinned == axes.pinned
        &&& self.variable_axis == axes.variable_axis
        &&& self.sources@.len() == batch.len()
        &&& self.intervals@.len() == batch.len()
        &&& forall|i: int|
            0 <= i < batch.len() ==> (#[trigger] self.sources@[i])@ == batch[i].vertex
        &&& forall|i: int|
            0 <= i < batch.len() ==> #[trigger] self.intervals@[i] == batch[i].interval
    }
}

/// The step of a phase at a position, if the phase has that many steps.
pub fn step_at(phase: Phase, cursor: usize) -> (r: Option<Step>)
    ensures
        r is Some <==> cursor < phase.steps().len(),
        r matches Some(s) ==> s == phase.steps()[cursor as int],
{
    match phase {
        Phase::Entity => {
            if cursor == 0 {
                Some(
                    Step {
                        kind: EdgeKind::Shared(SharedEdgeKind::IsOfType),
                        direction: EdgeDirection::Outgoing,
                    },
                )
            } else if cursor == 1 {
                Some(
                    Step {
                        kind: EdgeKind::KnowledgeGraph(KnowledgeGraphEdgeKind::HasLeftEntity),
                        direction: EdgeDirection::Incoming,
                    },
                )
            } else if cursor == 2 {
                Some(
                    Step {
                        kind: EdgeKind::KnowledgeGraph(KnowledgeGraphEdgeKind::HasRightEntity),
                        direction: EdgeDirection::Incoming,
                    },
                )
            } else if cursor == 3 {
                Some(
                    Step {
                        kind: EdgeKind::KnowledgeGraph(KnowledgeGraphEdgeKind::HasLeftEntity),
                        direction: EdgeDirection::Outgoing,
                    },
                )
            } else if cursor == 4 {
                Some(
                    Step {
                        kind: EdgeKind::KnowledgeGraph(KnowledgeGraphEdgeKind::HasRightEntity),
                        direction: EdgeDirection::Outgoing,
                    },
                )
            } else {
                None
            }
        },
        Phase::EntityType => {
            if cursor == 0 {
                Some(
                    Step {
                        kind: EdgeKind::Ontology(OntologyEdgeKind::ConstrainsPropertiesOn),
                        direction: EdgeDirection::Outgoing,
                    },
                )
            } else if cursor == 1 {
                Some(
                    Step {
                        kind: EdgeKind::Ontology(OntologyEdgeKind::InheritsFrom),
                        direction: EdgeDirection::Outgoing,
                    },
                )
            } else if cursor == 2 {
                Some(
                    Step {
                        kind: EdgeKind::Ontology(OntologyEdgeKind::ConstrainsLinksOn),
                        direction: EdgeDirection::Outgoing,
                    },
                )
            } else if cursor == 3 {
                Some(
                    Step {
                        kind: EdgeKind::Ontology(OntologyEdgeKind::ConstrainsLinkDestinationsOn),
                        direction: EdgeDirection::Outgoing,
                    },
                )
            } else {
                None
            }
        },
        Phase::PropertyType => {
            if cursor == 0 {
                Some(
                    Step {
                        kind: EdgeKind::Ontology(OntologyEdgeKind::ConstrainsValuesOn),
                        direction: EdgeDirection::Outgoing,
                    },
                )
            } else if cursor == 1 {
                Some(
                    Step {
                        kind: EdgeKind::Ontology(OntologyEdgeKind::ConstrainsPropertiesOn),
                        direction: EdgeDirection::Outgoing,
                    },
                )
            } else {
                None
            }
        },
        Phase::DataType => None,
        Phase::Done => None,
    }
}

/// The kind of vertex that a resolver names as the target of an edge.
pub fn target_kind_of(kind: EdgeKind) -> (r: VertexKind)
    ensures
        r == target_kind(kind),
{
    match kind {
        EdgeKind::Ontology(OntologyEdgeKind::ConstrainsValuesOn) => VertexKind::DataType,
        EdgeKind::Ontology(OntologyEdgeKind::ConstrainsPropertiesOn) => VertexKind::PropertyType,
        EdgeKind::Ontology(_) => VertexKind::EntityType,
        EdgeKind::Shared(_) => VertexKind::EntityType,
        EdgeKind::KnowledgeGraph(_) => VertexKind::EntityInterval,
    }
}

/// The phase in which vertices of a kind are expanded.
pub fn frontier_for(kind: VertexKind) -> (r: Phase)
    ensures
        r == frontier_of(kind),
{
    match kind {
        VertexKind::DataType => Phase::DataType,
        VertexKind::PropertyType => Phase::PropertyType,
        VertexKind::EntityType => Phase::EntityType,
        VertexKind::Entity => Phase::Entity,
        VertexKind::EntityInterval => Phase::Entity,
    }
}

/// What a row with the given target leads to from a batch entry.
pub fn successor_of(entry: &FrontierEntry, target: &VertexId) -> (r: Option<FrontierEntry>)
    ensures
        r is Some == successor(entry@, target@) is Some,
        r matches Some(next) ==> next@ == successor(entry@, target@).unwrap(),
{
    match target {
        VertexId::EntityInterval(t) => match entry.interval.intersect(&t.interval) {
            Some(i) => Some(
                FrontierEntry {
                    vertex: VertexId::EntityInterval(
                        EntityIdWithInterval { entity_id: t.entity_id, interval: i },
                    ),
                    depths: entry.depths,
                    interval: i,
                },
            ),
            None => None,
        },
        _ => Some(
            FrontierEntry {
                vertex: target.duplicate(),
                depths: entry.depths,
                interval: entry.interval,
            },
        ),
    }
}

/// Whether every row answers a batch of `len` sources for an edge of `kind`.
pub fn rows_answer(len: usize, kind: EdgeKind, rows: &Vec<EdgeRow>) -> (r: bool)
    ensures
        r == rows_valid(len as nat, kind, rows_of(rows@)),
{
    let expected = target_kind_of(kind);
    let mut i: usize = 0;
    while i < rows.len()
        invariant
            i <= rows.len(),
            expected == target_kind(kind),
            forall|j: int| 0 <= j < i ==> row_valid(len as nat, kind, #[trigger] rows_of(rows@)[j]),
        decreases rows.len() - i,
    {
        if !(rows[i].source_index < len && rows[i].target.kind() == expected) {
            assert(!row_valid(len as nat, kind, rows_of(rows@)[i as int]));
            return false;
        }
        i += 1;
    }
    true
}

/// The state of one query.
pub struct Traversal<P> {
    subgraph: Subgraph<P>,
    context: TraversalContext,
    phase: Phase,
    cursor: usize,
    current: Vec<FrontierEntry>,
    entity_queue: Vec<FrontierEntry>,
    entity_type_queue: Vec<FrontierEntry>,
    property_type_queue: Vec<FrontierEntry>,
    data_type_queue: Vec<FrontierEntry>,
    pending: Option<Vec<FrontierEntry>>,
}

impl<P> Traversal<P> {
    /// The state as the model sees it, with a given pending batch.
    pub closed spec fn model_with(&self, pending: Option<Seq<FrontierItem>>) -> TraversalModel {
        TraversalModel {
            edges: self.subgraph.edge_set(),
            scheduled: self.context.scheduled_set(),
            phase: self.phase,
            cursor: self.cursor as nat,
            current: items_of(self.current@),
            entity_queue: items_of(self.entity_queue@),
            entity_type_queue: items_of(self.entity_type_queue@),
            property_type_queue: items_of(self.property_type_queue@),
            data_type_queue: items_of(self.data_type_queue@),
            pending,
        }
    }

    /// The state as the model sees it.
    pub closed spec fn model(&self) -> TraversalModel {
        self.model_with(
            match self.pending {
                Some(b) => Some(items_of(b@)),
                None => None,
            },
        )
    }

    /// What the query fixed: its roots, its depths, its interval.
    pub closed spec fn frame(&self) -> QueryFrame {
        QueryFrame {
            roots: self.subgraph.root_set(),
            depths: self.subgraph.depths_spec(),
            interval: self.subgraph.axes_spec().variable_interval,
        }
    }

    /// The projection the query was made under.
    pub closed spec fn axes(&self) -> QueryTemporalAxes {
        self.subgraph.axes_spec()
    }

    /// The payloads installed so far.
    pub closed spec fn vertex_map(&self) -> Map<VertexKey, P> {
        self.subgraph.vertex_map()
    }

    /// What holds of a traversal between any two calls: the invariant of
    /// the model, and that only scheduled vertices have a payload and every
    /// root has one.
    pub closed spec fn inv(&self) -> bool {
        &&& self.subgraph.wf()
        &&& self.context.wf()
        &&& self.model().inv(self.frame())
        &&& self.subgraph.vertex_map().dom().subset_of(self.context.scheduled_set())
        &&& self.subgraph.root_set().subset_of(self.subgraph.vertex_map().dom())
        &&& self.frame().interval == self.axes().variable_interval
    }

    /// The invariant of the model holds under the traversal's invariant.
    pub proof fn lemma_inv(&self)
        requires
            self.inv(),
        ensures
            self.model().inv(self.frame()),
            self.vertex_map().dom().subset_of(self.model().scheduled),
            self.frame().roots.subset_of(self.vertex_map().dom()),
            self.frame().interval == self.axes().variable_interval,
    {
    }

    /// Whether nothing is left to expand.
    pub fn is_done(&self) -> (r: bool)
        ensures
            r == self.model().is_done(),
    {
        match self.phase {
            Phase::Done => true,
            _ => false,
        }
    }

    fn request(&self) -> (r: Request)
        requires
            self.pending is Some,
            self.cursor < self.phase.steps().len(),
        ensures
            r.asks(self.model().step(), self.model().pending.unwrap(), self.axes()),
    {
        let step = step_at(self.phase, self.cursor).unwrap();
        let axes = self.subgraph.temporal_axes();
        match &self.pending {
            Some(batch) => Request {
                kind: step.kind,
                direction: step.direction,
                sources: sources(batch),
                intervals: intervals(batch),
                pinned: axes.pinned,
                variable_axis: axes.variable_axis,
            },
            None => Request {
                kind: step.kind,
                direction: step.direction,
                sources: Vec::new(),
                intervals: Vec::new(),
                pinned: axes.pinned,
                variable_axis: axes.variable_axis,
            },
        }
    }

    fn take_queue(&mut self, phase: Phase) -> (r: Vec<FrontierEntry>)
        ensures
            items_of(r@) == old(self).model().queue(phase),
            final(self).model_with(None) == old(self).model_with(None).with_queue(
                phase,
                Seq::empty(),
            ),
            final(self).subgraph == old(self).subgraph,
            final(self).context == old(self).context,
            final(self).pending == old(self).pending,
            final(self).phase == old(self).phase,
            final(self).cursor == old(self).cursor,
            final(self).current == old(self).current,
    {
        let mut taken: Vec<FrontierEntry> = Vec::new();
        assert(items_of(taken@) =~= Seq::<FrontierItem>::empty());
        match phase {
            Phase::Entity => {
                std::mem::swap(&mut taken, &mut self.entity_queue);
            },
            Phase::EntityType => {
                std::mem::swap(&mut taken, &mut self.entity_type_queue);
            },
            Phase::PropertyType => {
                std::mem::swap(&mut taken, &mut self.property_type_queue);
            },
            Phase::DataType => {
                std::mem::swap(&mut taken, &mut self.data_type_queue);
            },
            Phase::Done => {},
        }
        taken
    }

    /// Moves on to the next request for a resolver. Steps that no vertex of
    /// the layer may take are passed over, a finished layer gives way to the
    /// next, a finished phase to the following one. `None` means that the
    /// traversal is complete. While a request awaits its rows, the same
    /// request is handed out again.
    pub fn next_request(&mut self) -> (r: Option<Request>)
        requires
            old(self).inv(),
        ensures
            final(self).inv(),
            final(self).frame() == old(self).frame(),
            final(self).axes() == old(self).axes(),
            final(self).vertex_map() == old(self).vertex_map(),
            final(self).model() == if old(self).model().pending is Some {
                old(self).model()
            } else {
                old(self).model().advance()
            },
            r is Some <==> final(self).model().pending is Some,
            r is None <==> final(self).model().is_done(),
            r matches Some(req) ==> req.asks(
                final(self).model().step(),
                final(self).model().pending.unwrap(),
                final(self).axes(),
            ),
    {
        let ghost start = self.model();
        proof {
            lemma_ordered_facts(start);
            if start.pending is None {
                lemma_advance_inv(start, self.frame());
                lemma_ordered_facts(start.advance());
            }
        }
        if self.pending.is_some() {
            return Some(self.request());
        }
        loop
            invariant
                self.subgraph == old(self).subgraph,
                self.context == old(self).context,
                self.pending is None,
                start == old(self).model(),
                start.pending is None,
                start.advance().inv(old(self).frame()),
                old(self).inv(),
                self.cursor <= self.phase.steps().len(),
                self.model().layered(),
                self.model().advance() == start.advance(),
            decreases
                    self.phase.rank(),
                    height(items_of(self.current@)),
                    self.phase.steps().len() - self.cursor,
        {
            let ghost prev = self.model();
            match self.phase {
                Phase::Done => {
                    assert(prev.advance() == prev);
                    return None;
                },
                _ => {},
            }
            match step_at(self.phase, self.cursor) {
                Some(step) => {
                    let batch = plan(&self.current, step.kind);
                    if batch.len() > 0 {
                        self.pending = Some(batch);
                        proof {
                            assert(self.model() == (TraversalModel {
                                pending: Some(plan_spec(prev.current, prev.step().kind)),
                                ..prev
                            }));
                            assert(prev.advance() == self.model());
                        }
                        return Some(self.request());
                    } else {
                        self.cursor += 1;
                        proof {
                            assert(self.model() == (TraversalModel {
                                cursor: prev.cursor + 1,
                                ..prev
                            }));
                            assert(prev.advance() == self.model().advance());
                            assert(self.model().queue(self.model().phase) == prev.queue(prev.phase));
                        }
                    }
                },
                None => {
                    let phase = self.phase;
                    let next = self.take_queue(phase);
                    if next.len() > 0 {
                        proof {
                            crate::model::lemma_next_layer_lower(prev);
                        }
                        self.current = next;
                        self.cursor = 0;
                        proof {
                            assert(self.model() == prev.next_layer());
                            assert(prev.advance() == self.model().advance());
                            assert(self.model().queue(self.model().phase).len() == 0);
                        }
                    } else {
                        let following = match phase {
                            Phase::Entity => Phase::EntityType,
                            Phase::EntityType => Phase::PropertyType,
                            Phase::PropertyType => Phase::DataType,
                            _ => Phase::Done,
                        };
                        proof {
                            assert(prev.queue(prev.phase) =~= Seq::<FrontierItem>::empty());
                            assert(self.model() == prev);
                        }
                        let first = self.take_queue(following);
                        self.phase = following;
                        self.current = first;
                        self.cursor = 0;
                        proof {
                            assert(self.model() == prev.next_phase());
                            assert(prev.advance() == self.model().advance());
                            assert(self.model().queue(self.model().phase).len() == 0);
                        }
                    }
                },
            }
        }
    }

    fn enqueue(&mut self, entry: FrontierEntry)
        ensures
            forall|x: Option<Seq<FrontierItem>>| #[trigger]
                final(self).model_with(x) == old(self).model_with(x).enqueue(entry@),
            final(self).subgraph == old(self).subgraph,
            final(self).context == old(self).context,
            final(self).pending == old(self).pending,
            final(self).cursor == old(self).cursor,
            final(self).phase == old(self).phase,
    {
        let ghost item = entry@;
        match frontier_for(entry.vertex.kind()) {
            Phase::Entity => {
                self.entity_queue.push(entry);
                assert(items_of(self.entity_queue@) =~= items_of(old(self).entity_queue@).push(
                    item,
                ));
            },
            Phase::EntityType => {
                self.entity_type_queue.push(entry);
                assert(items_of(self.entity_type_queue@) =~= items_of(
                    old(self).entity_type_queue@,
                ).push(item));
            },
            Phase::PropertyType => {
                self.property_type_queue.push(entry);
                assert(items_of(self.property_type_queue@) =~= items_of(
                    old(self).property_type_queue@,
                ).push(item));
            },
            _ => {
                self.data_type_queue.push(entry);
                assert(items_of(self.data_type_queue@) =~= items_of(
                    old(self).data_type_queue@,
                ).push(item));
            },
        }
    }

    fn absorb_row(&mut self, batch: &Vec<FrontierEntry>, step: Step, row: &EdgeRow)
        requires
            old(self).subgraph.wf(),
            old(self).context.wf(),
            row.source_index < batch@.len(),
        ensures
            final(self).subgraph.wf(),
            final(self).context.wf(),
            forall|x: Option<Seq<FrontierItem>>| #[trigger]
                final(self).model_with(x) == old(self).model_with(x).absorb_row(
                    items_of(batch@),
                    step,
                    row@,
                ),
            final(self).subgraph.vertex_map() == old(self).subgraph.vertex_map(),
            final(self).subgraph.root_set() == old(self).subgraph.root_set(),
            final(self).subgraph.depths_spec() == old(self).subgraph.depths_spec(),
            final(self).subgraph.axes_spec() == old(self).subgraph.axes_spec(),
            final(self).pending == old(self).pending,
            final(self).cursor == old(self).cursor,
            final(self).phase == old(self).phase,
    {
        let entry = &batch[row.source_index];
        assert(items_of(batch@)[row@.source_index] == entry@);
        match successor_of(entry, &row.target) {
            None => {},
            Some(next) => {
                let ghost item = next@;
                let ghost edge = EdgeKey {
                    source: entry@.vertex,
                    kind: step.kind,
                    direction: step.direction,
                    target: item.vertex,
                };
                self.subgraph.insert_edge(
                    entry.vertex.duplicate(),
                    step.kind,
                    step.direction,
                    next.vertex.duplicate(),
                );
                let fresh = self.context.schedule(next.vertex.duplicate());
                let ghost mid = *self;
                proof {
                    if !fresh {
                        assert(old(self).context.scheduled_set().insert(item.vertex) =~= old(
                            self,
                        ).context.scheduled_set());
                    }
                    assert forall|x: Option<Seq<FrontierItem>>| #[trigger]
                        mid.model_with(x) == (TraversalModel {
                            edges: old(self).model_with(x).edges.insert(edge),
                            scheduled: old(self).model_with(x).scheduled.insert(item.vertex),
                            ..old(self).model_with(x)
                        }) by {}
                }
                if fresh {
                    self.enqueue(next);
                }
            },
        }
    }

    /// Absorbs the rows with which a resolver answered the pending request.
    /// Each row leads from the source it names to its target: the edge
    /// enters the subgraph, and the target, narrowed to the part of the
    /// source's interval over which the edge holds, is scheduled and
    /// enqueued unless it was scheduled before. A row whose edge does not
    /// hold within the source's interval is dropped. The answer is refused,
    /// and nothing changes, when no request is pending or when a row names
    /// no source of the request or a target of the wrong kind.
    pub fn supply(&mut self, rows: Vec<EdgeRow>) -> (r: Result<(), QueryError>)
        requires
            old(self).inv(),
        ensures
            final(self).inv(),
            final(self).frame() == old(self).frame(),
            final(self).axes() == old(self).axes(),
            final(self).vertex_map() == old(self).vertex_map(),
            r is Ok <==> (old(self).model().pending is Some && rows_valid(
                old(self).model().pending.unwrap().len(),
                old(self).model().step().kind,
                rows_of(rows@),
            )),
            r is Ok ==> final(self).model() == old(self).model().supply(rows_of(rows@)),
            r is Err ==> final(self).model() == old(self).model(),
    {
        let ghost start = self.model();
        let ghost frame = self.frame();
        proof {
            lemma_ordered_facts(start);
        }
        let mut taken: Option<Vec<FrontierEntry>> = None;
        std::mem::swap(&mut taken, &mut self.pending);
        match taken {
            None => Err(QueryError),
            Some(batch) => {
                let step = step_at(self.phase, self.cursor).unwrap();
                if !rows_answer(batch.len(), step.kind, &rows) {
                    self.pending = Some(batch);
                    return Err(QueryError);
                }
                let ghost items = items_of(batch@);
                let ghost keys = rows_of(rows@);
                let mut i: usize = 0;
                assert(keys.take(0) =~= Seq::<crate::frontier::RowKey>::empty());
                while i < rows.len()
                    invariant
                        i <= rows.len(),
                        keys == rows_of(rows@),
                        items == items_of(batch@),
                        rows_valid(batch@.len(), step.kind, keys),
                        self.subgraph.wf(),
                        self.context.wf(),
                        self.pending is None,
                        self.cursor == old(self).cursor,
                        self.phase == old(self).phase,
                        self.cursor < self.phase.steps().len(),
                        self.model_with(Some(items)) == start.absorb(
                            items,
                            step,
                            keys.take(i as int),
                        ),
                        self.subgraph.vertex_map() == old(self).subgraph.vertex_map(),
                        self.subgraph.root_set() == old(self).subgraph.root_set(),
                        self.subgraph.depths_spec() == old(self).subgraph.depths_spec(),
                        self.subgraph.axes_spec() == old(self).subgraph.axes_spec(),
                    decreases rows.len() - i,
                {
                    proof {
                        assert(keys.take(i as int + 1).drop_last() =~= keys.take(i as int));
                        assert(keys.take(i as int + 1).last() == rows@[i as int]@);
                        assert(row_valid(batch@.len(), step.kind, keys[i as int]));
                    }
                    self.absorb_row(&batch, step, &rows[i]);
                    i += 1;
                }
                proof {
                    assert(keys.take(i as int) =~= keys);
                    lemma_supply_inv(start, frame, keys);
                }
                self.cursor += 1;
                proof {
                    let absorbed = start.absorb(items, step, keys);
                    assert(self.model() == (TraversalModel {
                        cursor: start.cursor + 1,
                        pending: None,
                        ..absorbed
                    }));
                }
                Ok(())
            },
        }
    }

    /// The scheduled vertices of one kind that have no payload yet, each
    /// once: what a loader has to read for that kind.
    pub fn missing_vertices(&self, kind: VertexKind) -> (r: Vec<VertexId>)
        requires
            self.inv(),
        ensures
            distinct_keys(r@),
            forall|k: VertexKey|
                #![trigger key_set(r@).contains(k)]
                #![trigger self.vertex_map().dom().contains(k)]
                key_set(r@).contains(k) <==> (self.model().scheduled.contains(k) && k.kind()
                    == kind && !self.vertex_map().dom().contains(k)),
    {
        let wanted = self.context.scheduled_ids(kind);
        let mut out: Vec<VertexId> = Vec::new();
        let mut i: usize = 0;
        while i < wanted.len()
            invariant
                i <= wanted.len(),
                self.subgraph.wf(),
                distinct_keys(wanted@),
                distinct_keys(out@),
                forall|k: VertexKey|
                    key_set(out@).contains(k) <==> (key_set(wanted@.take(i as int)).contains(k)
                        && !self.subgraph.has_vertex(k)),
            decreases wanted.len() - i,
        {
            proof {
                assert(wanted@.take(i as int + 1) =~= wanted@.take(i as int).push(wanted@[i as int]));
                lemma_key_set_push(wanted@.take(i as int), wanted@[i as int]);
            }
            if !self.subgraph.contains_vertex(&wanted[i]) {
                let id = wanted[i].duplicate();
                proof {
                    if key_set(out@).contains(id@) {
                        let j = choose|j: int|
                            0 <= j < i && (#[trigger] wanted@.take(i as int)[j])@ == id@;
                        assert(wanted@[j]@ != wanted@[i as int]@);
                    }
                    lemma_key_set_push(out@, id);
                }
                out.push(id);
            }
            i += 1;
        }
        assert(wanted@.take(i as int) =~= wanted@);
        out
    }

    /// Installs the payloads that a loader read: payload `i` belongs to
    /// vertex `i`. A vertex that has a payload keeps it. No edge is added and
    /// nothing is scheduled. The payloads are refused, and nothing changes,
    /// when their number is not that of the vertices or when one of the
    /// vertices was never scheduled.
    pub fn install_vertices(&mut self, ids: Vec<VertexId>, payloads: Vec<P>) -> (r: Result<
        (),
        QueryError,
    >)
        requires
            old(self).inv(),
        ensures
            final(self).inv(),
            final(self).model() == old(self).model(),
            final(self).frame() == old(self).frame(),
            final(self).axes() == old(self).axes(),
            r is Ok <==> (ids@.len() == payloads@.len() && forall|i: int|
                0 <= i < ids@.len() ==> old(self).model().scheduled.contains(
                    (#[trigger] ids@[i])@,
                )),
            r is Ok ==> final(self).vertex_map() == installed(
                old(self).vertex_map(),
                id_keys(ids@),
                payloads@,
            ),
            r is Err ==> final(self).vertex_map() == old(self).vertex_map(),
    {
        if ids.len() != payloads.len() {
            return Err(QueryError);
        }
        let mut k: usize = 0;
        while k < ids.len()
            invariant
                k <= ids.len(),
                *self == *old(self),
                self.inv(),
                forall|j: int|
                    0 <= j < k ==> self.context.scheduled_set().contains((#[trigger] ids@[j])@),
            decreases ids.len() - k,
        {
            if !self.context.is_scheduled(&ids[k]) {
                return Err(QueryError);
            }
            k += 1;
        }
        let ghost all_ids = ids@;
        let ghost all_payloads = payloads@;
        let mut ids = ids;
        let mut payloads = payloads;
        while ids.len() > 0
            invariant
                ids@.len() == payloads@.len(),
                ids@ == all_ids.take(ids@.len() as int),
                payloads@ == all_payloads.take(ids@.len() as int),
                ids@.len() <= all_ids.len(),
                all_ids.len() == all_payloads.len(),
                forall|j: int|
                    0 <= j < all_ids.len() ==> self.context.scheduled_set().contains(
                        (#[trigger] all_ids[j])@,
                    ),
                self.subgraph.wf(),
                self.context == old(self).context,
                self.phase == old(self).phase,
                self.cursor == old(self).cursor,
                self.current == old(self).current,
                self.entity_queue == old(self).entity_queue,
                self.entity_type_queue == old(self).entity_type_queue,
                self.property_type_queue == old(self).property_type_queue,
                self.data_type_queue == old(self).data_type_queue,
                self.pending == old(self).pending,
                self.subgraph.edge_set() == old(self).subgraph.edge_set(),
                self.subgraph.root_set() == old(self).subgraph.root_set(),
                self.subgraph.depths_spec() == old(self).subgraph.depths_spec(),
                self.subgraph.axes_spec() == old(self).subgraph.axes_spec(),
                old(self).subgraph.vertex_map().dom().subset_of(self.subgraph.vertex_map().dom()),
                self.subgraph.vertex_map().dom().subset_of(self.context.scheduled_set()),
                installed(self.subgraph.vertex_map(), id_keys(ids@), payloads@) == installed(
                    old(self).subgraph.vertex_map(),
                    id_keys(all_ids),
                    all_payloads,
                ),
            decreases ids@.len(),
        {
            let ghost before_ids = ids@;
            let ghost before_payloads = payloads@;
            let id = ids.pop().unwrap();
            let payload = payloads.pop().unwrap();
            proof {
                assert(id_keys(before_ids).drop_last() =~= id_keys(ids@));
                assert(before_payloads.drop_last() =~= payloads@);
                assert(id_keys(before_ids).last() == id@);
                assert(id == all_ids[ids@.len() as int]);
                assert(ids@ =~= all_ids.take(ids@.len() as int));
                assert(payloads@ =~= all_payloads.take(ids@.len() as int));
            }
            self.subgraph.insert_vertex(id, payload);
        }
        proof {
            assert(all_ids.take(all_ids.len() as int) =~= all_ids);
            assert(all_payloads.take(all_ids.len() as int) =~= all_payloads);
        }
        Ok(())
    }

    /// Hands out the subgraph once the traversal is complete and every
    /// scheduled vertex has its payload; otherwise there is no subgraph, not
    /// even a partial one. The subgraph holds the payloads installed, the
    /// edges found and the roots of the query. Both ends of each of its
    /// edges and each of its roots are among its vertices, and each of its
    /// vertices is accounted for by a trail from a root within the budget.
    pub fn finish(self) -> (r: Result<Subgraph<P>, QueryError>)
        requires
            self.inv(),
        ensures
            r is Ok <==> (self.model().is_done() && self.model().scheduled.subset_of(
                self.vertex_map().dom(),
            )),
            r matches Ok(g) ==> {
                &&& g.wf()
                &&& g.vertex_map() == self.vertex_map()
                &&& g.vertex_map().dom() == self.model().scheduled
                &&& g.edge_set() == self.model().edges
                &&& g.root_set() == self.frame().roots
                &&& g.depths_spec() == self.frame().depths
                &&& g.axes_spec() == self.axes()
                &&& g.edges_closed()
                &&& g.roots_covered()
                &&& vertices_accounted(&g)
            },
    {
        if !self.is_done() {
            return Err(QueryError);
        }
        proof {
            self.context.lemma_scheduled_ids();
        }
        let n = self.context.len();
        let mut i: usize = 0;
        while i < n
            invariant
                i <= n,
                n == self.context.scheduled_ids_spec().len(),
                self.subgraph.wf(),
                self.context.wf(),
                forall|j: int|
                    0 <= j < i ==> self.subgraph.has_vertex(
                        (#[trigger] self.context.scheduled_ids_spec()[j])@,
                    ),
            decreases n - i,
        {
            if !self.subgraph.contains_vertex(self.context.get(i)) {
                proof {
                    self.context.lemma_scheduled_ids();
                }
                return Err(QueryError);
            }
            i += 1;
        }
        proof {
            self.context.lemma_scheduled_ids();
            lemma_sound_facts(self.model(), self.frame());
            assert forall|k: VertexKey|
                self.context.scheduled_set().contains(k) implies self.subgraph.has_vertex(k) by {
                let j = choose|j: int|
                    0 <= j < self.context.scheduled_ids_spec().len() && (
                    #[trigger] self.context.scheduled_ids_spec()[j])@ == k;
                assert(self.subgraph.has_vertex(self.context.scheduled_ids_spec()[j]@));
            }
            assert(self.subgraph.vertex_map().dom() =~= self.context.scheduled_set());
            assert(subgraph_frame(&self.subgraph) == self.frame());
        }
        Ok(self.subgraph)
    }

    /// Starts the traversal of a query from its roots. The roots are scheduled,
    /// marked as roots and given their payloads, and those of them that are
    /// distinct form the first layer, each with the whole budget and the
    /// query's interval. `phase` says which kind of vertex the query selects
    /// its roots from; a root of another kind is malformed.
    pub fn begin(
        phase: Phase,
        roots: Vec<(VertexId, P)>,
        depths: GraphResolveDepths,
        temporal_axes: QueryTemporalAxes,
    ) -> (r: Result<Traversal<P>, QueryError>)
        ensures
            r is Ok <==> (!(phase is Done) && forall|i: int|
                0 <= i < roots@.len() ==> (#[trigger] roots@[i]).0@.kind() == root_kind(phase)),
            r matches Ok(t) ==> {
                &&& t.inv()
                &&& t.model() == TraversalModel::seeded(
                    phase,
                    root_keys(roots@),
                    depths,
                    temporal_axes.variable_interval,
                )
                &&& t.frame() == frame_of(
                    root_keys(roots@),
                    depths,
                    temporal_axes.variable_interval,
                )
                &&& t.axes() == temporal_axes
                &&& t.vertex_map() == entries_map(roots@)
            },
    {
        let expected = match phase {
            Phase::Entity => VertexKind::Entity,
            Phase::EntityType => VertexKind::EntityType,
            Phase::PropertyType => VertexKind::PropertyType,
            Phase::DataType => VertexKind::DataType,
            Phase::Done => {
                return Err(QueryError);
            },
        };
        let mut k: usize = 0;
        while k < roots.len()
            invariant
                k <= roots.len(),
                expected == root_kind(phase),
                forall|j: int| 0 <= j < k ==> (#[trigger] roots@[j]).0@.kind() == expected,
            decreases roots.len() - k,
        {
            if roots[k].0.kind() != expected {
                return Err(QueryError);
            }
            k += 1;
        }
        let interval = temporal_axes.variable_interval;
        let mut t = Traversal {
            subgraph: Subgraph::new(depths, temporal_axes),
            context: TraversalContext::new(),
            phase,
            cursor: 0,
            current: Vec::new(),
            entity_queue: Vec::new(),
            entity_type_queue: Vec::new(),
            property_type_queue: Vec::new(),
            data_type_queue: Vec::new(),
            pending: None,
        };
        let ghost all = roots@;
        let ghost keys = root_keys(all);
        let mut rest = roots;
        let mut i: usize = 0;
        let n = rest.len();
        proof {
            assert(keys.take(0) =~= Seq::<VertexKey>::empty());
            assert(all.take(0) =~= Seq::<(VertexId, P)>::empty());
            assert(keys.take(0).to_set() =~= Set::<VertexKey>::empty());
            assert(t.model().current =~= Seq::<FrontierItem>::empty());
            assert(t.model().entity_queue =~= Seq::<FrontierItem>::empty());
            assert(t.model().entity_type_queue =~= Seq::<FrontierItem>::empty());
            assert(t.model().property_type_queue =~= Seq::<FrontierItem>::empty());
            assert(t.model().data_type_queue =~= Seq::<FrontierItem>::empty());
        }
        while i < n
            invariant
                i <= n,
                n == all.len(),
                keys == root_keys(all),
                rest@ == all.skip(i as int),
                t.subgraph.wf(),
                t.context.wf(),
                t.pending is None,
                t.model() == TraversalModel::seeded(phase, keys.take(i as int), depths, interval),
                t.subgraph.vertex_map() == entries_map(all.take(i as int)),
                t.subgraph.root_set() == keys.take(i as int).to_set(),
                t.subgraph.depths_spec() == depths,
                t.subgraph.axes_spec() == temporal_axes,
                interval == temporal_axes.variable_interval,
            decreases n - i,
        {
            let ghost before = t.model();
            let (id, payload) = rest.remove(0);
            proof {
                assert(id == all[i as int].0 && payload == all[i as int].1);
                assert(keys.take(i as int + 1).drop_last() =~= keys.take(i as int));
                assert(keys.take(i as int + 1).last() == id@);
                assert(all.take(i as int + 1).drop_last() =~= all.take(i as int));
                assert(all.take(i as int + 1).last() == all[i as int]);
                lemma_to_set_push(keys.take(i as int), id@);
                assert(keys.take(i as int + 1) =~= keys.take(i as int).push(id@));
                assert(rest@ =~= all.skip(i as int + 1));
            }
            let fresh = t.context.schedule(id.duplicate());
            t.subgraph.add_root(id.duplicate());
            t.subgraph.insert_vertex(id.duplicate(), payload);
            if fresh {
                let entry = FrontierEntry { vertex: id, depths, interval };
                t.current.push(entry);
                assert(items_of(t.current@) =~= before.current.push(entry@));
            }
            proof {
                if !fresh {
                    assert(before.scheduled.insert(id@) =~= before.scheduled);
                }
                assert(t.model().scheduled == before.scheduled.insert(id@));
                assert(t.model().edges == before.edges);
                assert(t.model() == before.seed_root(id@, depths, interval));
            }
            i += 1;
        }
        proof {
            assert(keys.take(n as int) =~= keys);
            assert(all.take(n as int) =~= all);
            lemma_seeded_inv(phase, keys, depths, interval);
            crate::soundness::lemma_seeded_shape(phase, keys, depths, interval);
            crate::subgraph::lemma_entries_map(all);
            assert forall|k: VertexKey|
                key_set(entry_ids(all)).contains(k) <==> keys.to_set().contains(
                    k,
                ) by {
                if key_set(entry_ids(all)).contains(k) {
                    let j = choose|j: int|
                        0 <= j < entry_ids(all).len() && (#[trigger] entry_ids(all)[j])@ == k;
                    assert(keys[j] == k);
                }
                if keys.contains(k) {
                    let j = choose|j: int| 0 <= j < keys.len() && keys[j] == k;
                    assert(entry_ids(all)[j]@ == k);
                }
            }
            assert(key_set(entry_ids(all)) =~= keys.to_set());
        }
        Ok(t)
    }
}

/// The views of a list of identifiers, in order.
pub open spec fn id_keys(ids: Seq<VertexId>) -> Seq<VertexKey> {
    ids.map_values(|id: VertexId| id@)
}

/// The payloads of a map after a list of payloads was installed, from the
/// last to the first: a vertex that has a payload keeps it.
pub open spec fn installed<P>(m: Map<VertexKey, P>, ids: Seq<VertexKey>, payloads: Seq<P>) -> Map<
    VertexKey,
    P,
>
    decreases ids.len(),
{
    if ids.len() == 0 || payloads.len() == 0 {
        m
    } else {
        installed(
            insert_if_absent(m, ids.last(), payloads.last()),
            ids.drop_last(),
            payloads.drop_last(),
        )
    }
}

/// Installing payloads for distinct vertices that have none gives each of
/// them its payload and leaves the others as they were.
pub proof fn lemma_installed<P>(m: Map<VertexKey, P>, ids: Seq<VertexKey>, payloads: Seq<P>)
    requires
        ids.len() == payloads.len(),
        ids.no_duplicates(),
        forall|i: int| 0 <= i < ids.len() ==> !m.dom().contains(#[trigger] ids[i]),
    ensures
        forall|k: VertexKey| #[trigger]
            installed(m, ids, payloads).dom().contains(k) <==> (m.dom().contains(k)
                || ids.contains(k)),
        forall|k: VertexKey|
            m.dom().contains(k) ==> #[trigger] installed(m, ids, payloads)[k] == m[k],
        forall|i: int|
            0 <= i < ids.len() ==> installed(m, ids, payloads)[#[trigger] ids[i]] == payloads[i],
    decreases ids.len(),
{
    if ids.len() > 0 {
        let last = ids.last();
        let next = insert_if_absent(m, last, payloads.last());
        let front = ids.drop_last();
        assert(!m.dom().contains(ids[ids.len() - 1]));
        assert forall|i: int| 0 <= i < front.len() implies !next.dom().contains(
            #[trigger] front[i],
        ) by {
            assert(front[i] == ids[i]);
        }
        lemma_installed(next, front, payloads.drop_last());
        let done = installed(m, ids, payloads);
        assert(done == installed(next, front, payloads.drop_last()));
        assert(next.dom().contains(last) && next[last] == payloads.last());
        assert(done[last] == next[last]);
        assert(ids[ids.len() - 1] == last);
        assert forall|k: VertexKey| #[trigger]
            done.dom().contains(k) <==> (m.dom().contains(k) || ids.contains(k)) by {
            assert(installed(next, front, payloads.drop_last()).dom().contains(k) <==> (
            next.dom().contains(k) || front.contains(k)));
            if k == last {
                assert(ids.contains(k));
            }
            if front.contains(k) {
                let i = choose|i: int| 0 <= i < front.len() && front[i] == k;
                assert(ids[i] == k);
            }
            if ids.contains(k) {
                let i = choose|i: int| 0 <= i < ids.len() && ids[i] == k;
                if i < front.len() {
                    assert(front[i] == k);
                }
            }
        }
        assert forall|i: int| 0 <= i < ids.len() implies done[#[trigger] ids[i]]
            == payloads[i] by {
            if i < front.len() {
                assert(front[i] == ids[i]);
                assert(payloads.drop_last()[i] == payloads[i]);
                assert(done[front[i]] == payloads.drop_last()[i]);
            }
        }
        assert forall|k: VertexKey| m.dom().contains(k) implies #[trigger] done[k] == m[k] by {
            assert(next.dom().contains(k));
            assert(done[k] == next[k]);
        }
    } else {
        assert forall|k: VertexKey| !ids.contains(k) by {}
    }
}

/// Identifiers that name each vertex once have views without duplicates.
pub proof fn lemma_distinct_views(ids: Seq<VertexId>)
    requires
        distinct_keys(ids),
    ensures
        id_keys(ids).no_duplicates(),
        forall|k: VertexKey| id_keys(ids).contains(k) <==> key_set(ids).contains(k),
{
    assert forall|i: int, j: int|
        0 <= i < id_keys(ids).len() && 0 <= j < id_keys(ids).len() && i != j implies id_keys(
        ids,
    )[i] != id_keys(ids)[j] by {
        if i < j {
            assert(ids[i]@ != ids[j]@);
        } else {
            assert(ids[j]@ != ids[i]@);
        }
    }
    assert forall|k: VertexKey| id_keys(ids).contains(k) <==> key_set(ids).contains(k) by {
        if id_keys(ids).contains(k) {
            let i = choose|i: int| 0 <= i < id_keys(ids).len() && id_keys(ids)[i] == k;
            assert(ids[i]@ == k);
        }
        if key_set(ids).contains(k) {
            let i = choose|i: int| 0 <= i < ids.len() && (#[trigger] ids[i])@ == k;
            assert(id_keys(ids)[i] == k);
        }
    }
}

/// The views of the identifiers of a list of keyed payloads, in order.
pub open spec fn root_keys<P>(roots: Seq<(VertexId, P)>) -> Seq<VertexKey> {
    roots.map_values(|e: (VertexId, P)| e.0@)
}

/// The set of a sequence with one more element at its end.
pub proof fn lemma_to_set_push<A>(s: Seq<A>, a: A)
    ensures
        s.push(a).to_set() == s.to_set().insert(a),
{
    assert forall|x: A| s.push(a).to_set().contains(x) <==> s.to_set().insert(a).contains(x) by {
        if s.push(a).contains(x) {
            let i = choose|i: int| 0 <= i < s.push(a).len() && s.push(a)[i] == x;
            if i < s.len() {
                assert(s[i] == x);
            }
        }
        if s.contains(x) {
            let i = choose|i: int| 0 <= i < s.len() && s[i] == x;
            assert(s.push(a)[i] == x);
        }
        if x == a {
            assert(s.push(a)[s.len() as int] == a);
        }
    }
    assert(s.push(a).to_set() =~= s.to_set().insert(a));
}

} // verus!
