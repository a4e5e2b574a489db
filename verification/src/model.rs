//! The traversal as a mathematical state machine.
//!
//! The traversal expands one kind of vertex after the other: entities, then
//! entity types, property types and data types. Within a phase it works
//! layer by layer; within a layer it asks, for each edge kind of the phase
//! in turn, for the edges that leave the layer's vertices, and absorbs the
//! answer. This module says what each of these moves does to the state. The
//! executable driver is proved to make exactly these moves.

use vstd::prelude::*;
use crate::edges::{EdgeDirection, EdgeKind, KnowledgeGraphEdgeKind, OntologyEdgeKind, SharedEdgeKind};
use crate::frontier::{plan_spec, FrontierItem, RowKey};
use crate::identifier::{EntityIdWithInterval, VertexKey, VertexKind};
use crate::subgraph::EdgeKey;

verus! {

/// The kind of vertex under expansion.
#[derive(Debug, Clone, Copy, PartialEq, Eq, Hash, Structural)]
pub enum Phase {
    Entity,
    EntityType,
    PropertyType,
    DataType,
    Done,
}

/// An edge kind together with the direction in which it is followed.
#[derive(Debug, Clone, Copy, PartialEq, Eq, Hash, Structural)]
pub struct Step {
    pub kind: EdgeKind,
    pub direction: EdgeDirection,
}

impl Phase {
    /// How many phases are still to come, this one included.
    pub open spec fn rank(self) -> nat {
        match self {
            Phase::Entity => 4,
            Phase::EntityType => 3,
            Phase::PropertyType => 2,
            Phase::DataType => 1,
            Phase::Done => 0,
        }
    }

    /// The phase after this one.
    pub open spec fn following(self) -> Phase {
        match self {
            Phase::Entity => Phase::EntityType,
            Phase::EntityType => Phase::PropertyType,
            Phase::PropertyType => Phase::DataType,
            Phase::DataType => Phase::Done,
            Phase::Done => Phase::Done,
        }
    }

    /// The edges that leave a vertex of this phase's kind, in the order in
    /// which a layer follows them.
    pub open spec fn steps(self) -> Seq<Step> {
        match self {
            Phase::Entity => seq![
                Step {
                    kind: EdgeKind::Shared(SharedEdgeKind::IsOfType),
                    direction: EdgeDirection::Outgoing,
                },
                Step {
                    kind: EdgeKind::KnowledgeGraph(KnowledgeGraphEdgeKind::HasLeftEntity),
                    direction: EdgeDirection::Incoming,
                },
                Step {
                    kind: EdgeKind::KnowledgeGraph(KnowledgeGraphEdgeKind::HasRightEntity),
                    direction: EdgeDirection::Incoming,
                },
                Step {
                    kind: EdgeKind::KnowledgeGraph(KnowledgeGraphEdgeKind::HasLeftEntity),
                    direction: EdgeDirection::Outgoing,
                },
                Step {
                    kind: EdgeKind::KnowledgeGraph(KnowledgeGraphEdgeKind::HasRightEntity),
                    direction: EdgeDirection::Outgoing,
                },
            ],
            Phase::EntityType => seq![
                Step {
                    kind: EdgeKind::Ontology(OntologyEdgeKind::ConstrainsPropertiesOn),
                    direction: EdgeDirection::Outgoing,
                },
                Step {
                    kind: EdgeKind::Ontology(OntologyEdgeKind::InheritsFrom),
                    direction: EdgeDirection::Outgoing,
                },
                Step {
                    kind: EdgeKind::Ontology(OntologyEdgeKind::ConstrainsLinksOn),
                    direction: EdgeDirection::Outgoing,
                },
                Step {
                    kind: EdgeKind::Ontology(OntologyEdgeKind::ConstrainsLinkDestinationsOn),
                    direction: EdgeDirection::Outgoing,
                },
            ],
            Phase::PropertyType => seq![
                Step {
                    kind: EdgeKind::Ontology(OntologyEdgeKind::ConstrainsValuesOn),
                    direction: EdgeDirection::Outgoing,
                },
                Step {
                    kind: EdgeKind::Ontology(OntologyEdgeKind::ConstrainsPropertiesOn),
                    direction: EdgeDirection::Outgoing,
                },
            ],
            Phase::DataType => Seq::empty(),
            Phase::Done => Seq::empty(),
        }
    }
}

/// The kind of vertex a resolver names as the target of an edge: an entity
/// across the interval over which the edge holds, or an ontology type.
pub open spec fn target_kind(kind: EdgeKind) -> VertexKind {
    match kind {
        EdgeKind::Ontology(OntologyEdgeKind::ConstrainsValuesOn) => VertexKind::DataType,
        EdgeKind::Ontology(OntologyEdgeKind::ConstrainsPropertiesOn) => VertexKind::PropertyType,
        EdgeKind::Ontology(_) => VertexKind::EntityType,
        EdgeKind::Shared(_) => VertexKind::EntityType,
        EdgeKind::KnowledgeGraph(_) => VertexKind::EntityInterval,
    }
}

/// The phase in which vertices of a kind are expanded.
pub open spec fn frontier_of(kind: VertexKind) -> Phase {
    match kind {
        VertexKind::DataType => Phase::DataType,
        VertexKind::PropertyType => Phase::PropertyType,
        VertexKind::EntityType => Phase::EntityType,
        VertexKind::Entity => Phase::Entity,
        VertexKind::EntityInterval => Phase::Entity,
    }
}

/// One more than the largest total budget in a frontier; zero for an empty one.
pub open spec fn height(frontier: Seq<FrontierItem>) -> nat
    decreases frontier.len(),
{
    if frontier.len() == 0 {
        0
    } else {
        let rest = height(frontier.drop_last());
        let here = frontier.last().depths.total() + 1;
        if rest >= here {
            rest
        } else {
            here
        }
    }
}

/// Every entry of a frontier lies below the frontier's height.
pub proof fn lemma_height_covers(frontier: Seq<FrontierItem>, i: int)
    requires
        0 <= i < frontier.len(),
    ensures
        frontier[i].depths.total() + 1 <= height(frontier),
    decreases frontier.len(),
{
    if i < frontier.len() - 1 {
        lemma_height_covers(frontier.drop_last(), i);
    }
}

/// A bound on every entry of a frontier bounds its height.
pub proof fn lemma_height_bounded(frontier: Seq<FrontierItem>, bound: nat)
    requires
        forall|i: int| 0 <= i < frontier.len() ==> (#[trigger] frontier[i]).depths.total() + 1 <= bound,
    ensures
        height(frontier) <= bound,
    decreases frontier.len(),
{
    if frontier.len() > 0 {
        assert forall|i: int| 0 <= i < frontier.drop_last().len() implies (
        #[trigger] frontier.drop_last()[i]).depths.total() + 1 <= bound by {
            assert(frontier.drop_last()[i] == frontier[i]);
        }
        lemma_height_bounded(frontier.drop_last(), bound);
        assert(frontier[frontier.len() - 1] == frontier.last());
    }
}

/// What a row leads to from the batch entry it names: the vertex to
/// schedule, with the entry's budget and the interval under which the
/// vertex is reached. An ontology type is reached under the entry's own
/// interval. An entity is reached under the part of the entry's interval
/// over which the edge holds, and is named by that part; when the two share
/// no timestamp the row leads nowhere.
pub open spec fn successor(entry: FrontierItem, target: VertexKey) -> Option<FrontierItem> {
    match target {
        VertexKey::EntityInterval(t) => match entry.interval.intersect_spec(t.interval) {
            Some(i) => Some(
                FrontierItem {
                    vertex: VertexKey::EntityInterval(
                        EntityIdWithInterval { entity_id: t.entity_id, interval: i },
                    ),
                    depths: entry.depths,
                    interval: i,
                },
            ),
            None => None,
        },
        _ => Some(FrontierItem { vertex: target, depths: entry.depths, interval: entry.interval }),
    }
}

/// Whether a row answers a batch of `len` sources for an edge of `kind`: it
/// names one of the sources, and its target is of the kind that such an
/// edge leads to.
pub open spec fn row_valid(len: nat, kind: EdgeKind, row: RowKey) -> bool {
    &&& 0 <= row.source_index < len
    &&& row.target.kind() == target_kind(kind)
}

/// Whether every row answers the batch.
pub open spec fn rows_valid(len: nat, kind: EdgeKind, rows: Seq<RowKey>) -> bool {
    forall|i: int| 0 <= i < rows.len() ==> row_valid(len, kind, #[trigger] rows[i])
}

/// The state of a traversal.
pub struct TraversalModel {
    /// The edges found so far.
    pub edges: Set<EdgeKey>,
    /// The vertices scheduled so far: the roots and every vertex enqueued.
    pub scheduled: Set<VertexKey>,
    /// The kind of vertex under expansion.
    pub phase: Phase,
    /// How many of the phase's steps the current layer has behind it.
    pub cursor: nat,
    /// The layer under expansion.
    pub current: Seq<FrontierItem>,
    /// The vertices enqueued for the coming layer or a coming phase.
    pub entity_queue: Seq<FrontierItem>,
    pub entity_type_queue: Seq<FrontierItem>,
    pub property_type_queue: Seq<FrontierItem>,
    pub data_type_queue: Seq<FrontierItem>,
    /// The batch that awaits its rows.
    pub pending: Option<Seq<FrontierItem>>,
}

impl TraversalModel {
    /// The vertices enqueued for a phase.
    pub open spec fn queue(self, phase: Phase) -> Seq<FrontierItem> {
        match phase {
            Phase::Entity => self.entity_queue,
            Phase::EntityType => self.entity_type_queue,
            Phase::PropertyType => self.property_type_queue,
            Phase::DataType => self.data_type_queue,
            Phase::Done => Seq::empty(),
        }
    }

    /// The state with another queue for a phase.
    pub open spec fn with_queue(self, phase: Phase, q: Seq<FrontierItem>) -> TraversalModel {
        match phase {
            Phase::Entity => TraversalModel { entity_queue: q, ..self },
            Phase::EntityType => TraversalModel { entity_type_queue: q, ..self },
            Phase::PropertyType => TraversalModel { property_type_queue: q, ..self },
            Phase::DataType => TraversalModel { data_type_queue: q, ..self },
            Phase::Done => self,
        }
    }

    /// The state with `item` at the end of the queue of its kind.
    pub open spec fn enqueue(self, item: FrontierItem) -> TraversalModel {
        let phase = frontier_of(item.vertex.kind());
        self.with_queue(phase, self.queue(phase).push(item))
    }

    /// The step that the cursor stands at.
    pub open spec fn step(self) -> Step {
        self.phase.steps()[self.cursor as int]
    }

    /// Whether nothing is left to expand.
    pub open spec fn is_done(self) -> bool {
        self.phase is Done
    }

    /// Absorbs one row of the answer to `batch` for `step`. The row's edge
    /// joins the batch entry it names and the vertex it leads to; the edge
    /// enters the edge set, and the vertex, unless it was scheduled before,
    /// is scheduled and enqueued. A row that leads nowhere changes nothing.
    pub open spec fn absorb_row(self, batch: Seq<FrontierItem>, step: Step, row: RowKey) -> TraversalModel {
        match successor(batch[row.source_index], row.target) {
            None => self,
            Some(next) => {
                let edge = EdgeKey {
                    source: batch[row.source_index].vertex,
                    kind: step.kind,
                    direction: step.direction,
                    target: next.vertex,
                };
                let with_edge = TraversalModel { edges: self.edges.insert(edge), ..self };
                if self.scheduled.contains(next.vertex) {
                    with_edge
                } else {
                    TraversalModel {
                        scheduled: self.scheduled.insert(next.vertex),
                        ..with_edge
                    }.enqueue(next)
                }
            },
        }
    }

    /// Absorbs rows one after the other.
    pub open spec fn absorb(self, batch: Seq<FrontierItem>, step: Step, rows: Seq<RowKey>) -> TraversalModel
        decreases rows.len(),
    {
        if rows.len() == 0 {
            self
        } else {
            self.absorb(batch, step, rows.drop_last()).absorb_row(batch, step, rows.last())
        }
    }

    /// The state after the pending batch was answered with `rows`: the rows
    /// are absorbed and the cursor moves past the step.
    pub open spec fn supply(self, rows: Seq<RowKey>) -> TraversalModel {
        let absorbed = self.absorb(self.pending.unwrap(), self.step(), rows);
        TraversalModel { cursor: self.cursor + 1, pending: None, ..absorbed }
    }

    /// The state with the next layer of the phase as the current one.
    pub open spec fn next_layer(self) -> TraversalModel {
        TraversalModel { current: self.queue(self.phase), cursor: 0, ..self }.with_queue(
            self.phase,
            Seq::empty(),
        )
    }

    /// The state at the start of the following phase.
    pub open spec fn next_phase(self) -> TraversalModel {
        let phase = self.phase.following();
        TraversalModel { phase, current: self.queue(phase), cursor: 0, ..self }.with_queue(
            phase,
            Seq::empty(),
        )
    }

    /// Whether the coming layer lies strictly below the current one: every
    /// entry enqueued for it has at least one edge less to go than some entry
    /// of the current layer.
    pub open spec fn layered(self) -> bool {
        forall|i: int|
            0 <= i < self.queue(self.phase).len() ==> (#[trigger] self.queue(
                self.phase,
            )[i]).depths.total() + 2 <= height(self.current)
    }

    /// Moves on to the next batch that is not empty, or to the end. Steps
    /// whose batch is empty are passed over; a layer whose steps are all
    /// behind it gives way to the next layer, and a phase without a further
    /// layer to the following phase.
    pub open spec fn advance(self) -> TraversalModel
        decreases self.phase.rank(), height(self.current), self.phase.steps().len() - self.cursor,
        when self.layered() && self.cursor <= self.phase.steps().len()
        via Self::advance_terminates
    {
        if self.phase is Done {
            self
        } else if self.cursor < self.phase.steps().len() {
            let batch = plan_spec(self.current, self.step().kind);
            if batch.len() > 0 {
                TraversalModel { pending: Some(batch), ..self }
            } else {
                TraversalModel { cursor: self.cursor + 1, ..self }.advance()
            }
        } else if self.queue(self.phase).len() > 0 {
            self.next_layer().advance()
        } else {
            self.next_phase().advance()
        }
    }

    /// The state before any root is seeded.
    pub open spec fn start(phase: Phase) -> TraversalModel {
        TraversalModel {
            edges: Set::empty(),
            scheduled: Set::empty(),
            phase,
            cursor: 0,
            current: Seq::empty(),
            entity_queue: Seq::empty(),
            entity_type_queue: Seq::empty(),
            property_type_queue: Seq::empty(),
            data_type_queue: Seq::empty(),
            pending: None,
        }
    }

    /// Seeds one root: unless it was seeded before, it is scheduled and
    /// joins the first layer with the whole budget and the query's interval.
    pub open spec fn seed_root(
        self,
        root: VertexKey,
        depths: crate::depths::GraphResolveDepths,
        interval: crate::temporal::TemporalInterval,
    ) -> TraversalModel {
        if self.scheduled.contains(root) {
            self
        } else {
            TraversalModel {
                scheduled: self.scheduled.insert(root),
                current: self.current.push(FrontierItem { vertex: root, depths, interval }),
                ..self
            }
        }
    }

    /// The state after the roots were seeded one after the other.
    pub open spec fn seeded(
        phase: Phase,
        roots: Seq<VertexKey>,
        depths: crate::depths::GraphResolveDepths,
        interval: crate::temporal::TemporalInterval,
    ) -> TraversalModel
        decreases roots.len(),
    {
        if roots.len() == 0 {
            Self::start(phase)
        } else {
            Self::seeded(phase, roots.drop_last(), depths, interval).seed_root(
                roots.last(),
                depths,
                interval,
            )
        }
    }

    #[via_fn]
    proof fn advance_terminates(self) {
        if !(self.phase is Done) && self.cursor >= self.phase.steps().len() {
            if self.queue(self.phase).len() > 0 {
                let q = self.queue(self.phase);
                assert(self.next_layer().current == q);
                assert(self.next_layer().phase == self.phase);
                assert(q[0].depths.total() + 2 <= height(self.current));
                assert forall|i: int| 0 <= i < q.len() implies (#[trigger] q[i]).depths.total() + 1
                    <= (height(self.current) - 1) as nat by {}
                lemma_height_bounded(q, (height(self.current) - 1) as nat);
            } else {
                assert(self.next_phase().phase.rank() < self.phase.rank());
            }
        }
    }
}

/// The coming layer of a phase lies strictly below the current one.
pub proof fn lemma_next_layer_lower(m: TraversalModel)
    requires
        m.layered(),
        m.queue(m.phase).len() > 0,
    ensures
        height(m.queue(m.phase)) < height(m.current),
{
    let q = m.queue(m.phase);
    assert(q[0].depths.total() + 2 <= height(m.current));
    assert forall|i: int| 0 <= i < q.len() implies (#[trigger] q[i]).depths.total() + 1 <= (height(
        m.current,
    ) - 1) as nat by {}
    lemma_height_bounded(q, (height(m.current) - 1) as nat);
}

} // verus!
