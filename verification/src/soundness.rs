//! What holds of every state of a traversal, and why each move keeps it.

use vstd::prelude::*;
use crate::depths::GraphResolveDepths;
use crate::frontier::{lemma_plan_origin, plan_spec, FrontierItem, RowKey};
use crate::identifier::VertexKey;
use crate::model::{
    frontier_of, height, lemma_height_covers, row_valid, rows_valid, successor, target_kind, Phase,
    Step, TraversalModel,
};
use crate::subgraph::EdgeKey;
use crate::temporal::TemporalInterval;
use crate::trail::{
    lemma_reached_extend, lemma_reached_is_within, lemma_reached_monotone, reached_with,
    within_budget,
};

verus! {

/// What a query fixes before the traversal starts.
pub struct QueryFrame {
    /// The vertices that root selection returned.
    pub roots: Set<VertexKey>,
    /// The depth budget.
    pub depths: GraphResolveDepths,
    /// The interval of the variable axis.
    pub interval: TemporalInterval,
}

/// What holds of a frontier entry: its vertex is scheduled; some trail from
/// a root reaches the vertex and leaves exactly the entry's budget; the
/// entry's interval lies within the query's; and an entity reached over an
/// interval is named by that interval.
pub open spec fn item_ok(
    edges: Set<EdgeKey>,
    scheduled: Set<VertexKey>,
    frame: QueryFrame,
    item: FrontierItem,
) -> bool {
    &&& scheduled.contains(item.vertex)
    &&& reached_with(edges, frame.roots, frame.depths, item.vertex, item.depths)
    &&& item.interval.is_subset_of(frame.interval)
    &&& item.vertex matches VertexKey::EntityInterval(t) ==> t.interval == item.interval
}

/// What holds of a scheduled vertex: some trail from a root reaches it
/// within the budget; and if it is an entity reached over an interval, that
/// interval holds a timestamp and lies within the query's.
pub open spec fn vertex_ok(edges: Set<EdgeKey>, frame: QueryFrame, v: VertexKey) -> bool {
    &&& within_budget(edges, frame.roots, frame.depths, v)
    &&& v matches VertexKey::EntityInterval(t) ==> t.interval.is_subset_of(frame.interval)
        && !t.interval.is_empty_spec()
}

/// What holds of a frontier of one phase.
pub open spec fn frontier_ok(
    edges: Set<EdgeKey>,
    scheduled: Set<VertexKey>,
    frame: QueryFrame,
    frontier: Seq<FrontierItem>,
    phase: Phase,
) -> bool {
    forall|i: int|
        0 <= i < frontier.len() ==> item_ok(edges, scheduled, frame, #[trigger] frontier[i])
            && frontier_of(frontier[i].vertex.kind()) == phase
}

/// Both ends of every edge are scheduled.
pub open spec fn ends_scheduled(edges: Set<EdgeKey>, scheduled: Set<VertexKey>) -> bool {
    forall|e: EdgeKey| #[trigger]
        edges.contains(e) ==> scheduled.contains(e.source) && scheduled.contains(e.target)
}

/// Every scheduled vertex is in order.
pub open spec fn scheduled_ok(
    edges: Set<EdgeKey>,
    scheduled: Set<VertexKey>,
    frame: QueryFrame,
) -> bool {
    forall|v: VertexKey| #[trigger] scheduled.contains(v) ==> vertex_ok(edges, frame, v)
}

impl TraversalModel {
    /// The part of the invariant that concerns the order of the moves.
    #[verifier::opaque]
    pub open spec fn ordered(self) -> bool {
        &&& self.cursor <= self.phase.steps().len()
        &&& self.layered()
        &&& (self.pending matches Some(b) ==> self.cursor < self.phase.steps().len() && b
            == plan_spec(self.current, self.step().kind) && b.len() > 0)
        &&& (self.phase is Done ==> self.current.len() == 0 && self.pending is None)
        &&& forall|p: Phase| p.rank() > self.phase.rank() ==> (#[trigger] self.queue(p)).len() == 0
    }

    /// The part of the invariant that concerns what was found.
    #[verifier::opaque]
    pub open spec fn sound(self, frame: QueryFrame) -> bool {
        &&& frontier_ok(self.edges, self.scheduled, frame, self.current, self.phase)
        &&& forall|p: Phase|
            frontier_ok(self.edges, self.scheduled, frame, #[trigger] self.queue(p), p)
        &&& frame.roots.subset_of(self.scheduled)
        &&& ends_scheduled(self.edges, self.scheduled)
        &&& scheduled_ok(self.edges, self.scheduled, frame)
    }

    /// The invariant of a traversal.
    pub open spec fn inv(self, frame: QueryFrame) -> bool {
        self.ordered() && self.sound(frame)
    }

    /// Whether two states differ at most in what absorbing rows may change:
    /// the edges, the scheduled vertices and the queues.
    pub open spec fn same_position(self, other: TraversalModel) -> bool {
        &&& self.phase == other.phase
        &&& self.cursor == other.cursor
        &&& self.current == other.current
        &&& self.pending == other.pending
    }
}

/// An entry stays in order when edges and scheduled vertices are added.
pub proof fn lemma_item_ok_monotone(
    edges: Set<EdgeKey>,
    scheduled: Set<VertexKey>,
    more_edges: Set<EdgeKey>,
    more_scheduled: Set<VertexKey>,
    frame: QueryFrame,
    item: FrontierItem,
)
    requires
        edges.subset_of(more_edges),
        scheduled.subset_of(more_scheduled),
        item_ok(edges, scheduled, frame, item),
    ensures
        item_ok(more_edges, more_scheduled, frame, item),
{
    lemma_reached_monotone(edges, more_edges, frame.roots, frame.depths, item.vertex, item.depths);
}

/// A frontier stays in order when edges and scheduled vertices are added.
pub proof fn lemma_frontier_ok_monotone(
    edges: Set<EdgeKey>,
    scheduled: Set<VertexKey>,
    more_edges: Set<EdgeKey>,
    more_scheduled: Set<VertexKey>,
    frame: QueryFrame,
    frontier: Seq<FrontierItem>,
    phase: Phase,
)
    requires
        edges.subset_of(more_edges),
        scheduled.subset_of(more_scheduled),
        frontier_ok(edges, scheduled, frame, frontier, phase),
    ensures
        frontier_ok(more_edges, more_scheduled, frame, frontier, phase),
{
    assert forall|i: int| 0 <= i < frontier.len() implies item_ok(
        more_edges,
        more_scheduled,
        frame,
        #[trigger] frontier[i],
    ) && frontier_of(frontier[i].vertex.kind()) == phase by {
        lemma_item_ok_monotone(edges, scheduled, more_edges, more_scheduled, frame, frontier[i]);
    }
}

/// The scheduled vertices stay in order when edges are added.
pub proof fn lemma_scheduled_ok_monotone(
    edges: Set<EdgeKey>,
    more_edges: Set<EdgeKey>,
    scheduled: Set<VertexKey>,
    frame: QueryFrame,
)
    requires
        edges.subset_of(more_edges),
        scheduled_ok(edges, scheduled, frame),
    ensures
        scheduled_ok(more_edges, scheduled, frame),
{
    assert forall|v: VertexKey| #[trigger] scheduled.contains(v) implies vertex_ok(
        more_edges,
        frame,
        v,
    ) by {
        assert(vertex_ok(edges, frame, v));
        lemma_reached_monotone(edges, more_edges, frame.roots, frame.depths, v, frame.depths);
    }
}

/// Every step of a phase leads to a vertex of that phase or a later one.
pub proof fn lemma_step_leads_on(phase: Phase, cursor: int)
    requires
        0 <= cursor < phase.steps().len(),
    ensures
        frontier_of(target_kind(phase.steps()[cursor].kind)).rank() <= phase.rank(),
        frontier_of(target_kind(phase.steps()[cursor].kind)).rank() > 0,
{
    match phase {
        Phase::Entity => {
            assert(phase.steps().len() == 5);
            if cursor == 0 {
            } else if cursor == 1 {
            } else if cursor == 2 {
            } else if cursor == 3 {
            } else {
            }
        },
        Phase::EntityType => {
            assert(phase.steps().len() == 4);
            if cursor == 0 {
            } else if cursor == 1 {
            } else if cursor == 2 {
            } else {
            }
        },
        Phase::PropertyType => {
            assert(phase.steps().len() == 2);
            if cursor == 0 {
            } else {
            }
        },
        _ => {},
    }
}

/// What a valid row leads to is of the kind that the step leads to, carries
/// the batch entry's budget, and lies within the entry's interval.
pub proof fn lemma_successor(entry: FrontierItem, kind: crate::edges::EdgeKind, target: VertexKey)
    requires
        target.kind() == target_kind(kind),
        successor(entry, target) is Some,
    ensures
        frontier_of(successor(entry, target).unwrap().vertex.kind()) == frontier_of(
            target_kind(kind),
        ),
        successor(entry, target).unwrap().depths == entry.depths,
        successor(entry, target).unwrap().interval.is_subset_of(entry.interval),
        !entry.interval.is_empty_spec() ==> !successor(entry, target).unwrap().interval.is_empty_spec(),
        successor(entry, target).unwrap().vertex matches VertexKey::EntityInterval(t) ==> t.interval
            == successor(entry, target).unwrap().interval && !t.interval.is_empty_spec(),
{
    match target {
        VertexKey::EntityInterval(t) => {
            entry.interval.lemma_meet_members(t.interval);
        },
        _ => {},
    }
}

/// Enqueueing lengthens the queue of the entry's kind and leaves the rest.
pub proof fn lemma_enqueue(m: TraversalModel, item: FrontierItem)
    ensures
        m.enqueue(item).same_position(m),
        m.enqueue(item).edges == m.edges,
        m.enqueue(item).scheduled == m.scheduled,
        forall|p: Phase| #[trigger]
            m.enqueue(item).queue(p) == if p == frontier_of(item.vertex.kind()) {
                m.queue(p).push(item)
            } else {
                m.queue(p)
            },
{
}

/// What the order of the moves says of a pending batch and of the cursor.
pub proof fn lemma_ordered_facts(m: TraversalModel)
    requires
        m.ordered(),
    ensures
        m.cursor <= m.phase.steps().len(),
        m.layered(),
        m.pending matches Some(b) ==> m.cursor < m.phase.steps().len() && b == plan_spec(
            m.current,
            m.step().kind,
        ) && b.len() > 0,
        m.phase is Done ==> m.current.len() == 0 && m.pending is None,
        forall|p: Phase| p.rank() > m.phase.rank() ==> (#[trigger] m.queue(p)).len() == 0,
{
    reveal(TraversalModel::ordered);
}

/// The entry of the current layer that a batch entry comes from is in order.
proof fn lemma_origin(m: TraversalModel, frame: QueryFrame, j: int) -> (i: int)
    requires
        m.sound(frame),
        m.pending is Some,
        m.pending.unwrap() == plan_spec(m.current, m.step().kind),
        0 <= j < m.pending.unwrap().len(),
    ensures
        0 <= i < m.current.len(),
        m.current[i].depths.decrement_spec(m.step().kind) == Some(m.pending.unwrap()[j].depths),
        m.current[i].vertex == m.pending.unwrap()[j].vertex,
        m.current[i].interval == m.pending.unwrap()[j].interval,
        item_ok(m.edges, m.scheduled, frame, m.current[i]),
        m.pending.unwrap()[j].depths.total() + 2 <= height(m.current),
{
    reveal(TraversalModel::sound);
    let batch = m.pending.unwrap();
    lemma_plan_origin(m.current, m.step().kind, j);
    let i = choose|i: int|
        0 <= i < m.current.len() && (#[trigger] m.current[i]).depths.decrement_spec(m.step().kind)
            == Some(batch[j].depths) && m.current[i].vertex == batch[j].vertex
            && m.current[i].interval == batch[j].interval;
    m.current[i].depths.lemma_decrement(m.step().kind);
    lemma_height_covers(m.current, i);
    i
}

/// What a valid row leads to is in order once its edge is in the edge set
/// and its vertex among the scheduled.
proof fn lemma_next_ok(
    edges: Set<EdgeKey>,
    scheduled: Set<VertexKey>,
    frame: QueryFrame,
    origin: FrontierItem,
    entry: FrontierItem,
    step: Step,
    target: VertexKey,
)
    requires
        item_ok(edges, scheduled, frame, origin),
        origin.depths.decrement_spec(step.kind) == Some(entry.depths),
        origin.vertex == entry.vertex,
        origin.interval == entry.interval,
        target.kind() == target_kind(step.kind),
        successor(entry, target) is Some,
    ensures
        ({
            let next = successor(entry, target).unwrap();
            let edge = EdgeKey {
                source: entry.vertex,
                kind: step.kind,
                direction: step.direction,
                target: next.vertex,
            };
            &&& item_ok(edges.insert(edge), scheduled.insert(next.vertex), frame, next)
            &&& vertex_ok(edges.insert(edge), frame, next.vertex)
            &&& frontier_of(next.vertex.kind()) == frontier_of(target_kind(step.kind))
            &&& next.depths == entry.depths
        }),
{
    let next = successor(entry, target).unwrap();
    let edge = EdgeKey {
        source: entry.vertex,
        kind: step.kind,
        direction: step.direction,
        target: next.vertex,
    };
    lemma_successor(entry, step.kind, target);
    lemma_reached_extend(edges, frame.roots, frame.depths, origin.depths, edge);
    entry.interval.lemma_subset_transitive(entry.interval, frame.interval);
    next.interval.lemma_subset_transitive(entry.interval, frame.interval);
    lemma_reached_is_within(edges.insert(edge), frame.roots, frame.depths, next.vertex, next.depths);
}

/// The order of the moves survives a state that differs from an ordered one
/// by at most one entry at the end of a queue of the phase or a later one.
proof fn lemma_ordered_after(
    m: TraversalModel,
    after: TraversalModel,
    next: FrontierItem,
    home: Phase,
    pushed: bool,
)
    requires
        m.ordered(),
        after.same_position(m),
        forall|p: Phase| #[trigger]
            after.queue(p) == if pushed && p == home {
                m.queue(p).push(next)
            } else {
                m.queue(p)
            },
        home.rank() <= m.phase.rank(),
        next.depths.total() + 2 <= height(m.current),
    ensures
        after.ordered(),
{
    reveal(TraversalModel::ordered);
    assert forall|p: Phase| p.rank() > after.phase.rank() implies (#[trigger] after.queue(p)).len()
        == 0 by {
        assert(m.queue(p).len() == 0);
    }
    assert forall|j: int| 0 <= j < after.queue(after.phase).len() implies (#[trigger] after.queue(
        after.phase,
    )[j]).depths.total() + 2 <= height(after.current) by {
        if j < m.queue(m.phase).len() {
            assert(after.queue(after.phase)[j] == m.queue(m.phase)[j]);
        }
    }
}

/// What was found stays sound when one edge is added whose source was
/// scheduled and whose target is scheduled with it.
proof fn lemma_sound_after(
    m: TraversalModel,
    after: TraversalModel,
    frame: QueryFrame,
    edge: EdgeKey,
    next: FrontierItem,
    pushed: bool,
)
    requires
        m.sound(frame),
        after.same_position(m),
        after.edges == m.edges.insert(edge),
        after.scheduled == m.scheduled.insert(next.vertex),
        forall|p: Phase| #[trigger]
            after.queue(p) == if pushed && p == frontier_of(next.vertex.kind()) {
                m.queue(p).push(next)
            } else {
                m.queue(p)
            },
        m.scheduled.contains(edge.source),
        edge.target == next.vertex,
        item_ok(after.edges, after.scheduled, frame, next),
        vertex_ok(after.edges, frame, next.vertex),
    ensures
        after.sound(frame),
{
    reveal(TraversalModel::sound);
    lemma_frontier_ok_monotone(
        m.edges,
        m.scheduled,
        after.edges,
        after.scheduled,
        frame,
        m.current,
        m.phase,
    );
    assert forall|p: Phase|
        frontier_ok(after.edges, after.scheduled, frame, #[trigger] after.queue(p), p) by {
        assert(frontier_ok(m.edges, m.scheduled, frame, m.queue(p), p));
        lemma_frontier_ok_monotone(
            m.edges,
            m.scheduled,
            after.edges,
            after.scheduled,
            frame,
            m.queue(p),
            p,
        );
        assert forall|j: int| 0 <= j < after.queue(p).len() implies item_ok(
            after.edges,
            after.scheduled,
            frame,
            #[trigger] after.queue(p)[j],
        ) && frontier_of(after.queue(p)[j].vertex.kind()) == p by {
            if j < m.queue(p).len() {
                assert(after.queue(p)[j] == m.queue(p)[j]);
            } else {
                assert(after.queue(p)[j] == next);
            }
        }
    }
    lemma_scheduled_ok_monotone(m.edges, after.edges, m.scheduled, frame);
    assert forall|v: VertexKey| #[trigger] after.scheduled.contains(v) implies vertex_ok(
        after.edges,
        frame,
        v,
    ) by {
        if !m.scheduled.contains(v) {
            assert(v == next.vertex);
        }
    }
    assert forall|e: EdgeKey| #[trigger] after.edges.contains(e) implies after.scheduled.contains(
        e.source,
    ) && after.scheduled.contains(e.target) by {
        if !m.edges.contains(e) {
            assert(e == edge);
        }
    }
}

/// Absorbing a valid row keeps the invariant, leaves the position, and
/// only adds to the edges and the scheduled vertices.
pub proof fn lemma_absorb_row_inv(m: TraversalModel, frame: QueryFrame, row: RowKey)
    requires
        m.inv(frame),
        m.pending is Some,
        row_valid(m.pending.unwrap().len(), m.step().kind, row),
    ensures
        m.absorb_row(m.pending.unwrap(), m.step(), row).inv(frame),
        m.absorb_row(m.pending.unwrap(), m.step(), row).same_position(m),
        m.edges.subset_of(m.absorb_row(m.pending.unwrap(), m.step(), row).edges),
        m.scheduled.subset_of(m.absorb_row(m.pending.unwrap(), m.step(), row).scheduled),
{
    let batch = m.pending.unwrap();
    let step = m.step();
    let entry = batch[row.source_index];
    let after = m.absorb_row(batch, step, row);
    match successor(entry, row.target) {
        None => {},
        Some(next) => {
            lemma_ordered_facts(m);
            let i = lemma_origin(m, frame, row.source_index);
            let origin = m.current[i];
            lemma_next_ok(m.edges, m.scheduled, frame, origin, entry, step, row.target);
            lemma_step_leads_on(m.phase, m.cursor as int);
            let edge = EdgeKey {
                source: entry.vertex,
                kind: step.kind,
                direction: step.direction,
                target: next.vertex,
            };
            let with_edge = TraversalModel { edges: m.edges.insert(edge), ..m };
            let scheduled_too = TraversalModel {
                scheduled: m.scheduled.insert(next.vertex),
                ..with_edge
            };
            lemma_enqueue(scheduled_too, next);
            let home = frontier_of(next.vertex.kind());
            let pushed = !m.scheduled.contains(next.vertex);
            if !pushed {
                assert(m.scheduled.insert(next.vertex) =~= m.scheduled);
            }
            assert(after.edges == m.edges.insert(edge));
            assert(after.scheduled == m.scheduled.insert(next.vertex));
            assert(after.same_position(m));
            assert forall|p: Phase| #[trigger]
                after.queue(p) == if pushed && p == home {
                    m.queue(p).push(next)
                } else {
                    m.queue(p)
                } by {
                if pushed {
                    assert(after.queue(p) == scheduled_too.enqueue(next).queue(p));
                    assert(scheduled_too.queue(p) == m.queue(p));
                }
            }
            lemma_ordered_after(m, after, next, home, pushed);
            lemma_sound_after(m, after, frame, edge, next, pushed);
        },
    }
}

/// Absorbing valid rows keeps the invariant, leaves the position, and only
/// adds to the edges and the scheduled vertices.
pub proof fn lemma_absorb_inv(m: TraversalModel, frame: QueryFrame, rows: Seq<RowKey>)
    requires
        m.inv(frame),
        m.pending is Some,
        rows_valid(m.pending.unwrap().len(), m.step().kind, rows),
    ensures
        m.absorb(m.pending.unwrap(), m.step(), rows).inv(frame),
        m.absorb(m.pending.unwrap(), m.step(), rows).same_position(m),
        m.edges.subset_of(m.absorb(m.pending.unwrap(), m.step(), rows).edges),
        m.scheduled.subset_of(m.absorb(m.pending.unwrap(), m.step(), rows).scheduled),
    decreases rows.len(),
{
    if rows.len() > 0 {
        let front = rows.drop_last();
        assert forall|i: int| 0 <= i < front.len() implies row_valid(
            m.pending.unwrap().len(),
            m.step().kind,
            #[trigger] front[i],
        ) by {
            assert(front[i] == rows[i]);
        }
        lemma_absorb_inv(m, frame, front);
        let mid = m.absorb(m.pending.unwrap(), m.step(), front);
        assert(mid.step() == m.step());
        assert(row_valid(m.pending.unwrap().len(), m.step().kind, rows[rows.len() - 1]));
        lemma_absorb_row_inv(mid, frame, rows.last());
    }
}

/// Moving the cursor and setting or clearing the pending batch touches
/// nothing that soundness speaks of.
proof fn lemma_sound_same_found(m: TraversalModel, after: TraversalModel, frame: QueryFrame)
    requires
        m.sound(frame),
        after.edges == m.edges,
        after.scheduled == m.scheduled,
        after.phase == m.phase,
        after.current == m.current,
        forall|p: Phase| #[trigger] after.queue(p) == m.queue(p),
    ensures
        after.sound(frame),
{
    reveal(TraversalModel::sound);
    assert forall|p: Phase|
        frontier_ok(after.edges, after.scheduled, frame, #[trigger] after.queue(p), p) by {
        assert(frontier_ok(m.edges, m.scheduled, frame, m.queue(p), p));
    }
}

/// Answering the pending batch with valid rows keeps the invariant, moves
/// the cursor by one, and only adds to the edges and the scheduled vertices.
pub proof fn lemma_supply_inv(m: TraversalModel, frame: QueryFrame, rows: Seq<RowKey>)
    requires
        m.inv(frame),
        m.pending is Some,
        rows_valid(m.pending.unwrap().len(), m.step().kind, rows),
    ensures
        m.supply(rows).inv(frame),
        m.supply(rows).pending is None,
        m.supply(rows).phase == m.phase,
        m.supply(rows).current == m.current,
        m.supply(rows).cursor == m.cursor + 1,
        m.edges.subset_of(m.supply(rows).edges),
        m.scheduled.subset_of(m.supply(rows).scheduled),
{
    lemma_absorb_inv(m, frame, rows);
    let absorbed = m.absorb(m.pending.unwrap(), m.step(), rows);
    let after = m.supply(rows);
    assert(after == TraversalModel { cursor: m.cursor + 1, pending: None, ..absorbed });
    lemma_sound_same_found(absorbed, after, frame);
    lemma_ordered_moved(absorbed, after);
}

/// The order of the moves survives the step past an answered batch.
proof fn lemma_ordered_moved(m: TraversalModel, after: TraversalModel)
    requires
        m.ordered(),
        m.pending is Some,
        after == (TraversalModel { cursor: m.cursor + 1, pending: None, ..m }),
    ensures
        after.ordered(),
{
    reveal(TraversalModel::ordered);
    assert forall|p: Phase| p.rank() > after.phase.rank() implies (#[trigger] after.queue(p)).len()
        == 0 by {
        assert(m.queue(p).len() == 0);
    }
    assert(after.queue(after.phase) == m.queue(m.phase));
}

/// Whether `later` has come at least as far as `earlier`: it is in a later
/// phase, or in the same phase at a lower layer, or in the same layer at a
/// step no earlier.
pub open spec fn no_earlier(later: TraversalModel, earlier: TraversalModel) -> bool {
    ||| later.phase.rank() < earlier.phase.rank()
    ||| (later.phase == earlier.phase && height(later.current) < height(earlier.current))
    ||| (later.phase == earlier.phase && height(later.current) == height(earlier.current)
        && later.cursor >= earlier.cursor)
}

/// Moving on keeps the invariant and what was found, never goes back, and
/// ends at a batch that is not empty or at the end of the traversal.
pub proof fn lemma_advance_inv(m: TraversalModel, frame: QueryFrame)
    requires
        m.inv(frame),
        m.pending is None,
    ensures
        m.advance().inv(frame),
        m.advance().edges == m.edges,
        m.advance().scheduled == m.scheduled,
        m.advance().pending is Some || m.advance().is_done(),
        no_earlier(m.advance(), m),
    decreases m.phase.rank(), height(m.current), m.phase.steps().len() - m.cursor,
{
    reveal(TraversalModel::ordered);
    reveal(TraversalModel::sound);
    if m.phase is Done {
    } else if m.cursor < m.phase.steps().len() {
        let batch = plan_spec(m.current, m.step().kind);
        if batch.len() > 0 {
            let after = TraversalModel { pending: Some(batch), ..m };
            assert(after.ordered()) by {
                assert forall|p: Phase| p.rank() > after.phase.rank() implies (
                #[trigger] after.queue(p)).len() == 0 by {
                    assert(m.queue(p).len() == 0);
                }
                assert(after.queue(after.phase) == m.queue(m.phase));
            }
            assert(after.sound(frame)) by {
                assert forall|p: Phase|
                    frontier_ok(after.edges, after.scheduled, frame, #[trigger] after.queue(p), p) by {
                    assert(frontier_ok(m.edges, m.scheduled, frame, m.queue(p), p));
                }
            }
        } else {
            let next = TraversalModel { cursor: m.cursor + 1, ..m };
            assert(next.ordered()) by {
                assert forall|p: Phase| p.rank() > next.phase.rank() implies (#[trigger] next.queue(
                    p,
                )).len() == 0 by {
                    assert(m.queue(p).len() == 0);
                }
                assert(next.queue(next.phase) == m.queue(m.phase));
            }
            assert(next.sound(frame)) by {
                assert forall|p: Phase|
                    frontier_ok(next.edges, next.scheduled, frame, #[trigger] next.queue(p), p) by {
                    assert(frontier_ok(m.edges, m.scheduled, frame, m.queue(p), p));
                }
            }
            lemma_advance_inv(next, frame);
        }
    } else if m.queue(m.phase).len() > 0 {
        let next = m.next_layer();
        let q = m.queue(m.phase);
        assert(next.current == q);
        assert(next.phase == m.phase);
        assert(q[0].depths.total() + 2 <= height(m.current));
        assert forall|i: int| 0 <= i < q.len() implies (#[trigger] q[i]).depths.total() + 1 <= (
        height(m.current) - 1) as nat by {}
        crate::model::lemma_height_bounded(q, (height(m.current) - 1) as nat);
        assert(next.ordered()) by {
            assert(next.queue(next.phase).len() == 0);
            assert forall|p: Phase| p.rank() > next.phase.rank() implies (#[trigger] next.queue(
                p,
            )).len() == 0 by {
                assert(m.queue(p).len() == 0);
            }
        }
        assert(next.sound(frame)) by {
            assert(frontier_ok(m.edges, m.scheduled, frame, m.queue(m.phase), m.phase));
            assert forall|p: Phase|
                frontier_ok(next.edges, next.scheduled, frame, #[trigger] next.queue(p), p) by {
                assert(frontier_ok(m.edges, m.scheduled, frame, m.queue(p), p));
            }
        }
        lemma_advance_inv(next, frame);
    } else {
        let next = m.next_phase();
        let phase = m.phase.following();
        assert(next.phase == phase);
        assert(next.current == m.queue(phase));
        assert(next.ordered()) by {
            assert(next.queue(next.phase).len() == 0);
            assert forall|p: Phase| p.rank() > next.phase.rank() implies (#[trigger] next.queue(
                p,
            )).len() == 0 by {
                if p != m.phase {
                    assert(m.queue(p).len() == 0);
                }
            }
        }
        assert(next.sound(frame)) by {
            assert(frontier_ok(m.edges, m.scheduled, frame, m.queue(phase), phase));
            assert forall|p: Phase|
                frontier_ok(next.edges, next.scheduled, frame, #[trigger] next.queue(p), p) by {
                assert(frontier_ok(m.edges, m.scheduled, frame, m.queue(p), p));
            }
        }
        lemma_advance_inv(next, frame);
    }
}

/// The kind of root that a phase starts from.
pub open spec fn root_kind(phase: Phase) -> crate::identifier::VertexKind {
    match phase {
        Phase::Entity => crate::identifier::VertexKind::Entity,
        Phase::EntityType => crate::identifier::VertexKind::EntityType,
        Phase::PropertyType => crate::identifier::VertexKind::PropertyType,
        _ => crate::identifier::VertexKind::DataType,
    }
}

/// The frame of a query with the given roots.
pub open spec fn frame_of(
    roots: Seq<VertexKey>,
    depths: GraphResolveDepths,
    interval: TemporalInterval,
) -> QueryFrame {
    QueryFrame { roots: roots.to_set(), depths, interval }
}

/// After seeding, the roots and nothing else are scheduled, no edge is
/// known, nothing is enqueued and nothing pending, and the first layer
/// holds roots only, each with the whole budget and the query's interval.
pub proof fn lemma_seeded_shape(
    phase: Phase,
    roots: Seq<VertexKey>,
    depths: GraphResolveDepths,
    interval: TemporalInterval,
)
    ensures
        ({
            let m = TraversalModel::seeded(phase, roots, depths, interval);
            &&& m.scheduled == roots.to_set()
            &&& m.edges == Set::<EdgeKey>::empty()
            &&& m.phase == phase
            &&& m.cursor == 0
            &&& m.pending is None
            &&& forall|p: Phase| (#[trigger] m.queue(p)).len() == 0
            &&& forall|i: int|
                0 <= i < m.current.len() ==> roots.contains((#[trigger] m.current[i]).vertex)
                    && m.current[i].depths == depths && m.current[i].interval == interval
        }),
    decreases roots.len(),
{
    let m = TraversalModel::seeded(phase, roots, depths, interval);
    if roots.len() == 0 {
        assert(m.scheduled =~= roots.to_set());
    } else {
        let front = roots.drop_last();
        let before = TraversalModel::seeded(phase, front, depths, interval);
        lemma_seeded_shape(phase, front, depths, interval);
        assert forall|k: VertexKey| m.scheduled.contains(k) <==> roots.to_set().contains(k) by {
            if roots.contains(k) {
                let i = choose|i: int| 0 <= i < roots.len() && roots[i] == k;
                if i < front.len() {
                    assert(front[i] == k);
                    assert(front.contains(k));
                }
            }
            if front.contains(k) {
                let i = choose|i: int| 0 <= i < front.len() && front[i] == k;
                assert(roots[i] == k);
            }
            assert(roots[roots.len() - 1] == roots.last());
        }
        assert(m.scheduled =~= roots.to_set());
        assert forall|p: Phase| (#[trigger] m.queue(p)).len() == 0 by {
            assert(before.queue(p).len() == 0);
        }
        assert forall|i: int| 0 <= i < m.current.len() implies roots.contains(
            (#[trigger] m.current[i]).vertex,
        ) && m.current[i].depths == depths && m.current[i].interval == interval by {
            if i < before.current.len() {
                assert(m.current[i] == before.current[i]);
                let j = choose|j: int| 0 <= j < front.len() && front[j] == before.current[i].vertex;
                assert(roots[j] == front[j]);
            } else {
                assert(roots[roots.len() - 1] == roots.last());
            }
        }
    }
}

/// Seeding roots of the kind that the phase starts from establishes the
/// invariant.
pub proof fn lemma_seeded_inv(
    phase: Phase,
    roots: Seq<VertexKey>,
    depths: GraphResolveDepths,
    interval: TemporalInterval,
)
    requires
        !(phase is Done),
        forall|i: int| 0 <= i < roots.len() ==> (#[trigger] roots[i]).kind() == root_kind(phase),
    ensures
        TraversalModel::seeded(phase, roots, depths, interval).inv(
            frame_of(roots, depths, interval),
        ),
{
    reveal(TraversalModel::ordered);
    reveal(TraversalModel::sound);
    let m = TraversalModel::seeded(phase, roots, depths, interval);
    let frame = frame_of(roots, depths, interval);
    lemma_seeded_shape(phase, roots, depths, interval);
    assert(m.ordered()) by {
        assert(m.queue(m.phase).len() == 0);
    }
    assert forall|v: VertexKey| #[trigger] m.scheduled.contains(v) implies vertex_ok(
        m.edges,
        frame,
        v,
    ) by {
        crate::trail::lemma_root_reached(m.edges, frame.roots, depths, v);
        lemma_reached_is_within(m.edges, frame.roots, depths, v, depths);
        let i = choose|i: int| 0 <= i < roots.len() && roots[i] == v;
        assert(roots[i].kind() == root_kind(phase));
    }
    assert forall|i: int| 0 <= i < m.current.len() implies item_ok(
        m.edges,
        m.scheduled,
        frame,
        #[trigger] m.current[i],
    ) && frontier_of(m.current[i].vertex.kind()) == m.phase by {
        let v = m.current[i].vertex;
        crate::trail::lemma_root_reached(m.edges, frame.roots, depths, v);
        let j = choose|j: int| 0 <= j < roots.len() && roots[j] == v;
        assert(roots[j].kind() == root_kind(phase));
    }
    assert forall|p: Phase|
        frontier_ok(m.edges, m.scheduled, frame, #[trigger] m.queue(p), p) by {
        assert(m.queue(p).len() == 0);
    }
}

/// What soundness says of the roots, the edges and the scheduled vertices.
pub proof fn lemma_sound_facts(m: TraversalModel, frame: QueryFrame)
    requires
        m.sound(frame),
    ensures
        frame.roots.subset_of(m.scheduled),
        ends_scheduled(m.edges, m.scheduled),
        scheduled_ok(m.edges, m.scheduled, frame),
        frontier_ok(m.edges, m.scheduled, frame, m.current, m.phase),
        forall|p: Phase| frontier_ok(m.edges, m.scheduled, frame, #[trigger] m.queue(p), p),
{
    reveal(TraversalModel::sound);
}

/// What the query of a subgraph fixed.
pub open spec fn subgraph_frame<P>(g: &crate::subgraph::Subgraph<P>) -> QueryFrame {
    QueryFrame {
        roots: g.root_set(),
        depths: g.depths_spec(),
        interval: g.axes_spec().variable_interval,
    }
}

/// Whether every vertex of a subgraph is in order: some trail of the
/// subgraph's own edges leads to it from a root within the depth budget, and
/// an entity reached over an interval is named by an interval that holds a
/// timestamp and lies within the query's.
pub open spec fn vertices_accounted<P>(g: &crate::subgraph::Subgraph<P>) -> bool {
    forall|v: VertexKey| #[trigger]
        g.has_vertex(v) ==> vertex_ok(g.edge_set(), subgraph_frame(g), v)
}

} // verus!
