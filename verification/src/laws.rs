//! What holds of every query.
//!
//! The statements here speak of the traversal as `run` defines it, which is
//! what the driver is proved to do, and of the subgraphs that the store held
//! in memory answers with.

use vstd::prelude::*;
use crate::depths::GraphResolveDepths;
use crate::driver::{request_for, RequestView};
use crate::frontier::{lemma_plan_empty, plan_spec, FrontierItem, RowKey};
use crate::identifier::VertexKey;
use crate::model::{height, rows_valid, successor, Phase, Step, TraversalModel};
use crate::query::{lemma_final_state, lemma_run_unique, outcome_of, run, MemoryStore};
use crate::soundness::{
    frame_of, lemma_advance_inv, lemma_ordered_facts, lemma_seeded_inv, lemma_seeded_shape,
    lemma_sound_facts, lemma_supply_inv, root_kind, vertex_ok, QueryFrame,
};
use crate::store::{resolve_spec, rows_for_source, rows_upto, RecordView};
use crate::subgraph::{EdgeKey, Subgraph};
use crate::temporal::QueryTemporalAxes;
use crate::trail::{affordable, is_trail};

verus! {

/// A traversal that starts in a state in which the invariant holds ends, if
/// it ends, in a state in which the invariant holds and nothing is left to
/// expand.
pub proof fn lemma_run_keeps_invariant(
    records: Seq<RecordView>,
    axes: QueryTemporalAxes,
    m: TraversalModel,
    frame: QueryFrame,
    fuel: nat,
)
    requires
        m.inv(frame),
        m.pending is None,
        run(records, axes, m, fuel) is Done,
    ensures
        run(records, axes, m, fuel)->Done_0.inv(frame),
        run(records, axes, m, fuel)->Done_0.is_done(),
        m.edges.subset_of(run(records, axes, m, fuel)->Done_0.edges),
        m.scheduled.subset_of(run(records, axes, m, fuel)->Done_0.scheduled),
    decreases fuel,
{
    let a = m.advance();
    lemma_advance_inv(m, frame);
    if a.pending is Some {
        let rows = resolve_spec(records, request_for(a.step(), a.pending.unwrap(), axes));
        lemma_supply_inv(a, frame, rows);
        lemma_run_keeps_invariant(records, axes, a.supply(rows), frame, (fuel - 1) as nat);
    }
}

/// Depth monotonicity. Every vertex that a query schedules, and so every
/// vertex of its answer, is reached from a root by a trail of edges of the
/// answer that consumes of no counter more than the query's depths allow.
pub proof fn law_depth_monotonicity(
    records: Seq<RecordView>,
    phase: Phase,
    roots: Seq<VertexKey>,
    depths: GraphResolveDepths,
    axes: QueryTemporalAxes,
    fuel: nat,
    v: VertexKey,
)
    requires
        !(phase is Done),
        forall|i: int| 0 <= i < roots.len() ==> (#[trigger] roots[i]).kind() == root_kind(phase),
        outcome_of(records, phase, roots, depths, axes, fuel) is Done,
        outcome_of(records, phase, roots, depths, axes, fuel)->Done_0.scheduled.contains(v),
    ensures
        exists|trail: Seq<EdgeKey>| #[trigger]
            is_trail(
                outcome_of(records, phase, roots, depths, axes, fuel)->Done_0.edges,
                roots.to_set(),
                trail,
                v,
            ) && affordable(trail, depths),
{
    let start = TraversalModel::seeded(phase, roots, depths, axes.variable_interval);
    let frame = frame_of(roots, depths, axes.variable_interval);
    lemma_seeded_inv(phase, roots, depths, axes.variable_interval);
    lemma_seeded_shape(phase, roots, depths, axes.variable_interval);
    lemma_run_keeps_invariant(records, axes, start, frame, fuel);
    let end = outcome_of(records, phase, roots, depths, axes, fuel)->Done_0;
    lemma_sound_facts(end, frame);
    assert(vertex_ok(end.edges, frame, v));
}

/// Edge closure. Both ends of every edge that a query finds are scheduled,
/// and so are vertices of its answer.
pub proof fn law_edge_closure(
    records: Seq<RecordView>,
    phase: Phase,
    roots: Seq<VertexKey>,
    depths: GraphResolveDepths,
    axes: QueryTemporalAxes,
    fuel: nat,
    e: EdgeKey,
)
    requires
        !(phase is Done),
        forall|i: int| 0 <= i < roots.len() ==> (#[trigger] roots[i]).kind() == root_kind(phase),
        outcome_of(records, phase, roots, depths, axes, fuel) is Done,
        outcome_of(records, phase, roots, depths, axes, fuel)->Done_0.edges.contains(e),
    ensures
        outcome_of(records, phase, roots, depths, axes, fuel)->Done_0.scheduled.contains(e.source),
        outcome_of(records, phase, roots, depths, axes, fuel)->Done_0.scheduled.contains(e.target),
{
    let start = TraversalModel::seeded(phase, roots, depths, axes.variable_interval);
    let frame = frame_of(roots, depths, axes.variable_interval);
    lemma_seeded_inv(phase, roots, depths, axes.variable_interval);
    lemma_seeded_shape(phase, roots, depths, axes.variable_interval);
    lemma_run_keeps_invariant(records, axes, start, frame, fuel);
    let end = outcome_of(records, phase, roots, depths, axes, fuel)->Done_0;
    lemma_sound_facts(end, frame);
}

/// Root coverage. The roots of an answer are the vertices that root
/// selection returned, and each of them is a vertex of the answer.
pub proof fn law_root_coverage(
    store: &MemoryStore,
    phase: Phase,
    roots: Seq<VertexKey>,
    depths: GraphResolveDepths,
    axes: QueryTemporalAxes,
    g: &Subgraph<String>,
)
    requires
        store.can_answer(phase, roots, depths, axes),
        store.is_answer(phase, roots, depths, axes, g),
    ensures
        g.root_set() == roots.to_set(),
        g.roots_covered(),
{
    let fuel = choose|fuel: nat| #[trigger]
        outcome_of(store.records(), phase, roots, depths, axes, fuel) is Done;
    let start = TraversalModel::seeded(phase, roots, depths, axes.variable_interval);
    let frame = frame_of(roots, depths, axes.variable_interval);
    lemma_seeded_inv(phase, roots, depths, axes.variable_interval);
    lemma_seeded_shape(phase, roots, depths, axes.variable_interval);
    lemma_run_keeps_invariant(store.records(), axes, start, frame, fuel);
    lemma_final_state(store.records(), phase, roots, depths, axes, fuel);
}

/// Interval containment. An entity that a query reaches over an interval is
/// named by that interval: its revision is the interval's lower bound, and
/// the interval holds a timestamp and lies within the interval of the query.
pub proof fn law_interval_containment(
    records: Seq<RecordView>,
    phase: Phase,
    roots: Seq<VertexKey>,
    depths: GraphResolveDepths,
    axes: QueryTemporalAxes,
    fuel: nat,
    v: VertexKey,
)
    requires
        !(phase is Done),
        forall|i: int| 0 <= i < roots.len() ==> (#[trigger] roots[i]).kind() == root_kind(phase),
        outcome_of(records, phase, roots, depths, axes, fuel) is Done,
        outcome_of(records, phase, roots, depths, axes, fuel)->Done_0.scheduled.contains(v),
        v is EntityInterval,
    ensures
        v.revision_bound() == Some(v->EntityInterval_0.interval.start),
        v->EntityInterval_0.interval.is_subset_of(axes.variable_interval),
        !v->EntityInterval_0.interval.is_empty_spec(),
{
    let start = TraversalModel::seeded(phase, roots, depths, axes.variable_interval);
    let frame = frame_of(roots, depths, axes.variable_interval);
    lemma_seeded_inv(phase, roots, depths, axes.variable_interval);
    lemma_seeded_shape(phase, roots, depths, axes.variable_interval);
    lemma_run_keeps_invariant(records, axes, start, frame, fuel);
    let end = outcome_of(records, phase, roots, depths, axes, fuel)->Done_0;
    lemma_sound_facts(end, frame);
    assert(vertex_ok(end.edges, frame, v));
}

/// Idempotent re-query. Two runs of the same query against the same records
/// that come to an end come to the same end, whatever number of rounds each
/// was given; and two answers of the same store to the same query have the
/// same roots, the same edges and the same vertices with the same payloads.
pub proof fn law_requery(
    store: &MemoryStore,
    phase: Phase,
    roots: Seq<VertexKey>,
    depths: GraphResolveDepths,
    axes: QueryTemporalAxes,
    first: &Subgraph<String>,
    second: &Subgraph<String>,
    fuel: nat,
    other: nat,
)
    requires
        store.is_answer(phase, roots, depths, axes, first),
        store.is_answer(phase, roots, depths, axes, second),
    ensures
        first.root_set() == second.root_set(),
        first.edge_set() == second.edge_set(),
        first.vertex_map() == second.vertex_map(),
        !(outcome_of(store.records(), phase, roots, depths, axes, fuel) is Unfinished) && !(
        outcome_of(store.records(), phase, roots, depths, axes, other) is Unfinished)
            ==> outcome_of(store.records(), phase, roots, depths, axes, fuel) == outcome_of(
            store.records(),
            phase,
            roots,
            depths,
            axes,
            other,
        ),
{
    assert forall|v: VertexKey| first.vertex_map().dom().contains(v) implies #[trigger]
        first.vertex_map()[v] == second.vertex_map()[v] by {
        assert(first.has_vertex(v) && second.has_vertex(v));
        assert(Some(first.vertex_map()[v]) == crate::query::lookup(store.catalog(), v));
        assert(Some(second.vertex_map()[v]) == crate::query::lookup(store.catalog(), v));
    }
    assert(first.vertex_map() =~= second.vertex_map());
    let start = TraversalModel::seeded(phase, roots, depths, axes.variable_interval);
    if !(outcome_of(store.records(), phase, roots, depths, axes, fuel) is Unfinished) && !(
    outcome_of(store.records(), phase, roots, depths, axes, other) is Unfinished) {
        lemma_run_unique(store.records(), axes, start, fuel, other);
    }
}

/// No second scheduling. A row that leads to a vertex scheduled before adds
/// its edge and nothing else: the vertex is not enqueued again, whatever
/// budget the row would bring it.
pub proof fn law_scheduled_once(
    m: TraversalModel,
    batch: Seq<FrontierItem>,
    step: Step,
    row: RowKey,
)
    requires
        successor(batch[row.source_index], row.target) is Some,
        m.scheduled.contains(successor(batch[row.source_index], row.target).unwrap().vertex),
    ensures
        m.absorb_row(batch, step, row).scheduled == m.scheduled,
        m.absorb_row(batch, step, row).current == m.current,
        forall|p: Phase| #[trigger] m.absorb_row(batch, step, row).queue(p) == m.queue(p),
{
}

/// Whether every entry of a frontier has spent its whole budget.
pub open spec fn spent_out(frontier: Seq<FrontierItem>) -> bool {
    forall|i: int| 0 <= i < frontier.len() ==> (#[trigger] frontier[i]).depths.total() == 0
}

/// A traversal in which no entry has any budget left moves on to the end
/// without a single request.
pub proof fn lemma_advance_spent_out(m: TraversalModel)
    requires
        m.layered(),
        m.cursor <= m.phase.steps().len(),
        m.pending is None,
        spent_out(m.current),
        forall|p: Phase| spent_out(#[trigger] m.queue(p)),
    ensures
        m.advance().is_done(),
        m.advance().pending is None,
        m.advance().edges == m.edges,
        m.advance().scheduled == m.scheduled,
    decreases m.phase.rank(), height(m.current), m.phase.steps().len() - m.cursor,
{
    if m.phase is Done {
    } else if m.cursor < m.phase.steps().len() {
        let batch = plan_spec(m.current, m.step().kind);
        lemma_plan_empty(m.current, m.step().kind);
        assert forall|i: int| 0 <= i < m.current.len() implies (#[trigger] m.current[i]).depths.decrement_spec(
            m.step().kind,
        ) is None by {
            assert(m.current[i].depths.total() == 0);
        }
        let next = TraversalModel { cursor: m.cursor + 1, ..m };
        assert(next.queue(next.phase) == m.queue(m.phase));
        assert forall|p: Phase| spent_out(#[trigger] next.queue(p)) by {
            assert(spent_out(m.queue(p)));
        }
        lemma_advance_spent_out(next);
    } else if m.queue(m.phase).len() > 0 {
        let next = m.next_layer();
        crate::model::lemma_next_layer_lower(m);
        assert(spent_out(m.queue(m.phase)));
        assert(next.queue(next.phase).len() == 0);
        assert forall|p: Phase| spent_out(#[trigger] next.queue(p)) by {
            assert(spent_out(m.queue(p)));
        }
        lemma_advance_spent_out(next);
    } else {
        let next = m.next_phase();
        assert(spent_out(m.queue(m.phase.following())));
        assert(next.queue(next.phase).len() == 0);
        assert forall|p: Phase| spent_out(#[trigger] next.queue(p)) by {
            assert(spent_out(m.queue(p)));
        }
        lemma_advance_spent_out(next);
    }
}

/// Zero-depth identity. A query whose depths are all zero ends without a
/// request to the resolver: it finds no edge and schedules its roots and
/// nothing else.
pub proof fn law_zero_depth(
    records: Seq<RecordView>,
    phase: Phase,
    roots: Seq<VertexKey>,
    depths: GraphResolveDepths,
    axes: QueryTemporalAxes,
    fuel: nat,
)
    requires
        depths.is_zeroed(),
    ensures
        outcome_of(records, phase, roots, depths, axes, fuel) is Done,
        outcome_of(records, phase, roots, depths, axes, fuel)->Done_0.edges == Set::<
            EdgeKey,
        >::empty(),
        outcome_of(records, phase, roots, depths, axes, fuel)->Done_0.scheduled == roots.to_set(),
{
    let start = TraversalModel::seeded(phase, roots, depths, axes.variable_interval);
    lemma_seeded_shape(phase, roots, depths, axes.variable_interval);
    assert(start.queue(start.phase).len() == 0);
    assert forall|p: Phase| spent_out(#[trigger] start.queue(p)) by {
        assert(start.queue(p).len() == 0);
    }
    lemma_advance_spent_out(start);
}

/// Traversal termination. Whatever the records hold, cycles included, a
/// traversal comes to an end after finitely many rounds: each round either
/// ends it or leaves a state that is further on, and no state is further on
/// than the end of the last phase.
pub proof fn law_termination(
    records: Seq<RecordView>,
    axes: QueryTemporalAxes,
    m: TraversalModel,
    frame: QueryFrame,
) -> (fuel: nat)
    requires
        m.inv(frame),
        m.pending is None,
    ensures
        !(run(records, axes, m, fuel) is Unfinished),
    decreases m.phase.rank(), height(m.current), m.phase.steps().len() - m.cursor,
{
    let a = m.advance();
    lemma_advance_inv(m, frame);
    lemma_ordered_facts(a);
    if a.pending is Some {
        let rows = resolve_spec(records, request_for(a.step(), a.pending.unwrap(), axes));
        if rows_valid(a.pending.unwrap().len(), a.step().kind, rows) {
            lemma_supply_inv(a, frame, rows);
            let rest = law_termination(records, axes, a.supply(rows), frame);
            rest + 1
        } else {
            0
        }
    } else {
        0
    }
}

/// Every query whose roots are of the kind it selects from comes to an end.
pub proof fn law_query_terminates(
    records: Seq<RecordView>,
    phase: Phase,
    roots: Seq<VertexKey>,
    depths: GraphResolveDepths,
    axes: QueryTemporalAxes,
) -> (fuel: nat)
    requires
        !(phase is Done),
        forall|i: int| 0 <= i < roots.len() ==> (#[trigger] roots[i]).kind() == root_kind(phase),
    ensures
        !(outcome_of(records, phase, roots, depths, axes, fuel) is Unfinished),
{
    lemma_seeded_inv(phase, roots, depths, axes.variable_interval);
    lemma_seeded_shape(phase, roots, depths, axes.variable_interval);
    law_termination(
        records,
        axes,
        TraversalModel::seeded(phase, roots, depths, axes.variable_interval),
        frame_of(roots, depths, axes.variable_interval),
    )
}

/// The records with the two ends of each exchanged.
pub open spec fn transposed(records: Seq<RecordView>) -> Seq<RecordView> {
    records.map_values(|r: RecordView| r.transposed())
}

/// The request that follows the same kind of edge the other way.
pub open spec fn reversed(q: RequestView) -> RequestView {
    RequestView { direction: q.direction.reversed_spec(), ..q }
}

/// The rows for one source are those for the same source when the records
/// are transposed and the direction is reversed.
pub proof fn lemma_swap_for_source(records: Seq<RecordView>, q: RequestView, i: int)
    ensures
        rows_for_source(transposed(records), reversed(q), i) == rows_for_source(records, q, i),
    decreases records.len(),
{
    if records.len() > 0 {
        lemma_swap_for_source(records.drop_last(), q, i);
        assert(transposed(records).drop_last() =~= transposed(records.drop_last()));
        let r = records.last();
        assert(transposed(records).last() == r.transposed());
        assert(r.transposed().answers(reversed(q), i) == r.answers(q, i));
        assert(r.transposed().row_for(reversed(q), i) == r.row_for(q, i));
    }
}

/// Direction swap. Following a kind of edge backwards through the records
/// gives what following it forwards gives through the transposed records:
/// for the same sources the same targets, row for row.
pub proof fn law_direction_swap(records: Seq<RecordView>, q: RequestView)
    ensures
        resolve_spec(transposed(records), reversed(q)) == resolve_spec(records, q),
        reversed(reversed(q)) == q,
        transposed(transposed(records)) == records,
{
    lemma_swap_upto(records, q, crate::store::paired(q));
    assert(transposed(transposed(records)) =~= records);
}

/// The rows for the first sources are those for the same sources when the
/// records are transposed and the direction is reversed.
pub proof fn lemma_swap_upto(records: Seq<RecordView>, q: RequestView, n: nat)
    ensures
        rows_upto(transposed(records), reversed(q), n) == rows_upto(records, q, n),
    decreases n,
{
    if n > 0 {
        lemma_swap_upto(records, q, (n - 1) as nat);
        lemma_swap_for_source(records, q, n - 1);
    }
}

} // verus!
