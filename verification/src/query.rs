//! Whole queries against the store held in memory.
//!
//! A query selects its roots, seeds the traversal with them, drives the
//! traversal to its end with the store's resolver, loads the payloads of the
//! scheduled vertices and returns the subgraph. There is one entry point for
//! each kind of root.

use vstd::prelude::*;
use crate::depths::GraphResolveDepths;
use crate::driver::{id_keys, installed, request_for, root_keys, Traversal};
use crate::error::QueryError;
use crate::frontier::rows_of;
use crate::identifier::{key_set, VertexId, VertexKey, VertexKind};
use crate::model::{height, rows_valid, Phase, TraversalModel};
use crate::soundness::{
    lemma_advance_inv, lemma_ordered_facts, lemma_supply_inv, root_kind, vertices_accounted,
};
use crate::store::{records_of, resolve, resolve_spec, EdgeRecord, RecordView};
use crate::subgraph::{entries_map, Subgraph};
use crate::temporal::QueryTemporalAxes;

verus! {

/// How a traversal against a fixed list of records ends.
pub enum Outcome {
    /// The traversal is complete, in this state.
    Done(TraversalModel),
    /// The resolver answered with a row that names no source or a target of
    /// the wrong kind.
    Malformed,
    /// The traversal needs more rounds than it was given.
    Unfinished,
}

/// The outcome of a traversal that starts in state `m` and is given `fuel`
/// rounds beyond the first: in each round it moves on to the next request,
/// has the records answer it, and absorbs the answer.
pub open spec fn run(
    records: Seq<RecordView>,
    axes: QueryTemporalAxes,
    m: TraversalModel,
    fuel: nat,
) -> Outcome
    decreases fuel,
{
    let a = m.advance();
    if a.pending is None {
        Outcome::Done(a)
    } else {
        let rows = resolve_spec(records, request_for(a.step(), a.pending.unwrap(), axes));
        if !rows_valid(a.pending.unwrap().len(), a.step().kind, rows) {
            Outcome::Malformed
        } else if fuel == 0 {
            Outcome::Unfinished
        } else {
            run(records, axes, a.supply(rows), (fuel - 1) as nat)
        }
    }
}

/// A traversal that has come to an end with some number of rounds comes to
/// the same end with any larger number.
pub proof fn lemma_run_stable(
    records: Seq<RecordView>,
    axes: QueryTemporalAxes,
    m: TraversalModel,
    fuel: nat,
    more: nat,
)
    requires
        !(run(records, axes, m, fuel) is Unfinished),
        fuel <= more,
    ensures
        run(records, axes, m, more) == run(records, axes, m, fuel),
    decreases fuel,
{
    let a = m.advance();
    if a.pending is Some {
        let rows = resolve_spec(records, request_for(a.step(), a.pending.unwrap(), axes));
        if rows_valid(a.pending.unwrap().len(), a.step().kind, rows) && fuel > 0 {
            lemma_run_stable(records, axes, a.supply(rows), (fuel - 1) as nat, (more - 1) as nat);
        }
    }
}

/// The payload that a catalog holds for a vertex: that of the first entry
/// that stands for the same thing as the vertex.
pub open spec fn lookup(catalog: Seq<(VertexId, String)>, v: VertexKey) -> Option<String>
    decreases catalog.len(),
{
    if catalog.len() == 0 {
        None
    } else {
        match lookup(catalog.drop_last(), v) {
            Some(p) => Some(p),
            None => if catalog.last().0@.anchor() == v.anchor() {
                Some(catalog.last().1)
            } else {
                None
            },
        }
    }
}

/// What a longer catalog holds for a vertex that a shorter one has a
/// payload for is that same payload.
pub proof fn lemma_lookup_prefix(catalog: Seq<(VertexId, String)>, v: VertexKey, n: int)
    requires
        0 <= n <= catalog.len(),
        lookup(catalog.take(n), v) is Some,
    ensures
        lookup(catalog, v) == lookup(catalog.take(n), v),
    decreases catalog.len(),
{
    if n < catalog.len() {
        assert(catalog.drop_last().take(n) =~= catalog.take(n));
        lemma_lookup_prefix(catalog.drop_last(), v, n);
    } else {
        assert(catalog.take(n) =~= catalog);
    }
}

/// Two ends of the same traversal are the same end.
pub proof fn lemma_run_unique(
    records: Seq<RecordView>,
    axes: QueryTemporalAxes,
    m: TraversalModel,
    fuel: nat,
    other: nat,
)
    requires
        !(run(records, axes, m, fuel) is Unfinished),
        !(run(records, axes, m, other) is Unfinished),
    ensures
        run(records, axes, m, fuel) == run(records, axes, m, other),
{
    if fuel <= other {
        lemma_run_stable(records, axes, m, fuel, other);
    } else {
        lemma_run_stable(records, axes, m, other, fuel);
    }
}

/// The outcome of the query with the given roots when given `fuel` rounds.
pub open spec fn outcome_of(
    records: Seq<RecordView>,
    phase: Phase,
    roots: Seq<VertexKey>,
    depths: GraphResolveDepths,
    axes: QueryTemporalAxes,
    fuel: nat,
) -> Outcome {
    run(
        records,
        axes,
        TraversalModel::seeded(phase, roots, depths, axes.variable_interval),
        fuel,
    )
}

/// Whether the traversal of the query comes to its end.
pub open spec fn completes(
    records: Seq<RecordView>,
    phase: Phase,
    roots: Seq<VertexKey>,
    depths: GraphResolveDepths,
    axes: QueryTemporalAxes,
) -> bool {
    exists|fuel: nat| #[trigger] outcome_of(records, phase, roots, depths, axes, fuel) is Done
}

/// The state in which the traversal of the query ends, if it does.
pub open spec fn final_state(
    records: Seq<RecordView>,
    phase: Phase,
    roots: Seq<VertexKey>,
    depths: GraphResolveDepths,
    axes: QueryTemporalAxes,
) -> TraversalModel {
    let fuel = choose|fuel: nat| #[trigger]
        outcome_of(records, phase, roots, depths, axes, fuel) is Done;
    outcome_of(records, phase, roots, depths, axes, fuel)->Done_0
}

/// A traversal that ends in some state with some number of rounds completes,
/// and that state is its final state; one that meets a malformed row does
/// not complete.
pub proof fn lemma_final_state(
    records: Seq<RecordView>,
    phase: Phase,
    roots: Seq<VertexKey>,
    depths: GraphResolveDepths,
    axes: QueryTemporalAxes,
    fuel: nat,
)
    ensures
        outcome_of(records, phase, roots, depths, axes, fuel) matches Outcome::Done(m) ==> completes(
            records,
            phase,
            roots,
            depths,
            axes,
        ) && final_state(records, phase, roots, depths, axes) == m,
        outcome_of(records, phase, roots, depths, axes, fuel) is Malformed ==> !completes(
            records,
            phase,
            roots,
            depths,
            axes,
        ),
{
    let start = TraversalModel::seeded(phase, roots, depths, axes.variable_interval);
    if outcome_of(records, phase, roots, depths, axes, fuel) is Done {
        let other = choose|other: nat| #[trigger]
            outcome_of(records, phase, roots, depths, axes, other) is Done;
        lemma_run_unique(records, axes, start, fuel, other);
    }
    if outcome_of(records, phase, roots, depths, axes, fuel) is Malformed {
        if completes(records, phase, roots, depths, axes) {
            let other = choose|other: nat| #[trigger]
                outcome_of(records, phase, roots, depths, axes, other) is Done;
            lemma_run_unique(records, axes, start, fuel, other);
        }
    }
}

/// What the map of a list of keyed payloads holds for a key is the payload
/// of some entry with that key.
pub proof fn lemma_entries_map_source(entries: Seq<(VertexId, String)>, k: VertexKey)
    requires
        entries_map(entries).dom().contains(k),
    ensures
        exists|i: int|
            0 <= i < entries.len() && (#[trigger] entries[i]).0@ == k && entries_map(entries)[k]
                == entries[i].1,
    decreases entries.len(),
{
    if entries.len() > 0 {
        let front = entries.drop_last();
        if entries_map(front).dom().contains(k) {
            lemma_entries_map_source(front, k);
            let i = choose|i: int|
                0 <= i < front.len() && (#[trigger] front[i]).0@ == k && entries_map(front)[k]
                    == front[i].1;
            assert(entries[i] == front[i]);
        } else {
            assert(entries[entries.len() - 1] == entries.last());
        }
    }
}

/// Edge records and vertex payloads held in memory.
pub struct MemoryStore {
    records: Vec<EdgeRecord>,
    catalog: Vec<(VertexId, String)>,
}

impl MemoryStore {
    /// The edge records, in the order in which they were added.
    pub closed spec fn records(&self) -> Seq<RecordView> {
        records_of(self.records@)
    }

    /// The payloads, in the order in which they were added.
    pub closed spec fn catalog(&self) -> Seq<(VertexId, String)> {
        self.catalog@
    }

    /// An empty store.
    pub fn new() -> (r: MemoryStore)
        ensures
            r.records() == Seq::<RecordView>::empty(),
            r.catalog() == Seq::<(VertexId, String)>::empty(),
    {
        let r = MemoryStore { records: Vec::new(), catalog: Vec::new() };
        assert(r.records() =~= Seq::<RecordView>::empty());
        r
    }

    /// Adds an edge record at the end.
    pub fn add_edge(&mut self, record: EdgeRecord)
        ensures
            final(self).records() == old(self).records().push(record@),
            final(self).catalog() == old(self).catalog(),
    {
        self.records.push(record);
        assert(self.records() =~= old(self).records().push(record@));
    }

    /// Adds a payload at the end. For an entity the payload stands for the
    /// entity at every revision.
    pub fn add_vertex(&mut self, id: VertexId, payload: String)
        ensures
            final(self).catalog() == old(self).catalog().push((id, payload)),
            final(self).records() == old(self).records(),
    {
        self.catalog.push((id, payload));
    }

    /// The payload that the store holds for a vertex.
    pub fn payload_of(&self, id: &VertexId) -> (r: Option<String>)
        ensures
            r == lookup(self.catalog(), id@),
    {
        let mut i: usize = 0;
        assert(self.catalog@.take(0) =~= Seq::<(VertexId, String)>::empty());
        while i < self.catalog.len()
            invariant
                i <= self.catalog.len(),
                lookup(self.catalog@.take(i as int), id@) is None,
            decreases self.catalog.len() - i,
        {
            proof {
                assert(self.catalog@.take(i as int + 1).drop_last() =~= self.catalog@.take(
                    i as int,
                ));
                assert(self.catalog@.take(i as int + 1).last() == self.catalog@[i as int]);
            }
            if self.catalog[i].0.same_anchor(id) {
                proof {
                    lemma_lookup_prefix(self.catalog@, id@, i as int + 1);
                }
                return Some(self.catalog[i].1.clone());
            }
            i += 1;
        }
        assert(self.catalog@.take(i as int) =~= self.catalog@);
        None
    }

    /// Drives a traversal to its end: as long as the traversal has a request,
    /// the store's resolver answers it and the traversal absorbs the answer.
    /// The traversal ends as `run` says, whatever number of rounds that takes;
    /// it fails when the store holds a record whose far end is not of the
    /// kind that the record's edge leads to.
    pub fn traverse(&self, t: &mut Traversal<String>) -> (r: Result<(), QueryError>)
        requires
            old(t).inv(),
            old(t).model().pending is None,
        ensures
            final(t).inv(),
            final(t).frame() == old(t).frame(),
            final(t).axes() == old(t).axes(),
            final(t).vertex_map() == old(t).vertex_map(),
            exists|fuel: nat| #[trigger]
                run(self.records(), old(t).axes(), old(t).model(), fuel) == (match r {
                    Ok(_) => Outcome::Done(final(t).model()),
                    Err(_) => Outcome::Malformed,
                }),
            r is Ok ==> final(t).model().is_done(),
    {
        let ghost start = t.model();
        let ghost axes = t.axes();
        let ghost records = self.records();
        let ghost used: nat = 0;
        loop
            invariant
                t.inv(),
                t.model().pending is None,
                t.frame() == old(t).frame(),
                t.axes() == axes,
                axes == old(t).axes(),
                start == old(t).model(),
                records == self.records(),
                t.vertex_map() == old(t).vertex_map(),
                forall|f: nat| #[trigger]
                    run(records, axes, t.model(), f) == run(records, axes, start, f + used),
            decreases
                    t.model().phase.rank(),
                    height(t.model().current),
                    t.model().phase.steps().len() - t.model().cursor,
        {
            let ghost prev = t.model();
            proof {
                t.lemma_inv();
                lemma_advance_inv(prev, t.frame());
                lemma_ordered_facts(prev.advance());
            }
            match t.next_request() {
                None => {
                    proof {
                        t.lemma_inv();
                        lemma_ordered_facts(t.model());
                        assert(run(records, axes, prev, 0) == Outcome::Done(t.model()));
                        assert(run(records, axes, start, 0 + used) == Outcome::Done(t.model()));
                    }
                    return Ok(());
                },
                Some(request) => {
                    let ghost a = t.model();
                    proof {
                        request.lemma_asks(a.step(), a.pending.unwrap(), axes);
                    }
                    let rows = resolve(&self.records, &request);
                    match t.supply(rows) {
                        Err(e) => {
                            proof {
                                assert(run(records, axes, prev, 0) == Outcome::Malformed);
                                assert(run(records, axes, start, 0 + used) == Outcome::Malformed);
                            }
                            return Err(e);
                        },
                        Ok(_) => {
                            proof {
                                t.lemma_inv();
                                lemma_supply_inv(a, old(t).frame(), rows_of(rows@));
                                let next = t.model();
                                assert forall|f: nat| #[trigger]
                                    run(records, axes, next, f) == run(
                                        records,
                                        axes,
                                        start,
                                        f + (used + 1),
                                    ) by {
                                    assert(run(records, axes, prev, f + 1) == run(
                                        records,
                                        axes,
                                        next,
                                        f,
                                    ));
                                    assert(run(records, axes, prev, f + 1) == run(
                                        records,
                                        axes,
                                        start,
                                        (f + 1) + used,
                                    ));
                                }
                                used = used + 1;
                            }
                        },
                    }
                },
            }
        }
    }

    /// Whether the store answers a query: its roots are of the kind that the
    /// query selects from, the store holds a payload for each of them, the
    /// traversal comes to its end, and the store holds a payload for every
    /// vertex scheduled on the way.
    pub open spec fn can_answer(
        &self,
        phase: Phase,
        roots: Seq<VertexKey>,
        depths: GraphResolveDepths,
        axes: QueryTemporalAxes,
    ) -> bool {
        &&& !(phase is Done)
        &&& forall|i: int| 0 <= i < roots.len() ==> (#[trigger] roots[i]).kind() == root_kind(phase)
        &&& forall|i: int| 0 <= i < roots.len() ==> lookup(self.catalog(), #[trigger] roots[i]) is Some
        &&& completes(self.records(), phase, roots, depths, axes)
        &&& forall|v: VertexKey|
            final_state(self.records(), phase, roots, depths, axes).scheduled.contains(v)
                ==> #[trigger] lookup(self.catalog(), v) is Some
    }

    /// Whether a subgraph is the answer to a query: its roots are the roots
    /// of the query, its edges are the edges found when the traversal ended,
    /// its vertices are the vertices scheduled until then, and each of them
    /// has the payload that the store holds for it.
    pub open spec fn is_answer(
        &self,
        phase: Phase,
        roots: Seq<VertexKey>,
        depths: GraphResolveDepths,
        axes: QueryTemporalAxes,
        g: &Subgraph<String>,
    ) -> bool {
        &&& g.root_set() == roots.to_set()
        &&& g.depths_spec() == depths
        &&& g.axes_spec() == axes
        &&& g.edge_set() == final_state(self.records(), phase, roots, depths, axes).edges
        &&& g.vertex_map().dom() == final_state(
            self.records(),
            phase,
            roots,
            depths,
            axes,
        ).scheduled
        &&& forall|v: VertexKey|
            g.has_vertex(v) ==> Some(#[trigger] g.vertex_map()[v]) == lookup(self.catalog(), v)
    }

    /// Answers a query whose roots are vertices of the kind that `phase`
    /// expands first: seeds the traversal with the roots and their payloads,
    /// drives it to its end, loads the payloads of the scheduled vertices and
    /// returns the subgraph. There is an answer exactly when the store can
    /// answer; then the subgraph is the answer, both ends of each of its
    /// edges and each of its roots are among its vertices, and each of its
    /// vertices is accounted for by a trail from a root within the budget.
    pub fn answer(
        &self,
        phase: Phase,
        roots: &Vec<VertexId>,
        depths: GraphResolveDepths,
        temporal_axes: QueryTemporalAxes,
    ) -> (r: Result<Subgraph<String>, QueryError>)
        ensures
            r is Ok <==> self.can_answer(phase, id_keys(roots@), depths, temporal_axes),
            r matches Ok(g) ==> {
                &&& g.wf()
                &&& self.is_answer(phase, id_keys(roots@), depths, temporal_axes, &g)
                &&& g.edges_closed()
                &&& g.roots_covered()
                &&& vertices_accounted(&g)
            },
    {
        let ghost keys = id_keys(roots@);
        let ghost records = self.records();
        let ghost catalog = self.catalog();
        let payloads = match self.payloads_for(roots) {
            Some(p) => p,
            None => {
                proof {
                    let i = choose|i: int|
                        0 <= i < roots@.len() && !(lookup(catalog, (#[trigger] roots@[i])@)
                            is Some);
                    assert(keys[i] == roots@[i]@);
                }
                return Err(QueryError);
            },
        };
        let mut entries: Vec<(VertexId, String)> = Vec::new();
        let mut i: usize = 0;
        while i < roots.len()
            invariant
                i <= roots.len(),
                payloads@.len() == roots@.len(),
                entries@.len() == i,
                forall|j: int|
                    0 <= j < i ==> (#[trigger] entries@[j]).0@ == roots@[j]@ && entries@[j].1
                        == payloads@[j],
            decreases roots.len() - i,
        {
            entries.push((roots[i].duplicate(), payloads[i].clone()));
            i += 1;
        }
        let ghost seeds = entries@;
        proof {
            assert(root_keys(seeds) =~= keys);
        }
        let mut t = match Traversal::begin(phase, entries, depths, temporal_axes) {
            Ok(t) => t,
            Err(e) => {
                proof {
                    if !(phase is Done) {
                        let i = choose|i: int|
                            0 <= i < seeds.len() && (#[trigger] seeds[i]).0@.kind() != root_kind(
                                phase,
                            );
                        assert(keys[i] == seeds[i].0@);
                    }
                }
                return Err(e);
            },
        };
        let ghost start = t.model();
        proof {
            crate::soundness::lemma_seeded_shape(
                phase,
                keys,
                depths,
                temporal_axes.variable_interval,
            );
            assert forall|i: int| 0 <= i < keys.len() implies (#[trigger] keys[i]).kind()
                == root_kind(phase) by {
                assert(keys[i] == seeds[i].0@);
            }
            assert forall|i: int| 0 <= i < keys.len() implies lookup(
                catalog,
                #[trigger] keys[i],
            ) is Some by {
                assert(keys[i] == roots@[i]@);
            }
        }
        match self.traverse(&mut t) {
            Ok(_) => {},
            Err(e) => {
                proof {
                    let fuel = choose|fuel: nat| #[trigger]
                        run(records, temporal_axes, start, fuel) == Outcome::Malformed;
                    assert(outcome_of(records, phase, keys, depths, temporal_axes, fuel)
                        is Malformed);
                    lemma_final_state(records, phase, keys, depths, temporal_axes, fuel);
                }
                return Err(e);
            },
        }
        let ghost end = t.model();
        let ghost seeded_map = t.vertex_map();
        proof {
            let fuel = choose|fuel: nat| #[trigger]
                run(records, temporal_axes, start, fuel) == Outcome::Done(end);
            assert(outcome_of(records, phase, keys, depths, temporal_axes, fuel) == Outcome::Done(
                end,
            ));
            lemma_final_state(records, phase, keys, depths, temporal_axes, fuel);
            t.lemma_inv();
        }
        match self.load(&mut t) {
            Ok(_) => {},
            Err(e) => {
                proof {
                    let v = choose|v: VertexKey|
                        end.scheduled.contains(v) && !seeded_map.dom().contains(v) && !(lookup(
                            catalog,
                            v,
                        ) is Some);
                    assert(!(lookup(catalog, v) is Some));
                }
                return Err(e);
            },
        }
        proof {
            assert forall|v: VertexKey| end.scheduled.contains(v) implies #[trigger] lookup(
                catalog,
                v,
            ) is Some && Some(t.vertex_map()[v]) == lookup(catalog, v) by {
                if seeded_map.dom().contains(v) {
                    lemma_entries_map_source(seeds, v);
                    let i = choose|i: int|
                        0 <= i < seeds.len() && (#[trigger] seeds[i]).0@ == v && entries_map(
                            seeds,
                        )[v] == seeds[i].1;
                    assert(seeds[i].0@ == roots@[i]@);
                    assert(Some(payloads@[i]) == lookup(catalog, roots@[i]@));
                    assert(t.vertex_map()[v] == seeded_map[v]);
                } else {
                    assert(t.vertex_map()[v] == lookup(catalog, v).unwrap());
                }
            }
        }
        match t.finish() {
            Ok(g) => Ok(g),
            Err(e) => Err(e),
        }
    }

    /// Answers a query whose roots are entities.
    pub fn get_entity(
        &self,
        roots: &Vec<VertexId>,
        depths: GraphResolveDepths,
        temporal_axes: QueryTemporalAxes,
    ) -> (r: Result<Subgraph<String>, QueryError>)
        ensures
            r is Ok <==> self.can_answer(Phase::Entity, id_keys(roots@), depths, temporal_axes),
            r matches Ok(g) ==> {
                &&& g.wf()
                &&& self.is_answer(Phase::Entity, id_keys(roots@), depths, temporal_axes, &g)
                &&& g.edges_closed()
                &&& g.roots_covered()
                &&& vertices_accounted(&g)
            },
    {
        self.answer(Phase::Entity, roots, depths, temporal_axes)
    }

    /// Answers a query whose roots are entity types.
    pub fn get_entity_type(
        &self,
        roots: &Vec<VertexId>,
        depths: GraphResolveDepths,
        temporal_axes: QueryTemporalAxes,
    ) -> (r: Result<Subgraph<String>, QueryError>)
        ensures
            r is Ok <==> self.can_answer(
                Phase::EntityType,
                id_keys(roots@),
                depths,
                temporal_axes,
            ),
            r matches Ok(g) ==> {
                &&& g.wf()
                &&& self.is_answer(Phase::EntityType, id_keys(roots@), depths, temporal_axes, &g)
                &&& g.edges_closed()
                &&& g.roots_covered()
                &&& vertices_accounted(&g)
            },
    {
        self.answer(Phase::EntityType, roots, depths, temporal_axes)
    }

    /// Answers a query whose roots are property types.
    pub fn get_property_type(
        &self,
        roots: &Vec<VertexId>,
        depths: GraphResolveDepths,
        temporal_axes: QueryTemporalAxes,
    ) -> (r: Result<Subgraph<String>, QueryError>)
        ensures
            r is Ok <==> self.can_answer(
                Phase::PropertyType,
                id_keys(roots@),
                depths,
                temporal_axes,
            ),
            r matches Ok(g) ==> {
                &&& g.wf()
                &&& self.is_answer(
                    Phase::PropertyType,
                    id_keys(roots@),
                    depths,
                    temporal_axes,
                    &g,
                )
                &&& g.edges_closed()
                &&& g.roots_covered()
                &&& vertices_accounted(&g)
            },
    {
        self.answer(Phase::PropertyType, roots, depths, temporal_axes)
    }

    /// Answers a query whose roots are data types.
    pub fn get_data_type(
        &self,
        roots: &Vec<VertexId>,
        depths: GraphResolveDepths,
        temporal_axes: QueryTemporalAxes,
    ) -> (r: Result<Subgraph<String>, QueryError>)
        ensures
            r is Ok <==> self.can_answer(Phase::DataType, id_keys(roots@), depths, temporal_axes),
            r matches Ok(g) ==> {
                &&& g.wf()
                &&& self.is_answer(Phase::DataType, id_keys(roots@), depths, temporal_axes, &g)
                &&& g.edges_closed()
                &&& g.roots_covered()
                &&& vertices_accounted(&g)
            },
    {
        self.answer(Phase::DataType, roots, depths, temporal_axes)
    }

    /// The payloads that the store holds for a list of vertices, in order;
    /// `None` when it holds none for one of them.
    pub fn payloads_for(&self, ids: &Vec<VertexId>) -> (r: Option<Vec<String>>)
        ensures
            r is Some <==> forall|i: int|
                0 <= i < ids@.len() ==> lookup(self.catalog(), (#[trigger] ids@[i])@) is Some,
            r matches Some(ps) ==> ps@.len() == ids@.len() && forall|i: int|
                0 <= i < ids@.len() ==> Some(#[trigger] ps@[i]) == lookup(
                    self.catalog(),
                    ids@[i]@,
                ),
    {
        let mut out: Vec<String> = Vec::new();
        let mut i: usize = 0;
        while i < ids.len()
            invariant
                i <= ids.len(),
                out@.len() == i,
                forall|j: int|
                    0 <= j < i ==> Some(#[trigger] out@[j]) == lookup(self.catalog(), ids@[j]@),
                forall|j: int|
                    0 <= j < i ==> lookup(self.catalog(), (#[trigger] ids@[j])@) is Some,
            decreases ids.len() - i,
        {
            match self.payload_of(&ids[i]) {
                Some(p) => {
                    out.push(p);
                },
                None => {
                    return None;
                },
            }
            i += 1;
        }
        Some(out)
    }

    /// Loads the payload of every scheduled vertex that has none, one kind
    /// of vertex after the other. No edge is added and nothing is
    /// scheduled. The load fails when the store holds no payload for one of
    /// those vertices.
    pub fn load(&self, t: &mut Traversal<String>) -> (r: Result<(), QueryError>)
        requires
            old(t).inv(),
        ensures
            final(t).inv(),
            final(t).model() == old(t).model(),
            final(t).frame() == old(t).frame(),
            final(t).axes() == old(t).axes(),
            r is Ok <==> forall|v: VertexKey|
                old(t).model().scheduled.contains(v) && !old(t).vertex_map().dom().contains(v)
                    ==> lookup(self.catalog(), v) is Some,
            r is Ok ==> final(t).vertex_map().dom() == old(t).model().scheduled,
            r is Ok ==> forall|v: VertexKey|
                old(t).model().scheduled.contains(v) ==> #[trigger] final(t).vertex_map()[v] == (
                if old(t).vertex_map().dom().contains(v) {
                    old(t).vertex_map()[v]
                } else {
                    lookup(self.catalog(), v).unwrap()
                }),
    {
        let ghost scheduled = t.model().scheduled;
        let ghost before = t.vertex_map();
        let ghost catalog = self.catalog();
        proof {
            t.lemma_inv();
        }
        let mut k: usize = 0;
        while k < 5
            invariant
                k <= 5,
                t.inv(),
                t.model() == old(t).model(),
                t.frame() == old(t).frame(),
                t.axes() == old(t).axes(),
                scheduled == old(t).model().scheduled,
                before == old(t).vertex_map(),
                catalog == self.catalog(),
                before.dom().subset_of(scheduled),
                before.dom().subset_of(t.vertex_map().dom()),
                t.vertex_map().dom().subset_of(scheduled),
                forall|v: VertexKey|
                    t.vertex_map().dom().contains(v) ==> #[trigger] t.vertex_map()[v] == (
                    if before.dom().contains(v) {
                        before[v]
                    } else {
                        lookup(catalog, v).unwrap()
                    }),
                forall|v: VertexKey|
                    t.vertex_map().dom().contains(v) && !before.dom().contains(v)
                        ==> #[trigger] lookup(catalog, v) is Some,
                forall|v: VertexKey, j: int|
                    scheduled.contains(v) && 0 <= j < k && v.kind() == #[trigger] kind_at_spec(j)
                        ==> #[trigger] t.vertex_map().dom().contains(v),
            decreases 5 - k,
        {
            let kind = kind_at(k);
            let ids = t.missing_vertices(kind);
            let ghost cur = t.vertex_map();
            proof {
                crate::driver::lemma_distinct_views(ids@);
            }
            match self.payloads_for(&ids) {
                None => {
                    proof {
                        let i = choose|i: int|
                            0 <= i < ids@.len() && !(lookup(catalog, (#[trigger] ids@[i])@)
                                is Some);
                        let v = ids@[i]@;
                        assert(key_set(ids@).contains(v));
                        assert(scheduled.contains(v));
                        assert(!cur.dom().contains(v));
                        assert(!before.dom().contains(v));
                        assert(!(lookup(catalog, v) is Some));
                    }
                    return Err(QueryError);
                },
                Some(payloads) => {
                    let ghost keys = id_keys(ids@);
                    let ghost ps = payloads@;
                    proof {
                        assert forall|i: int| 0 <= i < keys.len() implies !cur.dom().contains(
                            #[trigger] keys[i],
                        ) && scheduled.contains(keys[i]) by {
                            assert(key_set(ids@).contains(ids@[i]@));
                        }
                        crate::driver::lemma_installed(cur, keys, ps);
                    }
                    let done = t.install_vertices(ids, payloads);
                    proof {
                        assert(done is Ok);
                        let now = t.vertex_map();
                        assert(now == installed(cur, keys, ps));
                        assert forall|v: VertexKey| now.dom().contains(v) implies (
                        #[trigger] now[v]) == (if before.dom().contains(v) {
                            before[v]
                        } else {
                            lookup(catalog, v).unwrap()
                        }) && scheduled.contains(v) && (!before.dom().contains(v) ==> lookup(
                            catalog,
                            v,
                        ) is Some) by {
                            if cur.dom().contains(v) {
                                assert(now[v] == cur[v]);
                            } else {
                                let i = choose|i: int| 0 <= i < keys.len() && keys[i] == v;
                                assert(now[keys[i]] == ps[i]);
                                assert(Some(ps[i]) == lookup(catalog, ids@[i]@));
                            }
                        }
                        assert forall|v: VertexKey, j: int|
                            scheduled.contains(v) && 0 <= j < k + 1 && v.kind()
                                == #[trigger] kind_at_spec(j) implies #[trigger] now.dom().contains(
                            v,
                        ) by {
                            if j < k {
                                assert(cur.dom().contains(v));
                            } else if !cur.dom().contains(v) {
                                assert(key_set(ids@).contains(v));
                                assert(keys.contains(v));
                            }
                        }
                    }
                },
            }
            k += 1;
        }
        proof {
            assert forall|v: VertexKey| scheduled.contains(v) implies t.vertex_map().dom().contains(
                v,
            ) by {
                lemma_every_kind(v.kind());
                let j = choose|j: int| 0 <= j < 5 && kind_at_spec(j) == v.kind();
                assert(kind_at_spec(j) == v.kind());
            }
            assert(t.vertex_map().dom() =~= scheduled);
        }
        Ok(())
    }
}

/// The five kinds of vertex in the order in which a loader reads them.
pub open spec fn kind_at_spec(i: int) -> VertexKind {
    if i == 0 {
        VertexKind::DataType
    } else if i == 1 {
        VertexKind::PropertyType
    } else if i == 2 {
        VertexKind::EntityType
    } else if i == 3 {
        VertexKind::Entity
    } else {
        VertexKind::EntityInterval
    }
}

/// Every kind of vertex has its turn.
pub proof fn lemma_every_kind(kind: VertexKind)
    ensures
        exists|j: int| 0 <= j < 5 && kind_at_spec(j) == kind,
{
    match kind {
        VertexKind::DataType => {
            assert(kind_at_spec(0) == kind);
        },
        VertexKind::PropertyType => {
            assert(kind_at_spec(1) == kind);
        },
        VertexKind::EntityType => {
            assert(kind_at_spec(2) == kind);
        },
        VertexKind::Entity => {
            assert(kind_at_spec(3) == kind);
        },
        VertexKind::EntityInterval => {
            assert(kind_at_spec(4) == kind);
        },
    }
}

/// The kind of vertex that a loader reads in its turn `i`.
pub fn kind_at(i: usize) -> (r: VertexKind)
    ensures
        r == kind_at_spec(i as int),
{
    if i == 0 {
        VertexKind::DataType
    } else if i == 1 {
        VertexKind::PropertyType
    } else if i == 2 {
        VertexKind::EntityType
    } else if i == 3 {
        VertexKind::Entity
    } else {
        VertexKind::EntityInterval
    }
}

} // verus!
