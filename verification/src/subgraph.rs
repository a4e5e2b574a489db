//! The subgraph: the accumulator a query fills and finally returns.
//!
//! A subgraph is a map from vertices to payloads, a set of directed, kinded
//! edges and a set of roots. It keeps one keyed map for each of the five
//! kinds of vertex; seen from outside they are one map, since the kind is
//! part of an identifier.

use vstd::prelude::*;
use crate::depths::GraphResolveDepths;
use crate::edges::{EdgeDirection, EdgeKind};
use crate::identifier::{
    distinct_keys, key_set, lemma_key_set_push, names_vertex, VertexId, VertexKey, VertexKind,
};
use crate::temporal::QueryTemporalAxes;

verus! {

/// A directed edge of one kind between two vertices. The source is the
/// vertex from which the edge was discovered.
#[derive(Debug, Clone, PartialEq, Eq, Hash)]
pub struct Edge {
    pub source: VertexId,
    pub kind: EdgeKind,
    pub direction: EdgeDirection,
    pub target: VertexId,
}

/// The view of an [`Edge`].
pub struct EdgeKey {
    pub source: VertexKey,
    pub kind: EdgeKind,
    pub direction: EdgeDirection,
    pub target: VertexKey,
}

impl View for Edge {
    type V = EdgeKey;

    open spec fn view(&self) -> EdgeKey {
        EdgeKey {
            source: self.source@,
            kind: self.kind,
            direction: self.direction,
            target: self.target@,
        }
    }
}

impl Edge {
    /// Whether two edges join the same vertices in the same way.
    pub fn equals(&self, other: &Edge) -> (r: bool)
        ensures
            r == (self@ == other@),
    {
        self.kind == other.kind && self.direction == other.direction && self.source.equals(
            &other.source,
        ) && self.target.equals(&other.target)
    }

    /// A copy of the edge.
    pub fn duplicate(&self) -> (r: Edge)
        ensures
            r@ == self@,
    {
        Edge {
            source: self.source.duplicate(),
            kind: self.kind,
            direction: self.direction,
            target: self.target.duplicate(),
        }
    }
}

/// The set of edges in a list.
pub open spec fn edge_set(edges: Seq<Edge>) -> Set<EdgeKey> {
    Set::new(|e: EdgeKey| exists|i: int| 0 <= i < edges.len() && (#[trigger] edges[i])@ == e)
}

/// Whether no edge occurs twice in a list.
pub open spec fn distinct_edges(edges: Seq<Edge>) -> bool {
    forall|i: int, j: int|
        0 <= i < j < edges.len() ==> (#[trigger] edges[i])@ != (#[trigger] edges[j])@
}

/// The map that a list of keyed payloads stands for: of two entries with the
/// same key the earlier one counts.
pub open spec fn entries_map<P>(entries: Seq<(VertexId, P)>) -> Map<VertexKey, P>
    decreases entries.len(),
{
    if entries.len() == 0 {
        Map::empty()
    } else {
        insert_if_absent(entries_map(entries.drop_last()), entries.last().0@, entries.last().1)
    }
}

/// `m` with `k` bound to `p` unless `k` is bound already.
pub open spec fn insert_if_absent<P>(m: Map<VertexKey, P>, k: VertexKey, p: P) -> Map<
    VertexKey,
    P,
> {
    if m.dom().contains(k) {
        m
    } else {
        m.insert(k, p)
    }
}

/// The identifiers of a list of keyed payloads, in order.
pub open spec fn entry_ids<P>(entries: Seq<(VertexId, P)>) -> Seq<VertexId> {
    entries.map_values(|e: (VertexId, P)| e.0)
}

/// The keys of the map are the vertices that the entries name, and an entry
/// whose key no earlier entry has is what the map holds for that key.
pub proof fn lemma_entries_map<P>(entries: Seq<(VertexId, P)>)
    ensures
        entries_map(entries).dom() == key_set(entry_ids(entries)),
        distinct_keys(entry_ids(entries)) ==> forall|i: int|
            0 <= i < entries.len() ==> entries_map(entries)[(#[trigger] entries[i]).0@]
                == entries[i].1,
    decreases entries.len(),
{
    let ids = entry_ids(entries);
    if entries.len() == 0 {
        assert(entries_map(entries).dom() =~= key_set(ids));
    } else {
        let front = entries.drop_last();
        lemma_entries_map(front);
        assert(entry_ids(front).push(entries.last().0) =~= ids);
        lemma_key_set_push(entry_ids(front), entries.last().0);
        assert(entries_map(entries).dom() =~= key_set(ids));
        if distinct_keys(ids) {
            assert forall|i: int, j: int| 0 <= i < j < front.len() implies (#[trigger] entry_ids(
                front,
            )[i])@ != (#[trigger] entry_ids(front)[j])@ by {
                assert(ids[i]@ != ids[j]@);
            }
            assert forall|i: int| 0 <= i < entries.len() implies entries_map(entries)[(
            #[trigger] entries[i]).0@] == entries[i].1 by {
                let last = entries.len() - 1;
                if i < last {
                    assert(front[i] == entries[i]);
                    assert(ids[i]@ != ids[last]@);
                    assert(entry_ids(front)[i]@ == entries[i].0@);
                    assert(key_set(entry_ids(front)).contains(entries[i].0@));
                } else {
                    if key_set(entry_ids(front)).contains(entries[i].0@) {
                        let j = choose|j: int|
                            0 <= j < front.len() && (#[trigger] entry_ids(front)[j])@
                                == entries[i].0@;
                        assert(ids[j]@ != ids[last]@);
                    }
                }
            }
        }
    }
}

/// A keyed map of the vertices of one kind: each vertex once, with its payload.
pub struct VertexMap<P> {
    entries: Vec<(VertexId, P)>,
}

impl<P> VertexMap<P> {
    /// The payload of every vertex, by identifier.
    pub closed spec fn map(&self) -> Map<VertexKey, P> {
        entries_map(self.entries@)
    }

    /// The representation holds each vertex once.
    pub closed spec fn wf(&self) -> bool {
        distinct_keys(entry_ids(self.entries@))
    }

    /// An empty map.
    pub fn new() -> (r: VertexMap<P>)
        ensures
            r.wf(),
            r.map() == Map::<VertexKey, P>::empty(),
    {
        VertexMap { entries: Vec::new() }
    }

    fn position(&self, id: &VertexId) -> (r: Option<usize>)
        requires
            self.wf(),
        ensures
            r is Some == self.map().dom().contains(id@),
            r matches Some(i) ==> i < self.entries@.len() && self.entries@[i as int].0@ == id@
                && self.map()[id@] == self.entries@[i as int].1,
    {
        proof {
            lemma_entries_map(self.entries@);
        }
        let mut i: usize = 0;
        while i < self.entries.len()
            invariant
                self.wf(),
                i <= self.entries.len(),
                forall|j: int| 0 <= j < i ==> (#[trigger] entry_ids(self.entries@)[j])@ != id@,
            decreases self.entries.len() - i,
        {
            if self.entries[i].0.equals(id) {
                proof {
                    lemma_entries_map(self.entries@);
                    assert(entry_ids(self.entries@)[i as int]@ == id@);
                }
                return Some(i);
            }
            i += 1;
        }
        None
    }

    /// The payload of a vertex.
    pub fn get(&self, id: &VertexId) -> (r: Option<&P>)
        requires
            self.wf(),
        ensures
            r is Some == self.map().dom().contains(id@),
            r matches Some(p) ==> *p == self.map()[id@],
    {
        match self.position(id) {
            Some(i) => Some(&self.entries[i].1),
            None => None,
        }
    }

    /// Gives a vertex its payload unless it has one.
    pub fn insert(&mut self, id: VertexId, payload: P)
        requires
            old(self).wf(),
        ensures
            final(self).wf(),
            final(self).map() == insert_if_absent(old(self).map(), id@, payload),
    {
        if self.position(&id).is_none() {
            proof {
                lemma_entries_map(self.entries@);
                lemma_key_set_push(entry_ids(self.entries@), id);
                assert(entry_ids(self.entries@.push((id, payload))) =~= entry_ids(
                    self.entries@,
                ).push(id));
                assert(self.entries@.push((id, payload)).drop_last() =~= self.entries@);
            }
            self.entries.push((id, payload));
        }
    }

    /// The identifiers of the vertices, each once.
    pub fn ids(&self) -> (r: Vec<VertexId>)
        requires
            self.wf(),
        ensures
            distinct_keys(r@),
            key_set(r@) == self.map().dom(),
    {
        let mut out: Vec<VertexId> = Vec::new();
        let mut i: usize = 0;
        while i < self.entries.len()
            invariant
                i <= self.entries.len(),
                out@.len() == i,
                forall|j: int| 0 <= j < i ==> (#[trigger] out@[j])@ == self.entries@[j].0@,
            decreases self.entries.len() - i,
        {
            out.push(self.entries[i].0.duplicate());
            i += 1;
        }
        proof {
            let ids = entry_ids(self.entries@);
            lemma_entries_map(self.entries@);
            assert forall|k: VertexKey| key_set(out@).contains(k) <==> key_set(ids).contains(
                k,
            ) by {
                if key_set(out@).contains(k) {
                    let j = choose|j: int| 0 <= j < out@.len() && (#[trigger] out@[j])@ == k;
                    assert(ids[j]@ == k);
                }
                if key_set(ids).contains(k) {
                    let j = choose|j: int| 0 <= j < ids.len() && (#[trigger] ids[j])@ == k;
                    assert(out@[j]@ == k);
                }
            }
            assert(key_set(out@) =~= self.map().dom());
            assert forall|i: int, j: int| 0 <= i < j < out@.len() implies (#[trigger] out@[i])@ != (
            #[trigger] out@[j])@ by {
                assert(ids[i]@ != ids[j]@);
            }
        }
        out
    }
}

/// The accumulator of a query and its final result: one keyed map of
/// vertices for each of the five kinds, the edges, and the roots.
pub struct Subgraph<P> {
    data_types: VertexMap<P>,
    property_types: VertexMap<P>,
    entity_types: VertexMap<P>,
    entities: VertexMap<P>,
    entity_intervals: VertexMap<P>,
    edges: Vec<Edge>,
    roots: Vec<VertexId>,
    depths: GraphResolveDepths,
    temporal_axes: QueryTemporalAxes,
}

impl<P> Subgraph<P> {
    /// The payloads of the vertices of one kind.
    pub closed spec fn of_kind(&self, kind: VertexKind) -> Map<VertexKey, P> {
        match kind {
            VertexKind::DataType => self.data_types.map(),
            VertexKind::PropertyType => self.property_types.map(),
            VertexKind::EntityType => self.entity_types.map(),
            VertexKind::Entity => self.entities.map(),
            VertexKind::EntityInterval => self.entity_intervals.map(),
        }
    }

    /// The payload of every vertex, by identifier.
    pub closed spec fn vertex_map(&self) -> Map<VertexKey, P> {
        Map::new(
            |k: VertexKey| self.of_kind(k.kind()).dom().contains(k),
            |k: VertexKey| self.of_kind(k.kind())[k],
        )
    }

    /// The edges.
    pub closed spec fn edge_set(&self) -> Set<EdgeKey> {
        edge_set(self.edges@)
    }

    /// The roots.
    pub closed spec fn root_set(&self) -> Set<VertexKey> {
        key_set(self.roots@)
    }

    /// The depths the query was made with.
    pub closed spec fn depths_spec(&self) -> GraphResolveDepths {
        self.depths
    }

    /// The projection the query was made under.
    pub closed spec fn axes_spec(&self) -> QueryTemporalAxes {
        self.temporal_axes
    }

    /// The representation holds each vertex, edge and root once, and each
    /// vertex in the map of its kind.
    pub closed spec fn wf(&self) -> bool {
        &&& self.data_types.wf()
        &&& self.property_types.wf()
        &&& self.entity_types.wf()
        &&& self.entities.wf()
        &&& self.entity_intervals.wf()
        &&& forall|kind: VertexKind, k: VertexKey| #[trigger]
            self.of_kind(kind).dom().contains(k) ==> k.kind() == kind
        &&& distinct_edges(self.edges@)
        &&& distinct_keys(self.roots@)
    }

    /// Whether a vertex has a payload.
    pub open spec fn has_vertex(&self, k: VertexKey) -> bool {
        self.vertex_map().dom().contains(k)
    }

    /// Whether both ends of every edge have a payload.
    pub open spec fn edges_closed(&self) -> bool {
        forall|e: EdgeKey| #[trigger]
            self.edge_set().contains(e) ==> self.has_vertex(e.source) && self.has_vertex(e.target)
    }

    /// Whether every root has a payload.
    pub open spec fn roots_covered(&self) -> bool {
        forall|k: VertexKey| #[trigger] self.root_set().contains(k) ==> self.has_vertex(k)
    }

    /// An empty subgraph for a query with the given depths and projection.
    pub fn new(depths: GraphResolveDepths, temporal_axes: QueryTemporalAxes) -> (r: Subgraph<P>)
        ensures
            r.wf(),
            r.vertex_map() == Map::<VertexKey, P>::empty(),
            r.edge_set() == Set::<EdgeKey>::empty(),
            r.root_set() == Set::<VertexKey>::empty(),
            r.depths_spec() == depths,
            r.axes_spec() == temporal_axes,
    {
        let r = Subgraph {
            data_types: VertexMap::new(),
            property_types: VertexMap::new(),
            entity_types: VertexMap::new(),
            entities: VertexMap::new(),
            entity_intervals: VertexMap::new(),
            edges: Vec::new(),
            roots: Vec::new(),
            depths,
            temporal_axes,
        };
        assert(r.edge_set() =~= Set::<EdgeKey>::empty());
        assert(r.root_set() =~= Set::<VertexKey>::empty());
        assert(r.vertex_map() =~= Map::<VertexKey, P>::empty());
        r
    }

    /// The depths the query was made with.
    pub fn depths(&self) -> (r: GraphResolveDepths)
        ensures
            r == self.depths_spec(),
    {
        self.depths
    }

    /// The projection the query was made under.
    pub fn temporal_axes(&self) -> (r: QueryTemporalAxes)
        ensures
            r == self.axes_spec(),
    {
        self.temporal_axes
    }

    fn map_of(&self, kind: VertexKind) -> (r: &VertexMap<P>)
        requires
            self.wf(),
        ensures
            r.wf(),
            r.map() == self.of_kind(kind),
    {
        match kind {
            VertexKind::DataType => &self.data_types,
            VertexKind::PropertyType => &self.property_types,
            VertexKind::EntityType => &self.entity_types,
            VertexKind::Entity => &self.entities,
            VertexKind::EntityInterval => &self.entity_intervals,
        }
    }

    /// Whether the vertex has a payload.
    pub fn contains_vertex(&self, id: &VertexId) -> (r: bool)
        requires
            self.wf(),
        ensures
            r == self.has_vertex(id@),
    {
        self.map_of(id.kind()).get(id).is_some()
    }

    /// The payload of a vertex.
    pub fn payload(&self, id: &VertexId) -> (r: Option<&P>)
        requires
            self.wf(),
        ensures
            r is Some == self.has_vertex(id@),
            r matches Some(p) ==> *p == self.vertex_map()[id@],
    {
        self.map_of(id.kind()).get(id)
    }

    /// Gives a vertex its payload, in the map of the vertex's kind. A vertex
    /// that has one keeps it: a second insert under the same identifier
    /// changes nothing.
    pub fn insert_vertex(&mut self, id: VertexId, payload: P)
        requires
            old(self).wf(),
        ensures
            final(self).wf(),
            final(self).vertex_map() == insert_if_absent(old(self).vertex_map(), id@, payload),
            final(self).edge_set() == old(self).edge_set(),
            final(self).root_set() == old(self).root_set(),
            final(self).depths_spec() == old(self).depths_spec(),
            final(self).axes_spec() == old(self).axes_spec(),
    {
        let ghost key = id@;
        match id.kind() {
            VertexKind::DataType => {
                self.data_types.insert(id, payload);
            },
            VertexKind::PropertyType => {
                self.property_types.insert(id, payload);
            },
            VertexKind::EntityType => {
                self.entity_types.insert(id, payload);
            },
            VertexKind::Entity => {
                self.entities.insert(id, payload);
            },
            VertexKind::EntityInterval => {
                self.entity_intervals.insert(id, payload);
            },
        }
        proof {
            assert forall|kind: VertexKind|
                #![trigger self.of_kind(kind)]
                self.of_kind(kind) == if kind == key.kind() {
                    insert_if_absent(old(self).of_kind(kind), key, payload)
                } else {
                    old(self).of_kind(kind)
                } by {}
            assert forall|kind: VertexKind, k: VertexKey| #[trigger]
                self.of_kind(kind).dom().contains(k) implies k.kind() == kind by {
                if k != key {
                    assert(old(self).of_kind(kind).dom().contains(k));
                }
            }
            assert(self.vertex_map() =~= insert_if_absent(old(self).vertex_map(), key, payload));
        }
    }

    /// Whether the edge is in the subgraph.
    pub fn contains_edge(&self, edge: &Edge) -> (r: bool)
        ensures
            r == self.edge_set().contains(edge@),
    {
        let mut i: usize = 0;
        while i < self.edges.len()
            invariant
                i <= self.edges.len(),
                forall|j: int| 0 <= j < i ==> (#[trigger] self.edges@[j])@ != edge@,
            decreases self.edges.len() - i,
        {
            if self.edges[i].equals(edge) {
                return true;
            }
            i += 1;
        }
        false
    }

    /// Adds an edge. An edge is known by its source, kind, direction and
    /// target: adding it a second time changes nothing.
    pub fn insert_edge(
        &mut self,
        source: VertexId,
        kind: EdgeKind,
        direction: EdgeDirection,
        target: VertexId,
    )
        requires
            old(self).wf(),
        ensures
            final(self).wf(),
            final(self).edge_set() == old(self).edge_set().insert(
                EdgeKey { source: source@, kind, direction, target: target@ },
            ),
            final(self).vertex_map() == old(self).vertex_map(),
            final(self).root_set() == old(self).root_set(),
            final(self).depths_spec() == old(self).depths_spec(),
            final(self).axes_spec() == old(self).axes_spec(),
    {
        let edge = Edge { source, kind, direction, target };
        if !self.contains_edge(&edge) {
            proof {
                lemma_edge_set_push(self.edges@, edge);
            }
            self.edges.push(edge);
        } else {
            assert(self.edge_set().insert(edge@) =~= self.edge_set());
        }
        proof {
            assert forall|kind: VertexKind, k: VertexKey| #[trigger]
                self.of_kind(kind).dom().contains(k) implies k.kind() == kind by {
                assert(old(self).of_kind(kind).dom().contains(k));
            }
        }
    }

    /// Whether the vertex is a root.
    pub fn is_root(&self, id: &VertexId) -> (r: bool)
        ensures
            r == self.root_set().contains(id@),
    {
        names_vertex(&self.roots, id)
    }

    /// Marks a vertex as a root; marking it again changes nothing.
    pub fn add_root(&mut self, id: VertexId)
        requires
            old(self).wf(),
        ensures
            final(self).wf(),
            final(self).root_set() == old(self).root_set().insert(id@),
            final(self).vertex_map() == old(self).vertex_map(),
            final(self).edge_set() == old(self).edge_set(),
            final(self).depths_spec() == old(self).depths_spec(),
            final(self).axes_spec() == old(self).axes_spec(),
    {
        if !names_vertex(&self.roots, &id) {
            proof {
                lemma_key_set_push(self.roots@, id);
            }
            self.roots.push(id);
        } else {
            assert(self.root_set().insert(id@) =~= self.root_set());
        }
        proof {
            assert forall|kind: VertexKind, k: VertexKey| #[trigger]
                self.of_kind(kind).dom().contains(k) implies k.kind() == kind by {
                assert(old(self).of_kind(kind).dom().contains(k));
            }
        }
    }

    /// The identifiers of the vertices of one kind that have a payload, each once.
    pub fn vertex_ids(&self, kind: VertexKind) -> (r: Vec<VertexId>)
        requires
            self.wf(),
        ensures
            distinct_keys(r@),
            forall|k: VertexKey|
                key_set(r@).contains(k) <==> (self.has_vertex(k) && k.kind() == kind),
    {
        let r = self.map_of(kind).ids();
        proof {
            assert forall|k: VertexKey|
                key_set(r@).contains(k) <==> (self.has_vertex(k) && k.kind() == kind) by {
                if key_set(r@).contains(k) {
                    assert(self.of_kind(kind).dom().contains(k));
                }
            }
        }
        r
    }

    /// The roots, each once.
    pub fn roots(&self) -> (r: Vec<VertexId>)
        requires
            self.wf(),
        ensures
            distinct_keys(r@),
            key_set(r@) == self.root_set(),
    {
        let mut out: Vec<VertexId> = Vec::new();
        let mut i: usize = 0;
        while i < self.roots.len()
            invariant
                i <= self.roots.len(),
                out@.len() == i,
                forall|j: int| 0 <= j < i ==> (#[trigger] out@[j])@ == self.roots@[j]@,
            decreases self.roots.len() - i,
        {
            out.push(self.roots[i].duplicate());
            i += 1;
        }
        proof {
            assert forall|k: VertexKey| key_set(out@).contains(k) <==> key_set(
                self.roots@,
            ).contains(k) by {
                if key_set(out@).contains(k) {
                    let j = choose|j: int| 0 <= j < out@.len() && (#[trigger] out@[j])@ == k;
                    assert(self.roots@[j]@ == k);
                }
                if key_set(self.roots@).contains(k) {
                    let j = choose|j: int|
                        0 <= j < self.roots@.len() && (#[trigger] self.roots@[j])@ == k;
                    assert(out@[j]@ == k);
                }
            }
            assert(key_set(out@) =~= self.root_set());
            assert forall|i: int, j: int| 0 <= i < j < out@.len() implies (#[trigger] out@[i])@ != (
            #[trigger] out@[j])@ by {
                assert(self.roots@[i]@ != self.roots@[j]@);
            }
        }
        out
    }

    /// The edges, each once.
    pub fn edges(&self) -> (r: Vec<Edge>)
        requires
            self.wf(),
        ensures
            distinct_edges(r@),
            edge_set(r@) == self.edge_set(),
    {
        let mut out: Vec<Edge> = Vec::new();
        let mut i: usize = 0;
        while i < self.edges.len()
            invariant
                i <= self.edges.len(),
                out@.len() == i,
                forall|j: int| 0 <= j < i ==> (#[trigger] out@[j])@ == self.edges@[j]@,
            decreases self.edges.len() - i,
        {
            out.push(self.edges[i].duplicate());
            i += 1;
        }
        proof {
            assert forall|e: EdgeKey| edge_set(out@).contains(e) <==> edge_set(
                self.edges@,
            ).contains(e) by {
                if edge_set(out@).contains(e) {
                    let j = choose|j: int| 0 <= j < out@.len() && (#[trigger] out@[j])@ == e;
                    assert(self.edges@[j]@ == e);
                }
                if edge_set(self.edges@).contains(e) {
                    let j = choose|j: int|
                        0 <= j < self.edges@.len() && (#[trigger] self.edges@[j])@ == e;
                    assert(out@[j]@ == e);
                }
            }
            assert(edge_set(out@) =~= self.edge_set());
            assert forall|i: int, j: int| 0 <= i < j < out@.len() implies (#[trigger] out@[i])@ != (
            #[trigger] out@[j])@ by {
                assert(self.edges@[i]@ != self.edges@[j]@);
            }
        }
        out
    }
}

/// Adding an edge at the end of a list adds it to the set of edges.
pub proof fn lemma_edge_set_push(edges: Seq<Edge>, edge: Edge)
    ensures
        edge_set(edges.push(edge)) == edge_set(edges).insert(edge@),
        distinct_edges(edges) && !edge_set(edges).contains(edge@) ==> distinct_edges(
            edges.push(edge),
        ),
{
    let longer = edges.push(edge);
    assert forall|e: EdgeKey| edge_set(longer).contains(e) <==> edge_set(edges).insert(
        edge@,
    ).contains(e) by {
        if edge_set(longer).contains(e) {
            let i = choose|i: int| 0 <= i < longer.len() && (#[trigger] longer[i])@ == e;
            if i < edges.len() {
                assert(edges[i]@ == e);
            }
        }
        if edge_set(edges).contains(e) {
            let i = choose|i: int| 0 <= i < edges.len() && (#[trigger] edges[i])@ == e;
            assert(longer[i]@ == e);
        }
        if e == edge@ {
            assert(longer[edges.len() as int]@ == e);
        }
    }
    assert(edge_set(longer) =~= edge_set(edges).insert(edge@));
    if distinct_edges(edges) && !edge_set(edges).contains(edge@) {
        assert forall|i: int, j: int| 0 <= i < j < longer.len() implies (#[trigger] longer[i])@ != (
        #[trigger] longer[j])@ by {
            if j == edges.len() {
                assert(edges[i]@ == longer[i]@);
            } else {
                assert(edges[i]@ == longer[i]@ && edges[j]@ == longer[j]@);
            }
        }
    }
}

} // verus!
