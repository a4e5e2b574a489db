//! The traversal context: which vertices a query has scheduled.
//!
//! A vertex is scheduled when it is enqueued, not when it is expanded, and
//! it is known by its identifier alone: a vertex reached a second time, with
//! whatever budget, is not enqueued again.

use vstd::prelude::*;
use crate::identifier::{
    distinct_keys, key_set, lemma_key_set_push, names_vertex, VertexId, VertexKey, VertexKind,
};

verus! {

/// The set of vertices scheduled so far.
pub struct TraversalContext {
    scheduled: Vec<VertexId>,
}

impl TraversalContext {
    /// The scheduled vertices.
    pub closed spec fn scheduled_set(&self) -> Set<VertexKey> {
        key_set(self.scheduled@)
    }

    /// The representation holds each vertex once.
    pub closed spec fn wf(&self) -> bool {
        distinct_keys(self.scheduled@)
    }

    /// A context in which nothing is scheduled.
    pub fn new() -> (r: TraversalContext)
        ensures
            r.wf(),
            r.scheduled_set() == Set::<VertexKey>::empty(),
    {
        let r = TraversalContext { scheduled: Vec::new() };
        assert(r.scheduled_set() =~= Set::<VertexKey>::empty());
        r
    }

    /// Whether the vertex was scheduled.
    pub fn is_scheduled(&self, id: &VertexId) -> (r: bool)
        ensures
            r == self.scheduled_set().contains(id@),
    {
        names_vertex(&self.scheduled, id)
    }

    /// Schedules a vertex. Returns whether it was new; a vertex scheduled
    /// before stays scheduled and nothing changes.
    pub fn schedule(&mut self, id: VertexId) -> (fresh: bool)
        requires
            old(self).wf(),
        ensures
            final(self).wf(),
            fresh == !old(self).scheduled_set().contains(id@),
            final(self).scheduled_set() == old(self).scheduled_set().insert(id@),
    {
        if names_vertex(&self.scheduled, &id) {
            assert(self.scheduled_set().insert(id@) =~= self.scheduled_set());
            false
        } else {
            proof {
                lemma_key_set_push(self.scheduled@, id);
            }
            self.scheduled.push(id);
            true
        }
    }

    /// How many vertices are scheduled.
    pub fn len(&self) -> (r: usize)
        requires
            self.wf(),
        ensures
            r == self.scheduled_ids_spec().len(),
    {
        self.scheduled.len()
    }

    /// The scheduled vertices in the order in which they were scheduled.
    pub closed spec fn scheduled_ids_spec(&self) -> Seq<VertexId> {
        self.scheduled@
    }

    /// The scheduled vertex at a position.
    pub fn get(&self, i: usize) -> (r: &VertexId)
        requires
            i < self.scheduled_ids_spec().len(),
        ensures
            *r == self.scheduled_ids_spec()[i as int],
            self.scheduled_set().contains(r@),
    {
        &self.scheduled[i]
    }

    /// The order of scheduling names exactly the scheduled vertices, each once.
    pub proof fn lemma_scheduled_ids(&self)
        requires
            self.wf(),
        ensures
            key_set(self.scheduled_ids_spec()) == self.scheduled_set(),
            distinct_keys(self.scheduled_ids_spec()),
    {
    }

    /// The scheduled vertices of one kind, each once.
    pub fn scheduled_ids(&self, kind: VertexKind) -> (r: Vec<VertexId>)
        requires
            self.wf(),
        ensures
            distinct_keys(r@),
            forall|k: VertexKey|
                key_set(r@).contains(k) <==> (self.scheduled_set().contains(k) && k.kind() == kind),
    {
        let ghost ids = self.scheduled@;
        let mut out: Vec<VertexId> = Vec::new();
        let mut i: usize = 0;
        while i < self.scheduled.len()
            invariant
                i <= self.scheduled.len(),
                ids == self.scheduled@,
                distinct_keys(ids),
                distinct_keys(out@),
                forall|k: VertexKey|
                    key_set(out@).contains(k) <==> (key_set(ids.take(i as int)).contains(k)
                        && k.kind() == kind),
            decreases self.scheduled.len() - i,
        {
            proof {
                assert(ids.take(i as int + 1) =~= ids.take(i as int).push(ids[i as int]));
                lemma_key_set_push(ids.take(i as int), ids[i as int]);
            }
            if self.scheduled[i].kind() == kind {
                let id = self.scheduled[i].duplicate();
                proof {
                    if key_set(out@).contains(id@) {
                        let j = choose|j: int|
                            0 <= j < i && (#[trigger] ids.take(i as int)[j])@ == id@;
                        assert(ids[j]@ != ids[i as int]@);
                    }
                    lemma_key_set_push(out@, id);
                }
                out.push(id);
            }
            i += 1;
        }
        assert(ids.take(i as int) =~= ids);
        out
    }
}

} // verus!
