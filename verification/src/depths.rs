//! The resolve-depth vector: one budget per kind of target vertex.

use vstd::prelude::*;
use crate::edges::{DepthCounter, EdgeKind};

verus! {

/// How far a query may follow edges, counted separately for each kind of
/// vertex an edge leads to.
#[derive(Debug, Clone, Copy, PartialEq, Eq, Structural)]
pub struct GraphResolveDepths {
    pub data_type_depth: u8,
    pub property_type_depth: u8,
    pub entity_type_depth: u8,
    pub entity_depth: u8,
}

impl GraphResolveDepths {
    /// The value of one counter.
    pub open spec fn counter(self, c: DepthCounter) -> nat {
        match c {
            DepthCounter::DataType => self.data_type_depth as nat,
            DepthCounter::PropertyType => self.property_type_depth as nat,
            DepthCounter::EntityType => self.entity_type_depth as nat,
            DepthCounter::Entity => self.entity_depth as nat,
        }
    }

    /// The sum of the four counters: the number of edges any path may still take.
    pub open spec fn total(self) -> nat {
        (self.data_type_depth + self.property_type_depth + self.entity_type_depth
            + self.entity_depth) as nat
    }

    /// Whether every counter is zero.
    pub open spec fn is_zeroed(self) -> bool {
        self.total() == 0
    }

    /// Componentwise `>=`.
    pub open spec fn dominates(self, other: GraphResolveDepths) -> bool {
        &&& self.data_type_depth >= other.data_type_depth
        &&& self.property_type_depth >= other.property_type_depth
        &&& self.entity_type_depth >= other.entity_type_depth
        &&& self.entity_depth >= other.entity_depth
    }

    /// The vector with one counter lowered by one; meaningful while that counter is positive.
    pub open spec fn lowered(self, c: DepthCounter) -> GraphResolveDepths {
        match c {
            DepthCounter::DataType => GraphResolveDepths {
                data_type_depth: (self.data_type_depth - 1) as u8,
                ..self
            },
            DepthCounter::PropertyType => GraphResolveDepths {
                property_type_depth: (self.property_type_depth - 1) as u8,
                ..self
            },
            DepthCounter::EntityType => GraphResolveDepths {
                entity_type_depth: (self.entity_type_depth - 1) as u8,
                ..self
            },
            DepthCounter::Entity => GraphResolveDepths {
                entity_depth: (self.entity_depth - 1) as u8,
                ..self
            },
        }
    }

    /// What following one edge of `kind` leaves of the budget, if the budget allows it.
    pub open spec fn decrement_spec(self, kind: EdgeKind) -> Option<GraphResolveDepths> {
        if self.counter(kind.counter_spec()) > 0 {
            Some(self.lowered(kind.counter_spec()))
        } else {
            None
        }
    }

    /// The vector that allows no edge at all.
    pub fn zeroed() -> (r: GraphResolveDepths)
        ensures
            r.data_type_depth == 0,
            r.property_type_depth == 0,
            r.entity_type_depth == 0,
            r.entity_depth == 0,
    {
        GraphResolveDepths {
            data_type_depth: 0,
            property_type_depth: 0,
            entity_type_depth: 0,
            entity_depth: 0,
        }
    }

    /// Whether the counter that `kind` consumes is exhausted.
    pub fn is_zero_for(&self, kind: EdgeKind) -> (r: bool)
        ensures
            r == (self.counter(kind.counter_spec()) == 0),
            r == (self.decrement_spec(kind) is None),
    {
        match kind.counter() {
            DepthCounter::DataType => self.data_type_depth == 0,
            DepthCounter::PropertyType => self.property_type_depth == 0,
            DepthCounter::EntityType => self.entity_type_depth == 0,
            DepthCounter::Entity => self.entity_depth == 0,
        }
    }

    /// Follows one edge of `kind`: the counter that the kind consumes goes
    /// down by one and the others stay; `None` when that counter is zero.
    pub fn decrement(&self, kind: EdgeKind) -> (r: Option<GraphResolveDepths>)
        ensures
            r == self.decrement_spec(kind),
    {
        match kind.counter() {
            DepthCounter::DataType => {
                if self.data_type_depth > 0 {
                    Some(GraphResolveDepths {
                        data_type_depth: self.data_type_depth - 1,
                        property_type_depth: self.property_type_depth,
                        entity_type_depth: self.entity_type_depth,
                        entity_depth: self.entity_depth,
                    })
                } else {
                    None
                }
            },
            DepthCounter::PropertyType => {
                if self.property_type_depth > 0 {
                    Some(GraphResolveDepths {
                        data_type_depth: self.data_type_depth,
                        property_type_depth: self.property_type_depth - 1,
                        entity_type_depth: self.entity_type_depth,
                        entity_depth: self.entity_depth,
                    })
                } else {
                    None
                }
            },
            DepthCounter::EntityType => {
                if self.entity_type_depth > 0 {
                    Some(GraphResolveDepths {
                        data_type_depth: self.data_type_depth,
                        property_type_depth: self.property_type_depth,
                        entity_type_depth: self.entity_type_depth - 1,
                        entity_depth: self.entity_depth,
                    })
                } else {
                    None
                }
            },
            DepthCounter::Entity => {
                if self.entity_depth > 0 {
                    Some(GraphResolveDepths {
                        data_type_depth: self.data_type_depth,
                        property_type_depth: self.property_type_depth,
                        entity_type_depth: self.entity_type_depth,
                        entity_depth: self.entity_depth - 1,
                    })
                } else {
                    None
                }
            },
        }
    }

    /// A decrement lowers exactly the consumed counter by one, leaves the
    /// others, and so lowers the total by one.
    pub proof fn lemma_decrement(self, kind: EdgeKind)
        requires
            self.decrement_spec(kind) is Some,
        ensures
            self.counter(kind.counter_spec()) > 0,
            self.decrement_spec(kind).unwrap().counter(kind.counter_spec()) + 1 == self.counter(
                kind.counter_spec(),
            ),
            forall|c: DepthCounter|
                c != kind.counter_spec() ==> #[trigger] self.decrement_spec(kind).unwrap().counter(
                    c,
                ) == self.counter(c),
            self.decrement_spec(kind).unwrap().total() + 1 == self.total(),
            self.dominates(self.decrement_spec(kind).unwrap()),
    {
    }
}

} // verus!
