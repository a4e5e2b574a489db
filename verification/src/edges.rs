//! Edge kinds, directions, and the depth counter each kind draws from.

use vstd::prelude::*;

verus! {

/// Relations between ontology types.
#[derive(Debug, Clone, Copy, PartialEq, Eq, Hash, Structural)]
pub enum OntologyEdgeKind {
    /// An entity type inherits from another entity type.
    InheritsFrom,
    /// A property type references a data type to constrain values.
    ConstrainsValuesOn,
    /// An entity type or property type references a property type.
    ConstrainsPropertiesOn,
    /// An entity type references a link entity type.
    ConstrainsLinksOn,
    /// An entity type references the entity type of a link's destination.
    ConstrainsLinkDestinationsOn,
}

/// Relations between entities; each is usable in both directions.
#[derive(Debug, Clone, Copy, PartialEq, Eq, Hash, Structural)]
pub enum KnowledgeGraphEdgeKind {
    /// A link entity has an entity on its left side.
    HasLeftEntity,
    /// A link entity has an entity on its right side.
    HasRightEntity,
}

/// Relations from an entity into the ontology.
#[derive(Debug, Clone, Copy, PartialEq, Eq, Hash, Structural)]
pub enum SharedEdgeKind {
    /// An entity is of an entity type.
    IsOfType,
}

/// Any edge kind the traversal can follow.
#[derive(Debug, Clone, Copy, PartialEq, Eq, Hash, Structural)]
pub enum EdgeKind {
    Ontology(OntologyEdgeKind),
    KnowledgeGraph(KnowledgeGraphEdgeKind),
    Shared(SharedEdgeKind),
}

/// The side from which an edge is followed.
#[derive(Debug, Clone, Copy, PartialEq, Eq, Hash, Structural)]
pub enum EdgeDirection {
    Outgoing,
    Incoming,
}

/// The four counters of a resolve-depth vector, named after the kind of
/// vertex an edge leads to.
#[derive(Debug, Clone, Copy, PartialEq, Eq, Hash, Structural)]
pub enum DepthCounter {
    DataType,
    PropertyType,
    EntityType,
    Entity,
}

impl EdgeDirection {
    /// The opposite direction.
    pub open spec fn reversed_spec(self) -> EdgeDirection {
        match self {
            EdgeDirection::Outgoing => EdgeDirection::Incoming,
            EdgeDirection::Incoming => EdgeDirection::Outgoing,
        }
    }

    /// The opposite direction.
    pub fn reversed(self) -> (r: EdgeDirection)
        ensures
            r == self.reversed_spec(),
    {
        match self {
            EdgeDirection::Outgoing => EdgeDirection::Incoming,
            EdgeDirection::Incoming => EdgeDirection::Outgoing,
        }
    }
}

impl EdgeKind {
    /// The counter an edge of this kind consumes: that of its target's kind.
    pub open spec fn counter_spec(self) -> DepthCounter {
        match self {
            EdgeKind::Ontology(OntologyEdgeKind::InheritsFrom) => DepthCounter::EntityType,
            EdgeKind::Ontology(OntologyEdgeKind::ConstrainsLinksOn) => DepthCounter::EntityType,
            EdgeKind::Ontology(OntologyEdgeKind::ConstrainsLinkDestinationsOn) => DepthCounter::EntityType,
            EdgeKind::Ontology(OntologyEdgeKind::ConstrainsPropertiesOn) => DepthCounter::PropertyType,
            EdgeKind::Ontology(OntologyEdgeKind::ConstrainsValuesOn) => DepthCounter::DataType,
            EdgeKind::Shared(SharedEdgeKind::IsOfType) => DepthCounter::EntityType,
            EdgeKind::KnowledgeGraph(_) => DepthCounter::Entity,
        }
    }

    /// The counter an edge of this kind consumes.
    pub fn counter(self) -> (r: DepthCounter)
        ensures
            r == self.counter_spec(),
    {
        match self {
            EdgeKind::Ontology(OntologyEdgeKind::InheritsFrom) => DepthCounter::EntityType,
            EdgeKind::Ontology(OntologyEdgeKind::ConstrainsLinksOn) => DepthCounter::EntityType,
            EdgeKind::Ontology(OntologyEdgeKind::ConstrainsLinkDestinationsOn) => DepthCounter::EntityType,
            EdgeKind::Ontology(OntologyEdgeKind::ConstrainsPropertiesOn) => DepthCounter::PropertyType,
            EdgeKind::Ontology(OntologyEdgeKind::ConstrainsValuesOn) => DepthCounter::DataType,
            EdgeKind::Shared(SharedEdgeKind::IsOfType) => DepthCounter::EntityType,
            EdgeKind::KnowledgeGraph(_) => DepthCounter::Entity,
        }
    }
}

} // verus!
