use hash_graph::depths::GraphResolveDepths;
use hash_graph::edges::{EdgeKind, KnowledgeGraphEdgeKind, OntologyEdgeKind, SharedEdgeKind};

fn depths(data_type: u8, property_type: u8, entity_type: u8, entity: u8) -> GraphResolveDepths {
    GraphResolveDepths {
        data_type_depth: data_type,
        property_type_depth: property_type,
        entity_type_depth: entity_type,
        entity_depth: entity,
    }
}

#[test]
fn zeroed_has_every_counter_at_zero() {
    assert_eq!(GraphResolveDepths::zeroed(), depths(0, 0, 0, 0));
}

#[test]
fn decrement_lowers_only_the_consumed_counter() {
    let d = depths(1, 2, 3, 4);
    assert_eq!(
        d.decrement(EdgeKind::Ontology(OntologyEdgeKind::InheritsFrom)),
        Some(depths(1, 2, 2, 4))
    );
    assert_eq!(
        d.decrement(EdgeKind::Ontology(OntologyEdgeKind::ConstrainsLinksOn)),
        Some(depths(1, 2, 2, 4))
    );
    assert_eq!(
        d.decrement(EdgeKind::Ontology(OntologyEdgeKind::ConstrainsLinkDestinationsOn)),
        Some(depths(1, 2, 2, 4))
    );
    assert_eq!(
        d.decrement(EdgeKind::Ontology(OntologyEdgeKind::ConstrainsPropertiesOn)),
        Some(depths(1, 1, 3, 4))
    );
    assert_eq!(
        d.decrement(EdgeKind::Ontology(OntologyEdgeKind::ConstrainsValuesOn)),
        Some(depths(0, 2, 3, 4))
    );
    assert_eq!(
        d.decrement(EdgeKind::Shared(SharedEdgeKind::IsOfType)),
        Some(depths(1, 2, 2, 4))
    );
    assert_eq!(
        d.decrement(EdgeKind::KnowledgeGraph(KnowledgeGraphEdgeKind::HasLeftEntity)),
        Some(depths(1, 2, 3, 3))
    );
    assert_eq!(
        d.decrement(EdgeKind::KnowledgeGraph(KnowledgeGraphEdgeKind::HasRightEntity)),
        Some(depths(1, 2, 3, 3))
    );
}

#[test]
fn decrement_at_zero_is_none_and_other_kinds_stay_usable() {
    let d = depths(0, 0, 1, 0);
    assert_eq!(d.decrement(EdgeKind::Ontology(OntologyEdgeKind::ConstrainsValuesOn)), None);
    assert_eq!(d.decrement(EdgeKind::Ontology(OntologyEdgeKind::ConstrainsPropertiesOn)), None);
    assert_eq!(
        d.decrement(EdgeKind::KnowledgeGraph(KnowledgeGraphEdgeKind::HasLeftEntity)),
        None
    );
    assert_eq!(
        d.decrement(EdgeKind::Shared(SharedEdgeKind::IsOfType)),
        Some(depths(0, 0, 0, 0))
    );
    assert!(d.is_zero_for(EdgeKind::Ontology(OntologyEdgeKind::ConstrainsValuesOn)));
    assert!(!d.is_zero_for(EdgeKind::Ontology(OntologyEdgeKind::InheritsFrom)));
}

#[test]
fn decrement_from_the_largest_counter() {
    let d = depths(255, 255, 255, 255);
    assert_eq!(
        d.decrement(EdgeKind::KnowledgeGraph(KnowledgeGraphEdgeKind::HasRightEntity)),
        Some(depths(255, 255, 255, 254))
    );
}
