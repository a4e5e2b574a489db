use hash_graph::depths::GraphResolveDepths;
use hash_graph::edges::{EdgeDirection, EdgeKind, OntologyEdgeKind};
use hash_graph::identifier::{
    EntityId, EntityIdWithInterval, EntityVertexId, OntologyVertexId, VertexId, VertexKind,
};
use hash_graph::subgraph::{Edge, Subgraph};
use hash_graph::temporal::{
    QueryTemporalAxes, TemporalBound, TemporalInterval, TimeAxis,
};

fn axes() -> QueryTemporalAxes {
    QueryTemporalAxes {
        pinned: 0,
        variable_interval: TemporalInterval::new(
            TemporalBound::Unbounded,
            TemporalBound::Inclusive(100),
        ),
        variable_axis: TimeAxis::DecisionTime,
    }
}

fn entity_type(url: &str, revision: u32) -> VertexId {
    VertexId::EntityType(OntologyVertexId::new(url.to_string(), revision))
}

fn entity(owner: u128, uuid: u128, revision: i64) -> VertexId {
    VertexId::Entity(EntityVertexId {
        base_id: EntityId { owner_id: owner, entity_uuid: uuid },
        revision_id: revision,
    })
}

fn new_subgraph() -> Subgraph<String> {
    Subgraph::new(GraphResolveDepths::zeroed(), axes())
}

#[test]
fn new_subgraph_is_empty() {
    let g = new_subgraph();
    assert!(g.edges().is_empty());
    assert!(g.roots().is_empty());
    for kind in [
        VertexKind::DataType,
        VertexKind::PropertyType,
        VertexKind::EntityType,
        VertexKind::Entity,
        VertexKind::EntityInterval,
    ] {
        assert!(g.vertex_ids(kind).is_empty());
    }
    assert_eq!(g.depths(), GraphResolveDepths::zeroed());
    assert_eq!(g.temporal_axes(), axes());
}

#[test]
fn insert_vertex_is_idempotent() {
    let mut g = new_subgraph();
    g.insert_vertex(entity_type("https://example.com/a/", 1), "first".to_string());
    g.insert_vertex(entity_type("https://example.com/a/", 1), "second".to_string());
    assert_eq!(g.vertex_ids(VertexKind::EntityType).len(), 1);
    assert_eq!(
        g.payload(&entity_type("https://example.com/a/", 1)),
        Some(&"first".to_string())
    );
}

#[test]
fn vertices_differ_by_kind_url_and_revision() {
    let mut g = new_subgraph();
    g.insert_vertex(entity_type("https://example.com/a/", 1), "a1".to_string());
    g.insert_vertex(entity_type("https://example.com/a/", 2), "a2".to_string());
    g.insert_vertex(entity_type("https://example.com/b/", 1), "b1".to_string());
    g.insert_vertex(
        VertexId::PropertyType(OntologyVertexId::new("https://example.com/a/".to_string(), 1)),
        "p".to_string(),
    );
    g.insert_vertex(entity(1, 2, 3), "e".to_string());
    assert_eq!(g.vertex_ids(VertexKind::EntityType).len(), 3);
    assert_eq!(g.vertex_ids(VertexKind::PropertyType).len(), 1);
    assert_eq!(g.vertex_ids(VertexKind::Entity).len(), 1);
    assert_eq!(g.vertex_ids(VertexKind::DataType).len(), 0);
    assert!(g.contains_vertex(&entity(1, 2, 3)));
    assert!(!g.contains_vertex(&entity(1, 2, 4)));
    assert_eq!(g.payload(&entity(9, 9, 9)), None);
    assert_eq!(
        g.payload(&entity_type("https://example.com/a/", 2)),
        Some(&"a2".to_string())
    );
}

#[test]
fn insert_edge_is_idempotent_on_all_four_parts() {
    let mut g = new_subgraph();
    let a = entity_type("https://example.com/a/", 1);
    let b = entity_type("https://example.com/b/", 1);
    let inherits = EdgeKind::Ontology(OntologyEdgeKind::InheritsFrom);
    let links = EdgeKind::Ontology(OntologyEdgeKind::ConstrainsLinksOn);
    g.insert_edge(a.clone(), inherits, EdgeDirection::Outgoing, b.clone());
    g.insert_edge(a.clone(), inherits, EdgeDirection::Outgoing, b.clone());
    assert_eq!(g.edges().len(), 1);
    g.insert_edge(a.clone(), links, EdgeDirection::Outgoing, b.clone());
    g.insert_edge(a.clone(), inherits, EdgeDirection::Incoming, b.clone());
    g.insert_edge(b.clone(), inherits, EdgeDirection::Outgoing, a.clone());
    assert_eq!(g.edges().len(), 4);
    assert!(g.contains_edge(&Edge {
        source: a.clone(),
        kind: inherits,
        direction: EdgeDirection::Outgoing,
        target: b.clone(),
    }));
    assert!(!g.contains_edge(&Edge {
        source: b.clone(),
        kind: links,
        direction: EdgeDirection::Outgoing,
        target: a.clone(),
    }));
}

#[test]
fn add_root_marks_once() {
    let mut g = new_subgraph();
    g.add_root(entity(1, 1, 0));
    g.add_root(entity(1, 1, 0));
    g.add_root(entity(1, 2, 0));
    assert_eq!(g.roots().len(), 2);
    assert!(g.is_root(&entity(1, 1, 0)));
    assert!(!g.is_root(&entity(1, 3, 0)));
}

#[test]
fn identifiers_know_their_kind_and_entity() {
    let e = entity(1, 2, 3);
    assert_eq!(e.kind(), VertexKind::Entity);
    assert_eq!(e.entity_id(), Some(EntityId { owner_id: 1, entity_uuid: 2 }));
    assert_eq!(e.revision_bound(), Some(TemporalBound::Inclusive(3)));
    let interval = TemporalInterval::new(TemporalBound::Exclusive(5), TemporalBound::Unbounded);
    let reached = VertexId::EntityInterval(EntityIdWithInterval {
        entity_id: EntityId { owner_id: 1, entity_uuid: 2 },
        interval,
    });
    assert_eq!(reached.kind(), VertexKind::EntityInterval);
    assert_eq!(reached.revision_bound(), Some(TemporalBound::Exclusive(5)));
    assert!(reached.same_anchor(&e));
    assert!(!reached.equals(&e));
    let t = entity_type("https://example.com/a/", 1);
    assert_eq!(t.entity_id(), None);
    assert_eq!(t.revision_bound(), None);
    assert!(t.same_anchor(&entity_type("https://example.com/a/", 1)));
    assert!(!t.same_anchor(&entity_type("https://example.com/a/", 2)));
    assert!(!t.same_anchor(&e));
    assert!(t.duplicate().equals(&t));
}
