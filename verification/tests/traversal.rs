use hash_graph::depths::GraphResolveDepths;
use hash_graph::edges::{
    EdgeDirection, EdgeKind, KnowledgeGraphEdgeKind, OntologyEdgeKind, SharedEdgeKind,
};
use hash_graph::identifier::{
    EntityId, EntityIdWithInterval, EntityVertexId, OntologyVertexId, VertexId, VertexKind,
};
use hash_graph::model::Phase;
use hash_graph::query::MemoryStore;
use hash_graph::store::EdgeRecord;
use hash_graph::subgraph::{Edge, Subgraph};
use hash_graph::temporal::{
    BitemporalValidity, QueryTemporalAxes, TemporalBound, TemporalInterval, TimeAxis,
};

const HAS_LEFT: EdgeKind = EdgeKind::KnowledgeGraph(KnowledgeGraphEdgeKind::HasLeftEntity);
const HAS_RIGHT: EdgeKind = EdgeKind::KnowledgeGraph(KnowledgeGraphEdgeKind::HasRightEntity);
const IS_OF_TYPE: EdgeKind = EdgeKind::Shared(SharedEdgeKind::IsOfType);
const INHERITS: EdgeKind = EdgeKind::Ontology(OntologyEdgeKind::InheritsFrom);
const PROPERTIES: EdgeKind = EdgeKind::Ontology(OntologyEdgeKind::ConstrainsPropertiesOn);
const VALUES: EdgeKind = EdgeKind::Ontology(OntologyEdgeKind::ConstrainsValuesOn);

fn query_interval() -> TemporalInterval {
    TemporalInterval::new(TemporalBound::Unbounded, TemporalBound::Inclusive(1000))
}

fn axes_at(pinned: i64) -> QueryTemporalAxes {
    QueryTemporalAxes {
        pinned,
        variable_interval: query_interval(),
        variable_axis: TimeAxis::DecisionTime,
    }
}

fn depths(data_type: u8, property_type: u8, entity_type: u8, entity: u8) -> GraphResolveDepths {
    GraphResolveDepths {
        data_type_depth: data_type,
        property_type_depth: property_type,
        entity_type_depth: entity_type,
        entity_depth: entity,
    }
}

fn entity(n: u128) -> VertexId {
    VertexId::Entity(EntityVertexId {
        base_id: EntityId { owner_id: 1, entity_uuid: n },
        revision_id: 0,
    })
}

fn reached(n: u128, interval: TemporalInterval) -> VertexId {
    VertexId::EntityInterval(EntityIdWithInterval {
        entity_id: EntityId { owner_id: 1, entity_uuid: n },
        interval,
    })
}

fn entity_type(name: &str) -> VertexId {
    VertexId::EntityType(OntologyVertexId::new(format!("https://example.com/{name}/"), 1))
}

fn property_type(name: &str) -> VertexId {
    VertexId::PropertyType(OntologyVertexId::new(format!("https://example.com/{name}/"), 1))
}

fn data_type(name: &str) -> VertexId {
    VertexId::DataType(OntologyVertexId::new(format!("https://example.com/{name}/"), 1))
}

fn record(kind: EdgeKind, source: VertexId, target: VertexId) -> EdgeRecord {
    EdgeRecord { kind, source, target, validity: BitemporalValidity::always() }
}

fn edge(source: VertexId, kind: EdgeKind, direction: EdgeDirection, target: VertexId) -> Edge {
    Edge { source, kind, direction, target }
}

fn store_with(vertices: Vec<VertexId>, records: Vec<EdgeRecord>) -> MemoryStore {
    let mut store = MemoryStore::new();
    for (i, v) in vertices.into_iter().enumerate() {
        store.add_vertex(v, format!("payload {i}"));
    }
    for r in records {
        store.add_edge(r);
    }
    store
}

fn has_vertices(g: &Subgraph<String>, kind: VertexKind, expected: &[VertexId]) -> bool {
    let ids = g.vertex_ids(kind);
    ids.len() == expected.len() && expected.iter().all(|e| ids.iter().any(|i| i.equals(e)))
}

fn has_edges(g: &Subgraph<String>, expected: &[Edge]) -> bool {
    let edges = g.edges();
    edges.len() == expected.len() && expected.iter().all(|e| g.contains_edge(e))
}

fn closed(g: &Subgraph<String>) -> bool {
    g.edges().iter().all(|e| g.contains_vertex(&e.source) && g.contains_vertex(&e.target))
        && g.roots().iter().all(|r| g.contains_vertex(r))
}

#[test]
fn two_entities_linked_left_to_right() {
    let store = store_with(
        vec![entity(1), entity(2)],
        vec![record(HAS_RIGHT, entity(1), entity(2))],
    );
    let g = store.get_entity(&vec![entity(1)], depths(0, 0, 0, 1), axes_at(5)).unwrap();
    assert!(has_vertices(&g, VertexKind::Entity, &[entity(1)]));
    assert!(has_vertices(&g, VertexKind::EntityInterval, &[reached(2, query_interval())]));
    assert!(has_edges(
        &g,
        &[edge(entity(1), HAS_RIGHT, EdgeDirection::Outgoing, reached(2, query_interval()))]
    ));
    assert!(g.is_root(&entity(1)));
    assert_eq!(g.roots().len(), 1);
    assert_eq!(g.payload(&entity(1)), Some(&"payload 0".to_string()));
    assert_eq!(
        g.payload(&reached(2, query_interval())),
        Some(&"payload 1".to_string())
    );
    assert!(closed(&g));
}

#[test]
fn depth_budget_clamps_expansion() {
    let store = store_with(
        vec![entity(1), entity(2), entity(3)],
        vec![
            record(HAS_RIGHT, entity(1), entity(2)),
            record(HAS_RIGHT, entity(2), entity(3)),
        ],
    );
    let g = store.get_entity(&vec![entity(1)], depths(0, 0, 0, 1), axes_at(5)).unwrap();
    assert!(has_vertices(&g, VertexKind::EntityInterval, &[reached(2, query_interval())]));
    assert!(!g.contains_vertex(&reached(3, query_interval())));
    assert!(has_edges(
        &g,
        &[edge(entity(1), HAS_RIGHT, EdgeDirection::Outgoing, reached(2, query_interval()))]
    ));
    let deeper = store.get_entity(&vec![entity(1)], depths(0, 0, 0, 2), axes_at(5)).unwrap();
    assert!(deeper.contains_vertex(&reached(3, query_interval())));
    assert!(deeper.contains_edge(&edge(
        reached(2, query_interval()),
        HAS_RIGHT,
        EdgeDirection::Outgoing,
        reached(3, query_interval())
    )));
    assert!(closed(&deeper));
}

#[test]
fn entity_type_inheritance_chain() {
    let store = store_with(
        vec![entity_type("a"), entity_type("b"), entity_type("c")],
        vec![
            record(INHERITS, entity_type("a"), entity_type("b")),
            record(INHERITS, entity_type("b"), entity_type("c")),
        ],
    );
    let g = store
        .get_entity_type(&vec![entity_type("a")], depths(0, 0, 2, 0), axes_at(5))
        .unwrap();
    assert!(has_vertices(
        &g,
        VertexKind::EntityType,
        &[entity_type("a"), entity_type("b"), entity_type("c")]
    ));
    assert!(has_edges(
        &g,
        &[
            edge(entity_type("a"), INHERITS, EdgeDirection::Outgoing, entity_type("b")),
            edge(entity_type("b"), INHERITS, EdgeDirection::Outgoing, entity_type("c")),
        ]
    ));
    assert!(closed(&g));
}

#[test]
fn bitemporal_pinning() {
    let t0 = 100;
    let t1 = 200;
    let mut store = MemoryStore::new();
    store.add_vertex(entity(1), "e1".to_string());
    store.add_vertex(entity_type("x"), "x".to_string());
    store.add_vertex(entity_type("y"), "y".to_string());
    store.add_edge(EdgeRecord {
        kind: IS_OF_TYPE,
        source: entity(1),
        target: entity_type("x"),
        validity: BitemporalValidity {
            decision_time: TemporalInterval::unbounded(),
            transaction_time: TemporalInterval::new(
                TemporalBound::Inclusive(t0),
                TemporalBound::Exclusive(t1),
            ),
        },
    });
    store.add_edge(EdgeRecord {
        kind: IS_OF_TYPE,
        source: entity(1),
        target: entity_type("y"),
        validity: BitemporalValidity {
            decision_time: TemporalInterval::unbounded(),
            transaction_time: TemporalInterval::new(
                TemporalBound::Inclusive(t1),
                TemporalBound::Unbounded,
            ),
        },
    });
    let early = store.get_entity(&vec![entity(1)], depths(0, 0, 1, 0), axes_at(150)).unwrap();
    assert!(has_vertices(&early, VertexKind::EntityType, &[entity_type("x")]));
    assert!(has_edges(
        &early,
        &[edge(entity(1), IS_OF_TYPE, EdgeDirection::Outgoing, entity_type("x"))]
    ));
    let late = store.get_entity(&vec![entity(1)], depths(0, 0, 1, 0), axes_at(t1)).unwrap();
    assert!(has_vertices(&late, VertexKind::EntityType, &[entity_type("y")]));
    assert!(has_edges(
        &late,
        &[edge(entity(1), IS_OF_TYPE, EdgeDirection::Outgoing, entity_type("y"))]
    ));
    let before = store.get_entity(&vec![entity(1)], depths(0, 0, 1, 0), axes_at(t0 - 1)).unwrap();
    assert!(has_vertices(&before, VertexKind::EntityType, &[]));
    assert!(has_edges(&before, &[]));
}

#[test]
fn dedup_in_a_diamond() {
    let store = store_with(
        vec![entity_type("a"), entity_type("b"), entity_type("c"), entity_type("d")],
        vec![
            record(INHERITS, entity_type("a"), entity_type("b")),
            record(INHERITS, entity_type("a"), entity_type("c")),
            record(INHERITS, entity_type("b"), entity_type("d")),
            record(INHERITS, entity_type("c"), entity_type("d")),
        ],
    );
    let g = store
        .get_entity_type(&vec![entity_type("a")], depths(0, 0, 2, 0), axes_at(5))
        .unwrap();
    let ids = g.vertex_ids(VertexKind::EntityType);
    assert_eq!(ids.iter().filter(|i| i.equals(&entity_type("d"))).count(), 1);
    assert_eq!(ids.len(), 4);
    assert!(has_edges(
        &g,
        &[
            edge(entity_type("a"), INHERITS, EdgeDirection::Outgoing, entity_type("b")),
            edge(entity_type("a"), INHERITS, EdgeDirection::Outgoing, entity_type("c")),
            edge(entity_type("b"), INHERITS, EdgeDirection::Outgoing, entity_type("d")),
            edge(entity_type("c"), INHERITS, EdgeDirection::Outgoing, entity_type("d")),
        ]
    ));
    assert!(closed(&g));
}

#[test]
fn zero_depths_return_the_roots_and_no_edges() {
    let store = store_with(
        vec![entity(1), entity(2), entity_type("a")],
        vec![
            record(HAS_RIGHT, entity(1), entity(2)),
            record(IS_OF_TYPE, entity(1), entity_type("a")),
        ],
    );
    let g = store
        .get_entity(&vec![entity(1), entity(2)], GraphResolveDepths::zeroed(), axes_at(5))
        .unwrap();
    assert!(has_vertices(&g, VertexKind::Entity, &[entity(1), entity(2)]));
    assert!(has_vertices(&g, VertexKind::EntityInterval, &[]));
    assert!(has_vertices(&g, VertexKind::EntityType, &[]));
    assert!(has_edges(&g, &[]));
    assert_eq!(g.roots().len(), 2);
}

#[test]
fn roots_given_twice_are_one_root() {
    let store = store_with(vec![entity(1)], vec![]);
    let g = store
        .get_entity(&vec![entity(1), entity(1)], depths(0, 0, 0, 3), axes_at(5))
        .unwrap();
    assert_eq!(g.roots().len(), 1);
    assert!(has_vertices(&g, VertexKind::Entity, &[entity(1)]));
}

#[test]
fn cycles_and_self_edges_terminate() {
    let store = store_with(
        vec![entity_type("a"), entity_type("b")],
        vec![
            record(INHERITS, entity_type("a"), entity_type("a")),
            record(INHERITS, entity_type("a"), entity_type("b")),
            record(INHERITS, entity_type("b"), entity_type("a")),
        ],
    );
    let g = store
        .get_entity_type(&vec![entity_type("a")], depths(255, 255, 255, 255), axes_at(5))
        .unwrap();
    assert!(has_vertices(&g, VertexKind::EntityType, &[entity_type("a"), entity_type("b")]));
    assert!(has_edges(
        &g,
        &[
            edge(entity_type("a"), INHERITS, EdgeDirection::Outgoing, entity_type("a")),
            edge(entity_type("a"), INHERITS, EdgeDirection::Outgoing, entity_type("b")),
            edge(entity_type("b"), INHERITS, EdgeDirection::Outgoing, entity_type("a")),
        ]
    ));
    assert!(closed(&g));
}

#[test]
fn entity_cycle_in_both_directions_terminates() {
    let store = store_with(
        vec![entity(1), entity(2)],
        vec![
            record(HAS_LEFT, entity(1), entity(2)),
            record(HAS_RIGHT, entity(2), entity(1)),
        ],
    );
    let g = store.get_entity(&vec![entity(1)], depths(0, 0, 0, 255), axes_at(5)).unwrap();
    assert!(closed(&g));
    assert!(g.contains_edge(&edge(
        entity(1),
        HAS_LEFT,
        EdgeDirection::Outgoing,
        reached(2, query_interval())
    )));
    assert!(g.contains_edge(&edge(
        entity(1),
        HAS_RIGHT,
        EdgeDirection::Incoming,
        reached(2, query_interval())
    )));
    assert!(g.contains_vertex(&reached(1, query_interval())));
}

#[test]
fn cross_kind_expansion_reaches_data_types() {
    let store = store_with(
        vec![entity(1), entity_type("person"), property_type("name"), data_type("text")],
        vec![
            record(IS_OF_TYPE, entity(1), entity_type("person")),
            record(PROPERTIES, entity_type("person"), property_type("name")),
            record(VALUES, property_type("name"), data_type("text")),
        ],
    );
    let g = store.get_entity(&vec![entity(1)], depths(1, 1, 1, 0), axes_at(5)).unwrap();
    assert!(has_vertices(&g, VertexKind::EntityType, &[entity_type("person")]));
    assert!(has_vertices(&g, VertexKind::PropertyType, &[property_type("name")]));
    assert!(has_vertices(&g, VertexKind::DataType, &[data_type("text")]));
    assert!(has_edges(
        &g,
        &[
            edge(entity(1), IS_OF_TYPE, EdgeDirection::Outgoing, entity_type("person")),
            edge(
                entity_type("person"),
                PROPERTIES,
                EdgeDirection::Outgoing,
                property_type("name")
            ),
            edge(property_type("name"), VALUES, EdgeDirection::Outgoing, data_type("text")),
        ]
    ));
    let shallow = store.get_entity(&vec![entity(1)], depths(0, 1, 1, 0), axes_at(5)).unwrap();
    assert!(has_vertices(&shallow, VertexKind::DataType, &[]));
    assert_eq!(shallow.edges().len(), 2);
}

#[test]
fn is_of_type_consumes_the_entity_type_counter() {
    let store = store_with(
        vec![entity(1), entity_type("a"), entity_type("b")],
        vec![
            record(IS_OF_TYPE, entity(1), entity_type("a")),
            record(INHERITS, entity_type("a"), entity_type("b")),
        ],
    );
    let one = store.get_entity(&vec![entity(1)], depths(0, 0, 1, 0), axes_at(5)).unwrap();
    assert!(has_vertices(&one, VertexKind::EntityType, &[entity_type("a")]));
    let two = store.get_entity(&vec![entity(1)], depths(0, 0, 2, 0), axes_at(5)).unwrap();
    assert!(has_vertices(&two, VertexKind::EntityType, &[entity_type("a"), entity_type("b")]));
}

#[test]
fn reached_entity_is_named_by_the_narrowed_interval() {
    let mut store = MemoryStore::new();
    store.add_vertex(entity(1), "e1".to_string());
    store.add_vertex(entity(2), "e2".to_string());
    store.add_vertex(entity(3), "e3".to_string());
    let first = TemporalInterval::new(TemporalBound::Inclusive(10), TemporalBound::Exclusive(500));
    let second = TemporalInterval::new(TemporalBound::Inclusive(300), TemporalBound::Unbounded);
    store.add_edge(EdgeRecord {
        kind: HAS_RIGHT,
        source: entity(1),
        target: entity(2),
        validity: BitemporalValidity {
            decision_time: first,
            transaction_time: TemporalInterval::unbounded(),
        },
    });
    store.add_edge(EdgeRecord {
        kind: HAS_RIGHT,
        source: entity(2),
        target: entity(3),
        validity: BitemporalValidity {
            decision_time: second,
            transaction_time: TemporalInterval::unbounded(),
        },
    });
    let g = store.get_entity(&vec![entity(1)], depths(0, 0, 0, 2), axes_at(5)).unwrap();
    let at_two = TemporalInterval::new(TemporalBound::Inclusive(10), TemporalBound::Exclusive(500));
    let at_three =
        TemporalInterval::new(TemporalBound::Inclusive(300), TemporalBound::Exclusive(500));
    // Entity 1 is reached again from entity 2, backwards along the first edge.
    assert!(has_vertices(
        &g,
        VertexKind::EntityInterval,
        &[reached(2, at_two), reached(1, at_two), reached(3, at_three)]
    ));
    assert_eq!(
        reached(3, at_three).revision_bound(),
        Some(TemporalBound::Inclusive(300))
    );
    assert!(has_edges(
        &g,
        &[
            edge(entity(1), HAS_RIGHT, EdgeDirection::Outgoing, reached(2, at_two)),
            edge(reached(2, at_two), HAS_RIGHT, EdgeDirection::Incoming, reached(1, at_two)),
            edge(reached(2, at_two), HAS_RIGHT, EdgeDirection::Outgoing, reached(3, at_three)),
        ]
    ));
    assert!(closed(&g));
}

#[test]
fn swapping_direction_transposes_the_edges() {
    let forward = store_with(
        vec![entity(1), entity(2), entity(3)],
        vec![
            record(HAS_LEFT, entity(1), entity(2)),
            record(HAS_LEFT, entity(3), entity(1)),
        ],
    );
    let backward = store_with(
        vec![entity(1), entity(2), entity(3)],
        vec![
            record(HAS_LEFT, entity(2), entity(1)),
            record(HAS_LEFT, entity(1), entity(3)),
        ],
    );
    let f = forward.get_entity(&vec![entity(1)], depths(0, 0, 0, 1), axes_at(5)).unwrap();
    let b = backward.get_entity(&vec![entity(1)], depths(0, 0, 0, 1), axes_at(5)).unwrap();
    assert!(has_edges(
        &f,
        &[
            edge(entity(1), HAS_LEFT, EdgeDirection::Outgoing, reached(2, query_interval())),
            edge(entity(1), HAS_LEFT, EdgeDirection::Incoming, reached(3, query_interval())),
        ]
    ));
    assert!(has_edges(
        &b,
        &[
            edge(entity(1), HAS_LEFT, EdgeDirection::Incoming, reached(2, query_interval())),
            edge(entity(1), HAS_LEFT, EdgeDirection::Outgoing, reached(3, query_interval())),
        ]
    ));
    let f_ids = f.vertex_ids(VertexKind::EntityInterval);
    assert!(has_vertices(&b, VertexKind::EntityInterval, &f_ids));
}

#[test]
fn the_same_query_twice_gives_the_same_subgraph() {
    let store = store_with(
        vec![entity(1), entity(2), entity(3), entity_type("a")],
        vec![
            record(HAS_RIGHT, entity(1), entity(2)),
            record(HAS_LEFT, entity(3), entity(2)),
            record(IS_OF_TYPE, entity(2), entity_type("a")),
        ],
    );
    let first = store.get_entity(&vec![entity(1)], depths(1, 1, 1, 2), axes_at(5)).unwrap();
    let second = store.get_entity(&vec![entity(1)], depths(1, 1, 1, 2), axes_at(5)).unwrap();
    assert!(has_edges(&second, &first.edges()));
    for kind in [
        VertexKind::DataType,
        VertexKind::PropertyType,
        VertexKind::EntityType,
        VertexKind::Entity,
        VertexKind::EntityInterval,
    ] {
        let ids = first.vertex_ids(kind);
        assert!(has_vertices(&second, kind, &ids));
        for id in ids {
            assert_eq!(first.payload(&id), second.payload(&id));
        }
    }
    assert_eq!(first.roots().len(), second.roots().len());
}

#[test]
fn a_root_of_the_wrong_kind_is_refused() {
    let store = store_with(vec![entity(1), entity_type("a")], vec![]);
    assert!(store.get_entity(&vec![entity_type("a")], depths(0, 0, 0, 0), axes_at(5)).is_err());
    assert!(store.get_entity_type(&vec![entity(1)], depths(0, 0, 0, 0), axes_at(5)).is_err());
    assert!(store
        .get_entity(&vec![reached(1, query_interval())], depths(0, 0, 0, 0), axes_at(5))
        .is_err());
    assert!(store.answer(Phase::Done, &vec![], depths(0, 0, 0, 0), axes_at(5)).is_err());
}

#[test]
fn a_root_without_payload_is_refused() {
    let store = store_with(vec![entity(1)], vec![]);
    assert!(store.get_entity(&vec![entity(2)], depths(0, 0, 0, 0), axes_at(5)).is_err());
}

#[test]
fn a_reached_vertex_without_payload_fails_the_query() {
    let store = store_with(vec![entity(1)], vec![record(HAS_RIGHT, entity(1), entity(2))]);
    assert!(store.get_entity(&vec![entity(1)], depths(0, 0, 0, 1), axes_at(5)).is_err());
    assert!(store.get_entity(&vec![entity(1)], depths(0, 0, 0, 0), axes_at(5)).is_ok());
}

#[test]
fn a_record_with_a_far_end_of_the_wrong_kind_fails_the_query() {
    let store = store_with(
        vec![entity_type("a"), property_type("p")],
        vec![record(INHERITS, entity_type("a"), property_type("p"))],
    );
    assert!(store
        .get_entity_type(&vec![entity_type("a")], depths(1, 1, 1, 1), axes_at(5))
        .is_err());
}

#[test]
fn property_and_data_type_queries() {
    let store = store_with(
        vec![property_type("a"), property_type("b"), data_type("t")],
        vec![
            record(PROPERTIES, property_type("a"), property_type("b")),
            record(VALUES, property_type("b"), data_type("t")),
        ],
    );
    let g = store
        .get_property_type(&vec![property_type("a")], depths(1, 1, 0, 0), axes_at(5))
        .unwrap();
    assert!(has_vertices(&g, VertexKind::PropertyType, &[property_type("a"), property_type("b")]));
    assert!(has_vertices(&g, VertexKind::DataType, &[data_type("t")]));
    let d = store.get_data_type(&vec![data_type("t")], depths(9, 9, 9, 9), axes_at(5)).unwrap();
    assert!(has_vertices(&d, VertexKind::DataType, &[data_type("t")]));
    assert!(has_edges(&d, &[]));
}

#[test]
fn payload_of_finds_the_first_entry_for_an_anchor() {
    let mut store = MemoryStore::new();
    store.add_vertex(entity(1), "first".to_string());
    store.add_vertex(entity(1), "second".to_string());
    assert_eq!(store.payload_of(&entity(1)), Some("first".to_string()));
    assert_eq!(
        store.payload_of(&reached(1, query_interval())),
        Some("first".to_string())
    );
    assert_eq!(store.payload_of(&entity(2)), None);
    assert_eq!(
        store.payloads_for(&vec![entity(1), entity(1)]),
        Some(vec!["first".to_string(), "first".to_string()])
    );
    assert_eq!(store.payloads_for(&vec![entity(1), entity(2)]), None);
}
