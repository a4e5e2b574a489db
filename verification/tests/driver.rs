use hash_graph::depths::GraphResolveDepths;
use hash_graph::driver::{step_at, successor_of, target_kind_of, Traversal};
use hash_graph::edges::{
    EdgeDirection, EdgeKind, KnowledgeGraphEdgeKind, OntologyEdgeKind, SharedEdgeKind,
};
use hash_graph::frontier::{
    entity_columns, intervals, ontology_columns, ordinals, plan, sources, EdgeRow, FrontierEntry,
};
use hash_graph::identifier::{
    EntityId, EntityIdWithInterval, EntityVertexId, OntologyVertexId, VertexId, VertexKind,
};
use hash_graph::model::Phase;
use hash_graph::store::{resolve, EdgeRecord};
use hash_graph::temporal::{
    BitemporalValidity, QueryTemporalAxes, TemporalBound, TemporalInterval, TimeAxis,
};

const HAS_LEFT: EdgeKind = EdgeKind::KnowledgeGraph(KnowledgeGraphEdgeKind::HasLeftEntity);
const HAS_RIGHT: EdgeKind = EdgeKind::KnowledgeGraph(KnowledgeGraphEdgeKind::HasRightEntity);
const IS_OF_TYPE: EdgeKind = EdgeKind::Shared(SharedEdgeKind::IsOfType);
const INHERITS: EdgeKind = EdgeKind::Ontology(OntologyEdgeKind::InheritsFrom);

fn closed(start: i64, end: i64) -> TemporalInterval {
    TemporalInterval::new(TemporalBound::Inclusive(start), TemporalBound::Inclusive(end))
}

fn axes() -> QueryTemporalAxes {
    QueryTemporalAxes {
        pinned: 7,
        variable_interval: closed(0, 100),
        variable_axis: TimeAxis::TransactionTime,
    }
}

fn depths(data_type: u8, property_type: u8, entity_type: u8, entity: u8) -> GraphResolveDepths {
    GraphResolveDepths {
        data_type_depth: data_type,
        property_type_depth: property_type,
        entity_type_depth: entity_type,
        entity_depth: entity,
    }
}

fn entity(n: u128) -> VertexId {
    VertexId::Entity(EntityVertexId {
        base_id: EntityId { owner_id: 9, entity_uuid: n },
        revision_id: 0,
    })
}

fn across(n: u128, interval: TemporalInterval) -> VertexId {
    VertexId::EntityInterval(EntityIdWithInterval {
        entity_id: EntityId { owner_id: 9, entity_uuid: n },
        interval,
    })
}

fn entity_type(name: &str) -> VertexId {
    VertexId::EntityType(OntologyVertexId::new(format!("https://example.com/{name}/"), 3))
}

#[test]
fn steps_of_each_phase_in_order() {
    let entity: Vec<_> = (0..6).map(|i| step_at(Phase::Entity, i)).collect();
    assert_eq!(entity[0].unwrap().kind, IS_OF_TYPE);
    assert_eq!(entity[0].unwrap().direction, EdgeDirection::Outgoing);
    assert_eq!(entity[1].unwrap().kind, HAS_LEFT);
    assert_eq!(entity[1].unwrap().direction, EdgeDirection::Incoming);
    assert_eq!(entity[2].unwrap().kind, HAS_RIGHT);
    assert_eq!(entity[2].unwrap().direction, EdgeDirection::Incoming);
    assert_eq!(entity[3].unwrap().kind, HAS_LEFT);
    assert_eq!(entity[3].unwrap().direction, EdgeDirection::Outgoing);
    assert_eq!(entity[4].unwrap().kind, HAS_RIGHT);
    assert_eq!(entity[4].unwrap().direction, EdgeDirection::Outgoing);
    assert!(entity[5].is_none());
    assert_eq!(
        step_at(Phase::EntityType, 0).unwrap().kind,
        EdgeKind::Ontology(OntologyEdgeKind::ConstrainsPropertiesOn)
    );
    assert_eq!(step_at(Phase::EntityType, 1).unwrap().kind, INHERITS);
    assert_eq!(
        step_at(Phase::EntityType, 2).unwrap().kind,
        EdgeKind::Ontology(OntologyEdgeKind::ConstrainsLinksOn)
    );
    assert_eq!(
        step_at(Phase::EntityType, 3).unwrap().kind,
        EdgeKind::Ontology(OntologyEdgeKind::ConstrainsLinkDestinationsOn)
    );
    assert!(step_at(Phase::EntityType, 4).is_none());
    assert_eq!(
        step_at(Phase::PropertyType, 0).unwrap().kind,
        EdgeKind::Ontology(OntologyEdgeKind::ConstrainsValuesOn)
    );
    assert_eq!(
        step_at(Phase::PropertyType, 1).unwrap().kind,
        EdgeKind::Ontology(OntologyEdgeKind::ConstrainsPropertiesOn)
    );
    assert!(step_at(Phase::PropertyType, 2).is_none());
    assert!(step_at(Phase::DataType, 0).is_none());
    assert!(step_at(Phase::Done, 0).is_none());
}

#[test]
fn target_kinds_of_edges() {
    assert_eq!(target_kind_of(HAS_LEFT), VertexKind::EntityInterval);
    assert_eq!(target_kind_of(HAS_RIGHT), VertexKind::EntityInterval);
    assert_eq!(target_kind_of(IS_OF_TYPE), VertexKind::EntityType);
    assert_eq!(target_kind_of(INHERITS), VertexKind::EntityType);
    assert_eq!(
        target_kind_of(EdgeKind::Ontology(OntologyEdgeKind::ConstrainsValuesOn)),
        VertexKind::DataType
    );
    assert_eq!(
        target_kind_of(EdgeKind::Ontology(OntologyEdgeKind::ConstrainsPropertiesOn)),
        VertexKind::PropertyType
    );
}

#[test]
fn plan_keeps_the_entries_that_admit_the_edge() {
    let frontier = vec![
        FrontierEntry { vertex: entity(1), depths: depths(0, 0, 1, 2), interval: closed(0, 9) },
        FrontierEntry { vertex: entity(2), depths: depths(0, 0, 1, 0), interval: closed(1, 9) },
        FrontierEntry { vertex: entity(3), depths: depths(0, 0, 0, 1), interval: closed(2, 9) },
    ];
    let batch = plan(&frontier, HAS_LEFT);
    assert_eq!(batch.len(), 2);
    assert!(batch[0].vertex.equals(&entity(1)));
    assert_eq!(batch[0].depths, depths(0, 0, 1, 1));
    assert_eq!(batch[0].interval, closed(0, 9));
    assert!(batch[1].vertex.equals(&entity(3)));
    assert_eq!(batch[1].depths, depths(0, 0, 0, 0));
    let typed = plan(&frontier, IS_OF_TYPE);
    assert_eq!(typed.len(), 2);
    assert!(typed[1].vertex.equals(&entity(2)));
    assert_eq!(typed[1].depths, depths(0, 0, 0, 0));
    assert!(plan(&frontier, EdgeKind::Ontology(OntologyEdgeKind::ConstrainsValuesOn)).is_empty());
}

#[test]
fn batch_columns_are_parallel() {
    let frontier = vec![
        FrontierEntry { vertex: entity(1), depths: depths(0, 0, 0, 1), interval: closed(0, 9) },
        FrontierEntry { vertex: entity(2), depths: depths(0, 0, 0, 1), interval: closed(1, 9) },
    ];
    let s = sources(&frontier);
    assert_eq!(s.len(), 2);
    assert!(s[1].equals(&entity(2)));
    assert_eq!(intervals(&frontier), vec![closed(0, 9), closed(1, 9)]);
    assert_eq!(ordinals(3), vec![0, 1, 2]);
    assert_eq!(entity_columns(&s), Some((vec![9, 9], vec![1, 2])));
    assert_eq!(ontology_columns(&s), None);
    let types = vec![entity_type("a"), entity_type("b")];
    assert_eq!(
        ontology_columns(&types),
        Some((
            vec!["https://example.com/a/".to_string(), "https://example.com/b/".to_string()],
            vec![3, 3]
        ))
    );
    assert_eq!(entity_columns(&types), None);
    assert_eq!(entity_columns(&vec![entity(1), entity_type("a")]), None);
}

#[test]
fn successor_narrows_an_entity_and_keeps_an_ontology_type() {
    let entry =
        FrontierEntry { vertex: entity(1), depths: depths(0, 0, 1, 1), interval: closed(10, 20) };
    let next = successor_of(&entry, &across(2, closed(15, 30))).unwrap();
    assert!(next.vertex.equals(&across(2, closed(15, 20))));
    assert_eq!(next.interval, closed(15, 20));
    assert_eq!(next.depths, depths(0, 0, 1, 1));
    assert!(successor_of(&entry, &across(2, closed(21, 30))).is_none());
    let kept = successor_of(&entry, &entity_type("a")).unwrap();
    assert!(kept.vertex.equals(&entity_type("a")));
    assert_eq!(kept.interval, closed(10, 20));
}

#[test]
fn the_driver_asks_and_absorbs_layer_by_layer() {
    let roots = vec![(entity(1), "root".to_string())];
    let mut t = Traversal::begin(Phase::Entity, roots, depths(0, 0, 1, 1), axes()).unwrap();
    assert!(!t.is_done());

    let request = t.next_request().unwrap();
    assert_eq!(request.kind, IS_OF_TYPE);
    assert_eq!(request.direction, EdgeDirection::Outgoing);
    assert_eq!(request.pinned, 7);
    assert_eq!(request.variable_axis, TimeAxis::TransactionTime);
    assert_eq!(request.sources.len(), 1);
    assert!(request.sources[0].equals(&entity(1)));
    assert_eq!(request.intervals, vec![closed(0, 100)]);
    let again = t.next_request().unwrap();
    assert_eq!(again.kind, IS_OF_TYPE);
    t.supply(vec![EdgeRow { source_index: 0, target: entity_type("a") }]).unwrap();

    let request = t.next_request().unwrap();
    assert_eq!(request.kind, HAS_LEFT);
    assert_eq!(request.direction, EdgeDirection::Incoming);
    t.supply(vec![]).unwrap();
    let request = t.next_request().unwrap();
    assert_eq!(request.kind, HAS_RIGHT);
    assert_eq!(request.direction, EdgeDirection::Incoming);
    t.supply(vec![]).unwrap();
    let request = t.next_request().unwrap();
    assert_eq!(request.kind, HAS_LEFT);
    assert_eq!(request.direction, EdgeDirection::Outgoing);
    t.supply(vec![
        EdgeRow { source_index: 0, target: across(2, closed(50, 200)) },
        EdgeRow { source_index: 0, target: across(3, closed(101, 200)) },
        EdgeRow { source_index: 0, target: across(2, closed(50, 200)) },
    ])
    .unwrap();
    let request = t.next_request().unwrap();
    assert_eq!(request.kind, HAS_RIGHT);
    assert_eq!(request.direction, EdgeDirection::Outgoing);
    t.supply(vec![]).unwrap();

    // The second layer of entities: entity 2 has its entity-type budget left.
    let request = t.next_request().unwrap();
    assert_eq!(request.kind, IS_OF_TYPE);
    assert_eq!(request.sources.len(), 1);
    assert!(request.sources[0].equals(&across(2, closed(50, 100))));
    assert_eq!(request.intervals, vec![closed(50, 100)]);
    t.supply(vec![EdgeRow { source_index: 0, target: entity_type("a") }]).unwrap();

    // The entity types were reached with nothing left of their budget.
    assert!(t.next_request().is_none());
    assert!(t.is_done());
    assert!(t.next_request().is_none());

    assert_eq!(t.missing_vertices(VertexKind::Entity).len(), 0);
    let missing_entities = t.missing_vertices(VertexKind::EntityInterval);
    assert_eq!(missing_entities.len(), 1);
    assert!(missing_entities[0].equals(&across(2, closed(50, 100))));
    let missing_types = t.missing_vertices(VertexKind::EntityType);
    assert_eq!(missing_types.len(), 1);

    t.install_vertices(missing_entities, vec!["two".to_string()]).unwrap();
    t.install_vertices(missing_types, vec!["a".to_string()]).unwrap();
    assert!(t.missing_vertices(VertexKind::EntityInterval).is_empty());
    let g = t.finish().unwrap();
    assert_eq!(g.edges().len(), 3);
    assert_eq!(g.vertex_ids(VertexKind::EntityInterval).len(), 1);
    assert_eq!(g.payload(&across(2, closed(50, 100))), Some(&"two".to_string()));
    assert_eq!(g.payload(&entity(1)), Some(&"root".to_string()));
    assert!(!g.contains_vertex(&across(3, closed(101, 200))));
}

#[test]
fn supply_refuses_what_does_not_answer_the_request() {
    let roots = vec![(entity(1), "root".to_string())];
    let mut t = Traversal::begin(Phase::Entity, roots, depths(0, 0, 1, 1), axes()).unwrap();
    assert!(t.supply(vec![]).is_err());
    let request = t.next_request().unwrap();
    assert_eq!(request.kind, IS_OF_TYPE);
    assert!(t.supply(vec![EdgeRow { source_index: 1, target: entity_type("a") }]).is_err());
    assert!(t.supply(vec![EdgeRow { source_index: 0, target: entity(2) }]).is_err());
    assert!(t
        .supply(vec![EdgeRow { source_index: 0, target: across(2, closed(0, 1)) }])
        .is_err());
    let again = t.next_request().unwrap();
    assert_eq!(again.kind, IS_OF_TYPE);
    assert!(t.supply(vec![EdgeRow { source_index: 0, target: entity_type("a") }]).is_ok());
}

#[test]
fn install_and_finish_refuse_what_is_incomplete() {
    let roots = vec![(entity(1), "root".to_string())];
    let mut t = Traversal::begin(Phase::Entity, roots, depths(0, 0, 1, 0), axes()).unwrap();
    let _ = t.next_request().unwrap();
    t.supply(vec![EdgeRow { source_index: 0, target: entity_type("a") }]).unwrap();
    assert!(t.next_request().is_none());
    assert!(t.install_vertices(vec![entity_type("a")], vec![]).is_err());
    assert!(t.install_vertices(vec![entity_type("b")], vec!["b".to_string()]).is_err());
    assert_eq!(t.missing_vertices(VertexKind::EntityType).len(), 1);
    assert!(t.finish().is_err());
}

#[test]
fn finish_refuses_a_traversal_that_is_not_done() {
    let roots = vec![(entity(1), "root".to_string())];
    let t = Traversal::begin(Phase::Entity, roots, depths(0, 0, 1, 0), axes()).unwrap();
    assert!(t.finish().is_err());
}

#[test]
fn begin_refuses_roots_of_another_kind() {
    let roots = vec![(entity(1), "root".to_string()), (entity_type("a"), "a".to_string())];
    assert!(Traversal::begin(Phase::Entity, roots, depths(0, 0, 0, 0), axes()).is_err());
    let none: Vec<(VertexId, String)> = vec![];
    assert!(Traversal::begin(Phase::Done, none, depths(0, 0, 0, 0), axes()).is_err());
}

#[test]
fn resolver_answers_source_by_source_in_the_order_of_the_records() {
    let always = BitemporalValidity::always();
    let limited = BitemporalValidity {
        decision_time: closed(0, 10),
        transaction_time: closed(40, 60),
    };
    let records = vec![
        EdgeRecord { kind: HAS_LEFT, source: entity(1), target: entity(2), validity: always },
        EdgeRecord { kind: HAS_RIGHT, source: entity(1), target: entity(3), validity: always },
        EdgeRecord { kind: HAS_LEFT, source: entity(2), target: entity(4), validity: limited },
        EdgeRecord { kind: HAS_LEFT, source: entity(1), target: entity(5), validity: limited },
    ];
    let roots = vec![(entity(1), "1".to_string()), (entity(2), "2".to_string())];
    let mut t = Traversal::begin(Phase::Entity, roots, depths(0, 0, 0, 1), axes()).unwrap();
    let incoming = t.next_request().unwrap();
    assert_eq!(incoming.kind, HAS_LEFT);
    assert_eq!(incoming.direction, EdgeDirection::Incoming);
    let rows = resolve(&records, &incoming);
    assert_eq!(rows.len(), 1);
    assert_eq!(rows[0].source_index, 1);
    assert!(rows[0].target.equals(&across(1, TemporalInterval::unbounded())));
    t.supply(rows).unwrap();
    let _ = t.next_request().unwrap();
    t.supply(vec![]).unwrap();
    let outgoing = t.next_request().unwrap();
    assert_eq!(outgoing.kind, HAS_LEFT);
    assert_eq!(outgoing.direction, EdgeDirection::Outgoing);
    let rows = resolve(&records, &outgoing);
    // pinned 7 lies within the decision time of the limited records, and their
    // transaction time overlaps the query's interval.
    assert_eq!(rows.len(), 3);
    assert_eq!(rows[0].source_index, 0);
    assert!(rows[0].target.equals(&across(2, TemporalInterval::unbounded())));
    assert_eq!(rows[1].source_index, 0);
    assert!(rows[1].target.equals(&across(5, closed(40, 60))));
    assert_eq!(rows[2].source_index, 1);
    assert!(rows[2].target.equals(&across(4, closed(40, 60))));
}

#[test]
fn resolver_filters_by_pinned_timestamp_and_overlap() {
    let outside_pinned = BitemporalValidity {
        decision_time: closed(8, 10),
        transaction_time: closed(0, 100),
    };
    let outside_interval = BitemporalValidity {
        decision_time: closed(0, 10),
        transaction_time: closed(101, 200),
    };
    let records = vec![
        EdgeRecord {
            kind: IS_OF_TYPE,
            source: entity(1),
            target: entity_type("a"),
            validity: outside_pinned,
        },
        EdgeRecord {
            kind: IS_OF_TYPE,
            source: entity(1),
            target: entity_type("b"),
            validity: outside_interval,
        },
    ];
    let roots = vec![(entity(1), "1".to_string())];
    let mut t = Traversal::begin(Phase::Entity, roots, depths(0, 0, 1, 0), axes()).unwrap();
    let request = t.next_request().unwrap();
    assert!(resolve(&records, &request).is_empty());
}
