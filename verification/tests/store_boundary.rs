use hash_graph::edges::{
    EdgeDirection, EdgeKind, KnowledgeGraphEdgeKind, OntologyEdgeKind, SharedEdgeKind,
};
use hash_graph::error::{
    BaseUriAlreadyExists, BaseUriDoesNotExist, DeletionError, EntityDoesNotExist, InsertionError,
    LinkRemovalError, QueryError, RaceConditionOnUpdate, UpdateError, VersionedUriAlreadyExists,
};
use hash_graph::identifier::{
    EntityId, EntityIdWithInterval, OntologyVertexId, VertexId, VertexKind,
};
use hash_graph::rows::{
    axis_columns, decode_ordinal, decode_revision, entity_row, join_sides, ontology_row,
};
use hash_graph::temporal::{TemporalBound, TemporalInterval, TimeAxis};
use hash_graph::write::{
    entity_id_with, failure_for_code, failure_for_state, new_entity_id, plan_batch, record_ids,
    require_entity, update_outcome, EntityLinkOrder, EntityRecordId, LinkData, NewEntity,
    UpdateFailure,
};
use tokio_postgres::error::SqlState;

#[test]
fn error_messages() {
    assert_eq!(InsertionError.to_string(), "Could not insert into store");
    assert_eq!(QueryError.to_string(), "Could not query from store");
    assert_eq!(UpdateError.to_string(), "Could not update store");
    assert_eq!(DeletionError.to_string(), "Could not delete from the store");
    assert_eq!(
        BaseUriAlreadyExists.to_string(),
        "tried to insert a new base URI but it already existed"
    );
    assert_eq!(BaseUriDoesNotExist.to_string(), "base URI does not exist");
    assert_eq!(EntityDoesNotExist.to_string(), "Entity does not exist");
    assert_eq!(
        RaceConditionOnUpdate.to_string(),
        "The entity that should be updated was unexpectedly updated at the same time"
    );
    assert_eq!(
        VersionedUriAlreadyExists.to_string(),
        "tried to insert a versioned URI but it already existed"
    );
    assert_eq!(LinkRemovalError.to_string(), "Could not remove link");
}

#[test]
fn ordinals_count_from_one() {
    assert_eq!(decode_ordinal(1).ok(), Some(0));
    assert_eq!(decode_ordinal(42).ok(), Some(41));
    assert!(decode_ordinal(0).is_err());
    assert!(decode_ordinal(-1).is_err());
    assert!(decode_ordinal(i64::MIN).is_err());
    assert_eq!(decode_ordinal(i64::MAX).ok(), usize::try_from(i64::MAX - 1).ok());
}

#[test]
fn revisions_fit_thirty_two_bits() {
    assert_eq!(decode_revision(0).ok(), Some(0));
    assert_eq!(decode_revision(4_294_967_295).ok(), Some(u32::MAX));
    assert!(decode_revision(4_294_967_296).is_err());
    assert!(decode_revision(-1).is_err());
}

#[test]
fn axis_columns_name_the_pinned_axis_first() {
    assert_eq!(axis_columns(TimeAxis::DecisionTime), ("transaction_time", "decision_time"));
    assert_eq!(axis_columns(TimeAxis::TransactionTime), ("decision_time", "transaction_time"));
}

#[test]
fn join_sides_change_places_backwards() {
    assert_eq!(join_sides(EdgeDirection::Outgoing, "left", "right"), ("left", "right"));
    assert_eq!(join_sides(EdgeDirection::Incoming, "left", "right"), ("right", "left"));
}

#[test]
fn ontology_rows_are_typed_by_the_edge() {
    let url = "https://example.com/t/".to_string();
    let row = ontology_row(
        EdgeKind::Ontology(OntologyEdgeKind::ConstrainsValuesOn),
        Some(url.clone()),
        2,
        1,
    )
    .unwrap();
    assert_eq!(row.source_index, 0);
    assert!(row.target.equals(&VertexId::DataType(OntologyVertexId::new(url.clone(), 2))));
    let row = ontology_row(
        EdgeKind::Ontology(OntologyEdgeKind::ConstrainsPropertiesOn),
        Some(url.clone()),
        2,
        5,
    )
    .unwrap();
    assert_eq!(row.source_index, 4);
    assert_eq!(row.target.kind(), VertexKind::PropertyType);
    let row = ontology_row(EdgeKind::Shared(SharedEdgeKind::IsOfType), Some(url.clone()), 7, 3)
        .unwrap();
    assert!(row.target.equals(&VertexId::EntityType(OntologyVertexId::new(url.clone(), 7))));
    for kind in [
        OntologyEdgeKind::InheritsFrom,
        OntologyEdgeKind::ConstrainsLinksOn,
        OntologyEdgeKind::ConstrainsLinkDestinationsOn,
    ] {
        let row = ontology_row(EdgeKind::Ontology(kind), Some(url.clone()), 1, 1).unwrap();
        assert_eq!(row.target.kind(), VertexKind::EntityType);
    }
}

#[test]
fn malformed_ontology_rows_are_refused() {
    let url = "https://example.com/t/".to_string();
    let inherits = EdgeKind::Ontology(OntologyEdgeKind::InheritsFrom);
    assert!(ontology_row(inherits, None, 1, 1).is_err());
    assert!(ontology_row(inherits, Some(url.clone()), -1, 1).is_err());
    assert!(ontology_row(inherits, Some(url.clone()), 1 << 32, 1).is_err());
    assert!(ontology_row(inherits, Some(url.clone()), 1, 0).is_err());
    assert!(ontology_row(
        EdgeKind::KnowledgeGraph(KnowledgeGraphEdgeKind::HasLeftEntity),
        Some(url),
        1,
        1
    )
    .is_err());
}

#[test]
fn entity_rows_carry_the_validity() {
    let validity =
        TemporalInterval::new(TemporalBound::Inclusive(3), TemporalBound::Exclusive(9));
    let row = entity_row(11, 22, validity, 2).unwrap();
    assert_eq!(row.source_index, 1);
    assert!(row.target.equals(&VertexId::EntityInterval(EntityIdWithInterval {
        entity_id: EntityId { owner_id: 11, entity_uuid: 22 },
        interval: validity,
    })));
    assert!(entity_row(11, 22, validity, 0).is_err());
}

#[test]
fn a_restrict_violation_is_a_lost_race() {
    assert_eq!(
        failure_for_state(Some(&SqlState::RESTRICT_VIOLATION)),
        UpdateFailure::RaceConditionOnUpdate
    );
    assert_eq!(
        failure_for_state(Some(&SqlState::from_code("23001"))),
        UpdateFailure::RaceConditionOnUpdate
    );
    assert_eq!(failure_for_state(Some(&SqlState::UNIQUE_VIOLATION)), UpdateFailure::Store);
    assert_eq!(failure_for_state(Some(&SqlState::from_code("XX999"))), UpdateFailure::Store);
    assert_eq!(failure_for_state(None), UpdateFailure::Store);
    assert_eq!(failure_for_code(Some("23001")), UpdateFailure::RaceConditionOnUpdate);
    assert_eq!(failure_for_code(Some("23505")), UpdateFailure::Store);
    assert_eq!(failure_for_code(Some("")), UpdateFailure::Store);
    assert_eq!(failure_for_code(None), UpdateFailure::Store);
}

#[test]
fn a_missing_entity_stops_the_update() {
    assert_eq!(require_entity(true), Ok(()));
    assert_eq!(require_entity(false), Err(UpdateFailure::EntityDoesNotExist));
    assert_eq!(
        update_outcome(false, Err(Some(&SqlState::RESTRICT_VIOLATION))),
        Err(UpdateFailure::EntityDoesNotExist)
    );
    assert_eq!(update_outcome(false, Ok(())), Err(UpdateFailure::EntityDoesNotExist));
}

#[test]
fn race_on_update() {
    // Of two updates of one entity the store lets one through and rejects
    // the other on its consistency check.
    let first = update_outcome(true, Ok(()));
    let second = update_outcome(true, Err(Some(&SqlState::RESTRICT_VIOLATION)));
    assert_eq!(first, Ok(()));
    assert_eq!(second, Err(UpdateFailure::RaceConditionOnUpdate));
    assert_eq!(update_outcome(true, Err(None)), Err(UpdateFailure::Store));
}

#[test]
fn a_new_entity_gets_the_identifier_asked_for() {
    assert_eq!(new_entity_id(5, Some(77)), EntityId { owner_id: 5, entity_uuid: 77 });
    assert_eq!(entity_id_with(5, Some(77), 1), EntityId { owner_id: 5, entity_uuid: 77 });
    assert_eq!(entity_id_with(5, None, 1), EntityId { owner_id: 5, entity_uuid: 1 });
}

#[test]
fn a_new_entity_without_identifier_gets_a_random_one() {
    let a = new_entity_id(5, None);
    let b = new_entity_id(5, None);
    assert_eq!(a.owner_id, 5);
    assert_eq!(b.owner_id, 5);
    assert_ne!(a.entity_uuid, b.entity_uuid);
    assert_eq!(uuid::Uuid::from_u128(a.entity_uuid).get_version_num(), 4);
}

fn id(owner: u128, uuid: u128) -> EntityId {
    EntityId { owner_id: owner, entity_uuid: uuid }
}

#[test]
fn a_batch_is_sorted_by_table() {
    let link = LinkData {
        left_entity_id: id(1, 10),
        right_entity_id: id(1, 20),
        order: EntityLinkOrder { left_to_right: Some(3), right_to_left: None },
    };
    let entities = vec![
        NewEntity {
            owned_by_id: 1,
            entity_uuid: Some(100),
            properties: "{\"a\":1}".to_string(),
            link_data: None,
            decision_time: Some(5),
        },
        NewEntity {
            owned_by_id: 2,
            entity_uuid: Some(200),
            properties: "{}".to_string(),
            link_data: Some(link),
            decision_time: None,
        },
        NewEntity {
            owned_by_id: 3,
            entity_uuid: None,
            properties: "{\"c\":3}".to_string(),
            link_data: None,
            decision_time: Some(7),
        },
    ];
    let plan = plan_batch(&entities);
    assert_eq!(plan.entity_ids.len(), 3);
    assert_eq!(plan.entity_ids[0], id(1, 100));
    assert_eq!(plan.entity_ids[1], id(2, 200));
    assert_eq!(plan.entity_ids[2].owner_id, 3);
    assert_eq!(plan.left_links, vec![(id(2, 200), id(1, 10))]);
    assert_eq!(plan.right_links, vec![(id(2, 200), id(1, 20))]);
    assert_eq!(plan.decision_times, vec![Some(5), None, Some(7)]);
    assert_eq!(plan.editions.len(), 3);
    assert_eq!(plan.editions[0].properties, "{\"a\":1}");
    assert_eq!(plan.editions[0].left_to_right, None);
    assert_eq!(plan.editions[1].properties, "{}");
    assert_eq!(plan.editions[1].left_to_right, Some(3));
    assert_eq!(plan.editions[1].right_to_left, None);
    assert_eq!(plan.editions[2].properties, "{\"c\":3}");
}

#[test]
fn an_empty_batch_plans_nothing() {
    let plan = plan_batch(&vec![]);
    assert!(plan.entity_ids.is_empty());
    assert!(plan.left_links.is_empty());
    assert!(plan.right_links.is_empty());
    assert!(plan.editions.is_empty());
    assert!(plan.decision_times.is_empty());
}

#[test]
fn record_ids_pair_identifiers_and_editions() {
    assert_eq!(
        record_ids(&vec![id(1, 1), id(1, 2)], &vec![7, 8]),
        vec![
            EntityRecordId { entity_id: id(1, 1), edition_id: 7 },
            EntityRecordId { entity_id: id(1, 2), edition_id: 8 },
        ]
    );
    assert_eq!(
        record_ids(&vec![id(1, 1), id(1, 2)], &vec![7]),
        vec![EntityRecordId { entity_id: id(1, 1), edition_id: 7 }]
    );
    assert_eq!(record_ids(&vec![], &vec![7]), vec![]);
}
