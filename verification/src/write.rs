//! The decisions of the write path: which identifier a new entity gets, and
//! what the failure of an update means.

use vstd::prelude::*;
use crate::identifier::EntityId;
use crate::temporal::Timestamp;

verus! {

/// `tokio_postgres::error::SqlState`: the SQLSTATE of a database error.
#[verifier::external_type_specification]
#[verifier::external_body]
pub struct ExSqlState(tokio_postgres::error::SqlState);

/// The five characters of a SQLSTATE: what
/// `tokio_postgres::error::SqlState::code` returns.
pub uninterp spec fn sql_state_code(state: tokio_postgres::error::SqlState) -> Seq<char>;

/// Calls `tokio_postgres::error::SqlState::code`, which returns the code
/// of the state, and copies it.
#[verifier::external_body]
fn code_of(state: &tokio_postgres::error::SqlState) -> (r: String)
    ensures
        r@ == sql_state_code(*state),
{
    state.code().to_owned()
}

/// Calls `uuid::Uuid::new_v4`, which draws a random identifier, and
/// `uuid::Uuid::as_u128`. Nothing is known of the result.
#[verifier::external_body]
fn fresh_uuid() -> u128 {
    uuid::Uuid::new_v4().as_u128()
}

/// Why an update did not take place.
#[derive(Debug, Clone, Copy, PartialEq, Eq, Structural)]
pub enum UpdateFailure {
    /// The entity to update is not in the store.
    EntityDoesNotExist,
    /// The store refused the write because the entity was updated in the
    /// meantime.
    RaceConditionOnUpdate,
    /// The store failed in another way.
    Store,
}

/// What a SQLSTATE, if there is one, says of a failed write: the code of a
/// restrict violation marks a lost race, anything else a failure of the store.
pub open spec fn failure_for(code: Option<Seq<char>>) -> UpdateFailure {
    match code {
        Some(c) => if c == "23001"@ {
            UpdateFailure::RaceConditionOnUpdate
        } else {
            UpdateFailure::Store
        },
        None => UpdateFailure::Store,
    }
}

/// What the code of a failed write means.
pub fn failure_for_code(code: Option<&str>) -> (r: UpdateFailure)
    ensures
        r == failure_for(
            match code {
                Some(c) => Some(c@),
                None => None,
            },
        ),
{
    match code {
        Some(c) => {
            if c.to_owned() == "23001".to_owned() {
                UpdateFailure::RaceConditionOnUpdate
            } else {
                UpdateFailure::Store
            }
        },
        None => UpdateFailure::Store,
    }
}

/// What the state of a failed write means.
pub fn failure_for_state(state: Option<&tokio_postgres::error::SqlState>) -> (r: UpdateFailure)
    ensures
        r == failure_for(
            match state {
                Some(s) => Some(sql_state_code(*s)),
                None => None,
            },
        ),
{
    match state {
        Some(s) => {
            let code = code_of(s);
            failure_for_code(Some(code.as_str()))
        },
        None => UpdateFailure::Store,
    }
}

/// Whether an update may go on after the store was asked for the entity.
pub fn require_entity(found: bool) -> (r: Result<(), UpdateFailure>)
    ensures
        r is Ok == found,
        r matches Err(e) ==> e == UpdateFailure::EntityDoesNotExist,
{
    if found {
        Ok(())
    } else {
        Err(UpdateFailure::EntityDoesNotExist)
    }
}

/// The outcome of an update: it fails when the entity is missing, and
/// otherwise as the write went.
pub fn update_outcome(
    found: bool,
    written: Result<(), Option<&tokio_postgres::error::SqlState>>,
) -> (r: Result<(), UpdateFailure>)
    ensures
        r is Ok == (found && written is Ok),
        !found ==> r == Err::<(), UpdateFailure>(UpdateFailure::EntityDoesNotExist),
        found ==> (written matches Err(state) ==> r == Err::<(), UpdateFailure>(
            failure_for(
                match state {
                    Some(s) => Some(sql_state_code(*s)),
                    None => None,
                },
            ),
        )),
{
    match require_entity(found) {
        Err(e) => Err(e),
        Ok(_) => match written {
            Ok(_) => Ok(()),
            Err(state) => Err(failure_for_state(state)),
        },
    }
}

/// The identifier of a new entity, given what a random draw came to: the
/// identifier asked for, or else the one drawn.
pub fn entity_id_with(owned_by_id: u128, requested: Option<u128>, drawn: u128) -> (r: EntityId)
    ensures
        r.owner_id == owned_by_id,
        r.entity_uuid == match requested {
            Some(u) => u,
            None => drawn,
        },
{
    EntityId {
        owner_id: owned_by_id,
        entity_uuid: match requested {
            Some(u) => u,
            None => drawn,
        },
    }
}

/// The identifier of a new entity: the one asked for, or else a random one.
pub fn new_entity_id(owned_by_id: u128, requested: Option<u128>) -> (r: EntityId)
    ensures
        r.owner_id == owned_by_id,
        requested matches Some(u) ==> r.entity_uuid == u,
{
    match requested {
        Some(u) => entity_id_with(owned_by_id, Some(u), u),
        None => entity_id_with(owned_by_id, None, fresh_uuid()),
    }
}

/// Where a link entity stands between its two ends.
#[derive(Debug, Clone, Copy, PartialEq, Eq, Structural)]
pub struct EntityLinkOrder {
    pub left_to_right: Option<i32>,
    pub right_to_left: Option<i32>,
}

/// The two ends of a link entity and its order among the links of each.
#[derive(Debug, Clone, Copy, PartialEq, Eq, Structural)]
pub struct LinkData {
    pub left_entity_id: EntityId,
    pub right_entity_id: EntityId,
    pub order: EntityLinkOrder,
}

/// An entity to insert.
#[derive(Debug, Clone)]
pub struct NewEntity {
    pub owned_by_id: u128,
    pub entity_uuid: Option<u128>,
    pub properties: String,
    pub link_data: Option<LinkData>,
    pub decision_time: Option<Timestamp>,
}

/// The first edition of an entity to insert: its properties and its order
/// as a link.
#[derive(Debug, Clone)]
pub struct NewEdition {
    pub properties: String,
    pub left_to_right: Option<i32>,
    pub right_to_left: Option<i32>,
}

/// One revision of an entity: the entity and the edition.
#[derive(Debug, Clone, Copy, PartialEq, Eq, Structural)]
pub struct EntityRecordId {
    pub entity_id: EntityId,
    pub edition_id: u128,
}

/// What is written for a batch of entities, table by table. Entry `i` of
/// the identifiers, the editions and the decision times belongs to entity
/// `i` of the batch.
#[derive(Debug)]
pub struct BatchPlan {
    pub entity_ids: Vec<EntityId>,
    pub left_links: Vec<(EntityId, EntityId)>,
    pub right_links: Vec<(EntityId, EntityId)>,
    pub editions: Vec<NewEdition>,
    pub decision_times: Vec<Option<Timestamp>>,
}

/// The left end of an entity to insert, if it is a link.
pub open spec fn left_end(entity: NewEntity) -> Option<EntityId> {
    match entity.link_data {
        Some(link) => Some(link.left_entity_id),
        None => None,
    }
}

/// The right end of an entity to insert, if it is a link.
pub open spec fn right_end(entity: NewEntity) -> Option<EntityId> {
    match entity.link_data {
        Some(link) => Some(link.right_entity_id),
        None => None,
    }
}

/// The pairs of an identifier and the end that goes with it, for those
/// identifiers that go with an end, in order.
pub open spec fn links(ids: Seq<EntityId>, ends: Seq<Option<EntityId>>) -> Seq<
    (EntityId, EntityId),
>
    decreases ids.len(),
{
    if ids.len() == 0 || ends.len() == 0 {
        Seq::empty()
    } else {
        let front = links(ids.drop_last(), ends.drop_last());
        match ends.last() {
            Some(end) => front.push((ids.last(), end)),
            None => front,
        }
    }
}

/// Plans the insertion of a batch of entities: draws an identifier for each
/// entity that names none, and sorts what is to be written by table.
pub fn plan_batch(entities: &Vec<NewEntity>) -> (r: BatchPlan)
    ensures
        r.entity_ids@.len() == entities@.len(),
        r.editions@.len() == entities@.len(),
        r.decision_times@.len() == entities@.len(),
        forall|i: int|
            0 <= i < entities@.len() ==> {
                &&& (#[trigger] r.entity_ids@[i]).owner_id == entities@[i].owned_by_id
                &&& (entities@[i].entity_uuid matches Some(u) ==> r.entity_ids@[i].entity_uuid
                    == u)
            },
        forall|i: int|
            0 <= i < entities@.len() ==> {
                &&& (#[trigger] r.editions@[i]).properties@ == entities@[i].properties@
                &&& r.editions@[i].left_to_right == match entities@[i].link_data {
                    Some(link) => link.order.left_to_right,
                    None => None,
                }
                &&& r.editions@[i].right_to_left == match entities@[i].link_data {
                    Some(link) => link.order.right_to_left,
                    None => None,
                }
            },
        forall|i: int|
            0 <= i < entities@.len() ==> #[trigger] r.decision_times@[i]
                == entities@[i].decision_time,
        r.left_links@ == links(r.entity_ids@, entities@.map_values(|e: NewEntity| left_end(e))),
        r.right_links@ == links(r.entity_ids@, entities@.map_values(|e: NewEntity| right_end(e))),
{
    let mut plan = BatchPlan {
        entity_ids: Vec::new(),
        left_links: Vec::new(),
        right_links: Vec::new(),
        editions: Vec::new(),
        decision_times: Vec::new(),
    };
    let ghost lefts = entities@.map_values(|e: NewEntity| left_end(e));
    let ghost rights = entities@.map_values(|e: NewEntity| right_end(e));
    let mut i: usize = 0;
    proof {
        assert(lefts.take(0) =~= Seq::<Option<EntityId>>::empty());
        assert(rights.take(0) =~= Seq::<Option<EntityId>>::empty());
    }
    while i < entities.len()
        invariant
            i <= entities.len(),
            lefts == entities@.map_values(|e: NewEntity| left_end(e)),
            rights == entities@.map_values(|e: NewEntity| right_end(e)),
            plan.entity_ids@.len() == i,
            plan.editions@.len() == i,
            plan.decision_times@.len() == i,
            forall|j: int|
                0 <= j < i ==> {
                    &&& (#[trigger] plan.entity_ids@[j]).owner_id == entities@[j].owned_by_id
                    &&& (entities@[j].entity_uuid matches Some(u)
                        ==> plan.entity_ids@[j].entity_uuid == u)
                },
            forall|j: int|
                0 <= j < i ==> {
                    &&& (#[trigger] plan.editions@[j]).properties@ == entities@[j].properties@
                    &&& plan.editions@[j].left_to_right == match entities@[j].link_data {
                        Some(link) => link.order.left_to_right,
                        None => None,
                    }
                    &&& plan.editions@[j].right_to_left == match entities@[j].link_data {
                        Some(link) => link.order.right_to_left,
                        None => None,
                    }
                },
            forall|j: int|
                0 <= j < i ==> #[trigger] plan.decision_times@[j] == entities@[j].decision_time,
            plan.left_links@ == links(plan.entity_ids@, lefts.take(i as int)),
            plan.right_links@ == links(plan.entity_ids@, rights.take(i as int)),
        decreases entities.len() - i,
    {
        let entity = &entities[i];
        let id = new_entity_id(entity.owned_by_id, entity.entity_uuid);
        let ghost ids_before = plan.entity_ids@;
        proof {
            assert(lefts.take(i as int + 1).drop_last() =~= lefts.take(i as int));
            assert(rights.take(i as int + 1).drop_last() =~= rights.take(i as int));
            assert(lefts.take(i as int + 1).last() == left_end(*entity));
            assert(rights.take(i as int + 1).last() == right_end(*entity));
            assert(ids_before.push(id).drop_last() =~= ids_before);
        }
        plan.entity_ids.push(id);
        match entity.link_data {
            Some(link) => {
                plan.left_links.push((id, link.left_entity_id));
                plan.right_links.push((id, link.right_entity_id));
                plan.editions.push(
                    NewEdition {
                        properties: entity.properties.clone(),
                        left_to_right: link.order.left_to_right,
                        right_to_left: link.order.right_to_left,
                    },
                );
            },
            None => {
                plan.editions.push(
                    NewEdition {
                        properties: entity.properties.clone(),
                        left_to_right: None,
                        right_to_left: None,
                    },
                );
            },
        }
        plan.decision_times.push(entity.decision_time);
        i += 1;
    }
    proof {
        assert(lefts.take(i as int) =~= lefts);
        assert(rights.take(i as int) =~= rights);
    }
    plan
}

/// The revisions that a batch created: identifier `i` with edition `i`, for
/// as many as there are of both.
pub fn record_ids(entity_ids: &Vec<EntityId>, edition_ids: &Vec<u128>) -> (r: Vec<EntityRecordId>)
    ensures
        r@.len() == if entity_ids@.len() <= edition_ids@.len() {
            entity_ids@.len()
        } else {
            edition_ids@.len()
        },
        forall|i: int|
            0 <= i < r@.len() ==> #[trigger] r@[i] == (EntityRecordId {
                entity_id: entity_ids@[i],
                edition_id: edition_ids@[i],
            }),
{
    let n = if entity_ids.len() <= edition_ids.len() {
        entity_ids.len()
    } else {
        edition_ids.len()
    };
    let mut out: Vec<EntityRecordId> = Vec::new();
    let mut i: usize = 0;
    while i < n
        invariant
            i <= n,
            n <= entity_ids@.len(),
            n <= edition_ids@.len(),
            out@.len() == i,
            forall|j: int|
                0 <= j < i ==> #[trigger] out@[j] == (EntityRecordId {
                    entity_id: entity_ids@[j],
                    edition_id: edition_ids@[j],
                }),
        decreases n - i,
    {
        out.push(EntityRecordId { entity_id: entity_ids[i], edition_id: edition_ids[i] });
        i += 1;
    }
    out
}

} // verus!
