//! What the relational store returns, turned into rows for the traversal.
//!
//! The store echoes the ordinal of a source counting from one. A value that
//! does not fit what it stands for is a fault of the store and ends the
//! query.

use vstd::prelude::*;
use crate::driver::target_kind_of;
use crate::edges::{EdgeDirection, EdgeKind};
use crate::error::QueryError;
use crate::frontier::EdgeRow;
use crate::identifier::{
    EntityId, EntityIdWithInterval, OntologyKey, OntologyVertexId, VertexId, VertexKey, VertexKind,
};
use crate::model::target_kind;
use crate::temporal::{TemporalInterval, TimeAxis};

verus! {

/// The position of a source from the ordinal that the store echoes.
pub fn decode_ordinal(ordinal: i64) -> (r: Result<usize, QueryError>)
    ensures
        r is Ok <==> 1 <= ordinal && ordinal - 1 <= usize::MAX,
        r matches Ok(i) ==> i == ordinal - 1,
{
    if ordinal < 1 {
        return Err(QueryError);
    }
    let index = (ordinal - 1) as u64;
    if index > usize::MAX as u64 {
        return Err(QueryError);
    }
    Ok(index as usize)
}

/// The revision of an ontology type from the version that the store holds.
pub fn decode_revision(version: i64) -> (r: Result<u32, QueryError>)
    ensures
        r is Ok <==> 0 <= version <= u32::MAX,
        r matches Ok(v) ==> v == version,
{
    if version < 0 || version > u32::MAX as i64 {
        return Err(QueryError);
    }
    Ok(version as u32)
}

/// The columns of the pinned and of the variable axis, in this order.
pub fn axis_columns(variable_axis: TimeAxis) -> (r: (&'static str, &'static str))
    ensures
        r.0@ == match variable_axis {
            TimeAxis::DecisionTime => "transaction_time"@,
            TimeAxis::TransactionTime => "decision_time"@,
        },
        r.1@ == match variable_axis {
            TimeAxis::DecisionTime => "decision_time"@,
            TimeAxis::TransactionTime => "transaction_time"@,
        },
{
    match variable_axis {
        TimeAxis::DecisionTime => ("transaction_time", "decision_time"),
        TimeAxis::TransactionTime => ("decision_time", "transaction_time"),
    }
}

/// The two sides of the join for an edge followed in `direction`, given the
/// side at which the edge starts and the side at which it ends: followed
/// backwards the sides change places.
pub fn join_sides<'a>(direction: EdgeDirection, start: &'a str, end: &'a str) -> (r: (
    &'a str,
    &'a str,
))
    ensures
        r == match direction {
            EdgeDirection::Outgoing => (start, end),
            EdgeDirection::Incoming => (end, start),
        },
{
    match direction {
        EdgeDirection::Outgoing => (start, end),
        EdgeDirection::Incoming => (end, start),
    }
}

/// The row for an edge of `kind` that leads to an ontology type. It is
/// malformed when the edge leads to an entity, when the base URL did not
/// parse (`None`), or when version or ordinal are out of range.
pub fn ontology_row(kind: EdgeKind, base_url: Option<String>, version: i64, ordinal: i64) -> (r:
    Result<EdgeRow, QueryError>)
    ensures
        r is Ok <==> (!(kind is KnowledgeGraph) && base_url is Some && 0 <= version <= u32::MAX
            && 1 <= ordinal && ordinal - 1 <= usize::MAX),
        r matches Ok(row) ==> {
            &&& row@.source_index == ordinal - 1
            &&& row@.target.kind() == target_kind(kind)
            &&& row@.target.ontology_key() == Some(
                OntologyKey { base_url: base_url.unwrap()@, revision: version as u32 },
            )
        },
{
    let url = match base_url {
        Some(u) => u,
        None => {
            return Err(QueryError);
        },
    };
    let revision = match decode_revision(version) {
        Ok(v) => v,
        Err(e) => {
            return Err(e);
        },
    };
    let source_index = match decode_ordinal(ordinal) {
        Ok(i) => i,
        Err(e) => {
            return Err(e);
        },
    };
    let id = OntologyVertexId::new(url, revision);
    let target = match target_kind_of(kind) {
        VertexKind::DataType => VertexId::DataType(id),
        VertexKind::PropertyType => VertexId::PropertyType(id),
        VertexKind::EntityType => VertexId::EntityType(id),
        _ => {
            return Err(QueryError);
        },
    };
    Ok(EdgeRow { source_index, target })
}

/// The row for an edge that leads to an entity and holds over `validity`.
/// It is malformed when the ordinal is out of range.
pub fn entity_row(owner_id: u128, entity_uuid: u128, validity: TemporalInterval, ordinal: i64) -> (r:
    Result<EdgeRow, QueryError>)
    ensures
        r is Ok <==> (1 <= ordinal && ordinal - 1 <= usize::MAX),
        r matches Ok(row) ==> {
            &&& row@.source_index == ordinal - 1
            &&& row@.target == VertexKey::EntityInterval(
                EntityIdWithInterval {
                    entity_id: EntityId { owner_id, entity_uuid },
                    interval: validity,
                },
            )
        },
{
    let source_index = match decode_ordinal(ordinal) {
        Ok(i) => i,
        Err(e) => {
            return Err(e);
        },
    };
    Ok(
        EdgeRow {
            source_index,
            target: VertexId::EntityInterval(
                EntityIdWithInterval {
                    entity_id: EntityId { owner_id, entity_uuid },
                    interval: validity,
                },
            ),
        },
    )
}

} // verus!
