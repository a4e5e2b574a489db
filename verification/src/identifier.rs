//! Identifiers of vertices.
//!
//! An ontology type is identified by its base URL and revision; an entity by
//! its owner, its own id and either the timestamp of a revision or the
//! interval over which it was reached. Contracts speak of an identifier
//! through its view, a [`VertexKey`], in which a URL is a sequence of
//! characters.

use vstd::prelude::*;
use crate::temporal::{TemporalBound, TemporalInterval, Timestamp};

verus! {

/// The five kinds of vertex.
#[derive(Debug, Clone, Copy, PartialEq, Eq, Hash, Structural)]
pub enum VertexKind {
    DataType,
    PropertyType,
    EntityType,
    Entity,
    EntityInterval,
}

/// An entity without regard to time: the owner's id and the entity's own id.
#[derive(Debug, Clone, Copy, PartialEq, Eq, Hash, Structural)]
pub struct EntityId {
    pub owner_id: u128,
    pub entity_uuid: u128,
}

/// One revision of an ontology type.
#[derive(Debug, Clone, PartialEq, Eq, Hash)]
pub struct OntologyVertexId {
    pub base_url: String,
    pub revision: u32,
}

/// One revision of an entity.
#[derive(Debug, Clone, Copy, PartialEq, Eq, Hash, Structural)]
pub struct EntityVertexId {
    pub base_id: EntityId,
    pub revision_id: Timestamp,
}

/// An entity across an interval of the variable axis.
#[derive(Debug, Clone, Copy, PartialEq, Eq, Hash, Structural)]
pub struct EntityIdWithInterval {
    pub entity_id: EntityId,
    pub interval: TemporalInterval,
}

/// The identifier of a vertex of any kind.
#[derive(Debug, Clone, PartialEq, Eq, Hash)]
pub enum VertexId {
    DataType(OntologyVertexId),
    PropertyType(OntologyVertexId),
    EntityType(OntologyVertexId),
    Entity(EntityVertexId),
    EntityInterval(EntityIdWithInterval),
}

/// The view of an [`OntologyVertexId`].
pub struct OntologyKey {
    pub base_url: Seq<char>,
    pub revision: u32,
}

/// The view of a [`VertexId`].
pub enum VertexKey {
    DataType(OntologyKey),
    PropertyType(OntologyKey),
    EntityType(OntologyKey),
    Entity(EntityVertexId),
    EntityInterval(EntityIdWithInterval),
}

/// What identifies the thing a vertex stands for when time is left aside: an
/// ontology vertex is its own anchor, an entity vertex is anchored at its
/// entity.
pub enum Anchor {
    Ontology(VertexKey),
    Entity(EntityId),
}

impl View for OntologyVertexId {
    type V = OntologyKey;

    open spec fn view(&self) -> OntologyKey {
        OntologyKey { base_url: self.base_url@, revision: self.revision }
    }
}

impl View for VertexId {
    type V = VertexKey;

    open spec fn view(&self) -> VertexKey {
        match self {
            VertexId::DataType(id) => VertexKey::DataType(id@),
            VertexId::PropertyType(id) => VertexKey::PropertyType(id@),
            VertexId::EntityType(id) => VertexKey::EntityType(id@),
            VertexId::Entity(id) => VertexKey::Entity(*id),
            VertexId::EntityInterval(id) => VertexKey::EntityInterval(*id),
        }
    }
}

impl VertexKey {
    /// The kind of the vertex.
    pub open spec fn kind(self) -> VertexKind {
        match self {
            VertexKey::DataType(_) => VertexKind::DataType,
            VertexKey::PropertyType(_) => VertexKind::PropertyType,
            VertexKey::EntityType(_) => VertexKind::EntityType,
            VertexKey::Entity(_) => VertexKind::Entity,
            VertexKey::EntityInterval(_) => VertexKind::EntityInterval,
        }
    }

    /// The entity behind an entity vertex.
    pub open spec fn entity_id(self) -> Option<EntityId> {
        match self {
            VertexKey::Entity(id) => Some(id.base_id),
            VertexKey::EntityInterval(id) => Some(id.entity_id),
            _ => None,
        }
    }

    /// The base URL and revision of an ontology vertex.
    pub open spec fn ontology_key(self) -> Option<OntologyKey> {
        match self {
            VertexKey::DataType(k) => Some(k),
            VertexKey::PropertyType(k) => Some(k),
            VertexKey::EntityType(k) => Some(k),
            _ => None,
        }
    }

    /// The revision of an entity vertex: the timestamp of its revision, or
    /// the lower bound of the interval over which it was reached.
    pub open spec fn revision_bound(self) -> Option<TemporalBound> {
        match self {
            VertexKey::Entity(id) => Some(TemporalBound::Inclusive(id.revision_id)),
            VertexKey::EntityInterval(id) => Some(id.interval.start),
            _ => None,
        }
    }

    /// The anchor of the vertex.
    pub open spec fn anchor(self) -> Anchor {
        match self {
            VertexKey::Entity(id) => Anchor::Entity(id.base_id),
            VertexKey::EntityInterval(id) => Anchor::Entity(id.entity_id),
            _ => Anchor::Ontology(self),
        }
    }
}

impl OntologyVertexId {
    /// An identifier from a base URL and a revision.
    pub fn new(base_url: String, revision: u32) -> (r: OntologyVertexId)
        ensures
            r@.base_url == base_url@,
            r@.revision == revision,
    {
        OntologyVertexId { base_url, revision }
    }

    /// Whether two identifiers name the same revision of the same type.
    pub fn equals(&self, other: &OntologyVertexId) -> (r: bool)
        ensures
            r == (self@ == other@),
    {
        self.revision == other.revision && self.base_url == other.base_url
    }

    /// A copy of the identifier.
    pub fn duplicate(&self) -> (r: OntologyVertexId)
        ensures
            r@ == self@,
    {
        OntologyVertexId { base_url: self.base_url.clone(), revision: self.revision }
    }
}

impl EntityId {
    /// Whether two ids name the same entity.
    pub fn equals(&self, other: &EntityId) -> (r: bool)
        ensures
            r == (*self == *other),
    {
        self.owner_id == other.owner_id && self.entity_uuid == other.entity_uuid
    }
}

impl VertexId {
    /// The kind of the vertex.
    pub fn kind(&self) -> (r: VertexKind)
        ensures
            r == self@.kind(),
    {
        match self {
            VertexId::DataType(_) => VertexKind::DataType,
            VertexId::PropertyType(_) => VertexKind::PropertyType,
            VertexId::EntityType(_) => VertexKind::EntityType,
            VertexId::Entity(_) => VertexKind::Entity,
            VertexId::EntityInterval(_) => VertexKind::EntityInterval,
        }
    }

    /// The entity behind an entity vertex, `None` for an ontology vertex.
    pub fn entity_id(&self) -> (r: Option<EntityId>)
        ensures
            r == self@.entity_id(),
    {
        match self {
            VertexId::Entity(id) => Some(id.base_id),
            VertexId::EntityInterval(id) => Some(id.entity_id),
            _ => None,
        }
    }

    /// The revision of an entity vertex, `None` for an ontology vertex.
    pub fn revision_bound(&self) -> (r: Option<TemporalBound>)
        ensures
            r == self@.revision_bound(),
    {
        match self {
            VertexId::Entity(id) => Some(TemporalBound::Inclusive(id.revision_id)),
            VertexId::EntityInterval(id) => Some(id.interval.start),
            _ => None,
        }
    }

    /// Whether two identifiers name the same vertex.
    pub fn equals(&self, other: &VertexId) -> (r: bool)
        ensures
            r == (self@ == other@),
    {
        match (self, other) {
            (VertexId::DataType(a), VertexId::DataType(b)) => a.equals(b),
            (VertexId::PropertyType(a), VertexId::PropertyType(b)) => a.equals(b),
            (VertexId::EntityType(a), VertexId::EntityType(b)) => a.equals(b),
            (VertexId::Entity(a), VertexId::Entity(b)) => {
                a.base_id.equals(&b.base_id) && a.revision_id == b.revision_id
            },
            (VertexId::EntityInterval(a), VertexId::EntityInterval(b)) => {
                a.entity_id.equals(&b.entity_id) && a.interval.equals(&b.interval)
            },
            _ => false,
        }
    }

    /// Whether two vertices stand for the same thing when time is left aside.
    pub fn same_anchor(&self, other: &VertexId) -> (r: bool)
        ensures
            r == (self@.anchor() == other@.anchor()),
    {
        match (self.entity_id(), other.entity_id()) {
            (Some(a), Some(b)) => a.equals(&b),
            (None, None) => self.equals(other),
            _ => false,
        }
    }

    /// A copy of the identifier.
    pub fn duplicate(&self) -> (r: VertexId)
        ensures
            r@ == self@,
    {
        match self {
            VertexId::DataType(id) => VertexId::DataType(id.duplicate()),
            VertexId::PropertyType(id) => VertexId::PropertyType(id.duplicate()),
            VertexId::EntityType(id) => VertexId::EntityType(id.duplicate()),
            VertexId::Entity(id) => VertexId::Entity(*id),
            VertexId::EntityInterval(id) => VertexId::EntityInterval(*id),
        }
    }
}

/// The set of vertices that a list of identifiers names.
pub open spec fn key_set(ids: Seq<VertexId>) -> Set<VertexKey> {
    Set::new(|k: VertexKey| exists|i: int| 0 <= i < ids.len() && (#[trigger] ids[i])@ == k)
}

/// Whether no vertex is named twice in a list of identifiers.
pub open spec fn distinct_keys(ids: Seq<VertexId>) -> bool {
    forall|i: int, j: int| 0 <= i < j < ids.len() ==> (#[trigger] ids[i])@ != (#[trigger] ids[j])@
}

/// Adding an identifier at the end of a list adds its vertex to the set named.
pub proof fn lemma_key_set_push(ids: Seq<VertexId>, id: VertexId)
    ensures
        key_set(ids.push(id)) == key_set(ids).insert(id@),
        distinct_keys(ids) && !key_set(ids).contains(id@) ==> distinct_keys(ids.push(id)),
{
    let longer = ids.push(id);
    assert forall|k: VertexKey| key_set(longer).contains(k) <==> key_set(ids).insert(id@).contains(
        k,
    ) by {
        if key_set(longer).contains(k) {
            let i = choose|i: int| 0 <= i < longer.len() && (#[trigger] longer[i])@ == k;
            if i < ids.len() {
                assert(ids[i]@ == k);
            }
        }
        if key_set(ids).contains(k) {
            let i = choose|i: int| 0 <= i < ids.len() && (#[trigger] ids[i])@ == k;
            assert(longer[i]@ == k);
        }
        if k == id@ {
            assert(longer[ids.len() as int]@ == k);
        }
    }
    assert(key_set(longer) =~= key_set(ids).insert(id@));
    if distinct_keys(ids) && !key_set(ids).contains(id@) {
        assert forall|i: int, j: int| 0 <= i < j < longer.len() implies (#[trigger] longer[i])@ != (
        #[trigger] longer[j])@ by {
            if j == ids.len() {
                assert(ids[i]@ == longer[i]@);
            } else {
                assert(ids[i]@ == longer[i]@ && ids[j]@ == longer[j]@);
            }
        }
    }
}

/// Whether `id` names a vertex that a list of identifiers names.
pub fn names_vertex(ids: &Vec<VertexId>, id: &VertexId) -> (r: bool)
    ensures
        r == key_set(ids@).contains(id@),
{
    let mut i: usize = 0;
    while i < ids.len()
        invariant
            i <= ids.len(),
            forall|j: int| 0 <= j < i ==> (#[trigger] ids@[j])@ != id@,
        decreases ids.len() - i,
    {
        if ids[i].equals(id) {
            return true;
        }
        i += 1;
    }
    false
}

} // verus!
