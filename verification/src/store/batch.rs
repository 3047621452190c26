//! Creating many entities of one type in one transaction.
//!
//! The store takes a batch in three lists that run in step: the identities,
//! the editions and the decision times. Here the lists are made from what
//! the caller asks for, and the answers of the store are put together again.

use crate::collections::reversed;
use crate::identifier::{
    DecisionTimestamp, EntityEditionId, EntityId, EntityRecordId, EntityUuid, EntityVersion,
};
use crate::knowledge::{EntityMetadata, EntityProperties, LinkData};
use crate::ontology::VersionedUri;
use crate::provenance::{OwnedById, ProvenanceMetadata, UpdatedById};
use crate::store::entity::{is_random_uuid, random_uuid};
use vstd::prelude::*;

verus! {

/// One entity of a batch, as the caller asks for it.
#[derive(Debug)]
pub struct BatchedEntity {
    pub owned_by_id: OwnedById,
    pub entity_uuid: Option<EntityUuid>,
    pub properties: EntityProperties,
    pub link_data: Option<LinkData>,
    pub decision_time: Option<DecisionTimestamp>,
}

/// The identity of one entity of a batch, and the identities of the two
/// entities that it joins if it is a link.
#[derive(Clone, Copy, Debug, PartialEq, Eq)]
pub struct BatchedIdentity {
    pub entity_id: EntityId,
    pub left_entity_id: Option<EntityId>,
    pub right_entity_id: Option<EntityId>,
}

/// The edition of one entity of a batch: its properties and, if it is a
/// link, its place among the links of its two ends.
#[derive(Debug)]
pub struct BatchedEdition {
    pub properties: EntityProperties,
    pub left_to_right_order: Option<i32>,
    pub right_to_left_order: Option<i32>,
}

/// A batch as the store takes it: three lists of one length, in which the
/// items at one place belong to one entity.
#[derive(Debug)]
pub struct EntityBatch {
    pub entity_ids: Vec<BatchedIdentity>,
    pub entity_editions: Vec<BatchedEdition>,
    pub entity_versions: Vec<Option<DecisionTimestamp>>,
}

/// Whether `identity` is an identity of the entity that `asked` asks for.
pub open spec fn identifies(identity: BatchedIdentity, asked: BatchedEntity) -> bool {
    &&& identity.entity_id.owned_by_id == asked.owned_by_id
    &&& match asked.entity_uuid {
        Some(given) => identity.entity_id.entity_uuid == given,
        None => is_random_uuid(identity.entity_id.entity_uuid.uuid),
    }
    &&& identity.left_entity_id == match asked.link_data {
        Some(link) => Some(link.left_entity_id),
        None => None,
    }
    &&& identity.right_entity_id == match asked.link_data {
        Some(link) => Some(link.right_entity_id),
        None => None,
    }
}

/// The edition of the entity that `asked` asks for.
pub open spec fn edition_of(asked: BatchedEntity) -> BatchedEdition {
    BatchedEdition {
        properties: asked.properties,
        left_to_right_order: match asked.link_data {
            Some(link) => link.order.left_to_right,
            None => None,
        },
        right_to_left_order: match asked.link_data {
            Some(link) => link.order.right_to_left,
            None => None,
        },
    }
}

/// Lays out a batch of entities for the store.
///
/// The three lists are as long as `entities` and keep its order. An entity
/// keeps the identifier it was given; one without gets a random identifier.
pub fn insert_entities_batched_by_type(entities: Vec<BatchedEntity>) -> (batch: EntityBatch)
    ensures
        batch.entity_ids@.len() == entities@.len(),
        batch.entity_editions@.len() == entities@.len(),
        batch.entity_versions@.len() == entities@.len(),
        forall|i: int|
            0 <= i < entities@.len() ==> {
                &&& identifies(#[trigger] batch.entity_ids@[i], entities@[i])
                &&& batch.entity_editions@[i] == edition_of(entities@[i])
                &&& batch.entity_versions@[i] == entities@[i].decision_time
            },
{
    let ghost given = entities@;
    let mut rest = reversed(entities);
    let mut entity_ids: Vec<BatchedIdentity> = Vec::new();
    let mut entity_editions: Vec<BatchedEdition> = Vec::new();
    let mut entity_versions: Vec<Option<DecisionTimestamp>> = Vec::new();
    while rest.len() > 0
        invariant
            rest@.len() + entity_ids@.len() == given.len(),
            entity_editions@.len() == entity_ids@.len(),
            entity_versions@.len() == entity_ids@.len(),
            forall|j: int| 0 <= j < rest@.len() ==> rest@[j] == given[given.len() - 1 - j],
            forall|i: int|
                0 <= i < entity_ids@.len() ==> {
                    &&& identifies(#[trigger] entity_ids@[i], given[i])
                    &&& entity_editions@[i] == edition_of(given[i])
                    &&& entity_versions@[i] == given[i].decision_time
                },
        decreases rest@.len(),
    {
        let ghost done = entity_ids@.len() as int;
        let asked = rest.pop().unwrap();
        assert(asked == given[done]);
        let entity_uuid = match asked.entity_uuid {
            Some(given) => given,
            None => EntityUuid::new(random_uuid()),
        };
        entity_ids.push(
            BatchedIdentity {
                entity_id: EntityId::new(asked.owned_by_id, entity_uuid),
                left_entity_id: match asked.link_data {
                    Some(link) => Some(link.left_entity_id),
                    None => None,
                },
                right_entity_id: match asked.link_data {
                    Some(link) => Some(link.right_entity_id),
                    None => None,
                },
            },
        );
        entity_editions.push(
            BatchedEdition {
                properties: asked.properties,
                left_to_right_order: match asked.link_data {
                    Some(link) => link.order.left_to_right,
                    None => None,
                },
                right_to_left_order: match asked.link_data {
                    Some(link) => link.order.right_to_left,
                    None => None,
                },
            },
        );
        entity_versions.push(asked.decision_time);
    }
    EntityBatch { entity_ids, entity_editions, entity_versions }
}

/// One entity of a batch whose edition the store has recorded: what the
/// store needs to record its version.
#[derive(Clone, Copy, Debug, PartialEq, Eq)]
pub struct BatchedVersion {
    pub entity_id: EntityId,
    pub entity_record_id: EntityRecordId,
    pub decision_time: Option<DecisionTimestamp>,
}

/// The shortest of three lengths.
pub open spec fn shortest(a: int, b: int, c: int) -> int {
    if a <= b && a <= c {
        a
    } else if b <= c {
        b
    } else {
        c
    }
}

fn shortest_of(a: usize, b: usize, c: usize) -> (least: usize)
    ensures
        least == shortest(a as int, b as int, c as int),
{
    if a <= b && a <= c {
        a
    } else if b <= c {
        b
    } else {
        c
    }
}

/// Joins the identities of a batch to the numbers that the store gave to
/// their editions and to their decision times, place by place. The result
/// ends where the shortest of the three lists ends.
pub fn batched_versions(
    entity_ids: &Vec<BatchedIdentity>,
    entity_record_ids: &Vec<EntityRecordId>,
    entity_versions: &Vec<Option<DecisionTimestamp>>,
) -> (versions: Vec<BatchedVersion>)
    ensures
        versions@.len() == shortest(
            entity_ids@.len() as int,
            entity_record_ids@.len() as int,
            entity_versions@.len() as int,
        ),
        forall|i: int|
            0 <= i < versions@.len() ==> #[trigger] versions@[i] == (BatchedVersion {
                entity_id: entity_ids@[i].entity_id,
                entity_record_id: entity_record_ids@[i],
                decision_time: entity_versions@[i],
            }),
{
    let count = shortest_of(entity_ids.len(), entity_record_ids.len(), entity_versions.len());
    let mut versions: Vec<BatchedVersion> = Vec::new();
    let mut i: usize = 0;
    while i < count
        invariant
            i <= count,
            count <= entity_ids@.len(),
            count <= entity_record_ids@.len(),
            count <= entity_versions@.len(),
            versions@.len() == i,
            forall|j: int|
                0 <= j < i ==> #[trigger] versions@[j] == (BatchedVersion {
                    entity_id: entity_ids@[j].entity_id,
                    entity_record_id: entity_record_ids@[j],
                    decision_time: entity_versions@[j],
                }),
        decreases count - i,
    {
        versions.push(
            BatchedVersion {
                entity_id: entity_ids[i].entity_id,
                entity_record_id: entity_record_ids[i],
                decision_time: entity_versions[i],
            },
        );
        i += 1;
    }
    versions
}

/// The metadata of the entities of a batch that the store has recorded.
///
/// The identities, the versions and the numbers of the editions are joined
/// place by place; the result ends where the shortest of the three lists
/// ends. Every entity is of the type `entity_type_id`, was written by
/// `actor_id` and is not archived.
pub fn batched_metadata(
    entity_ids: &Vec<BatchedIdentity>,
    entity_versions: &Vec<EntityVersion>,
    entity_record_ids: &Vec<EntityRecordId>,
    entity_type_id: &VersionedUri,
    actor_id: UpdatedById,
) -> (metadata: Vec<EntityMetadata>)
    ensures
        metadata@.len() == shortest(
            entity_ids@.len() as int,
            entity_versions@.len() as int,
            entity_record_ids@.len() as int,
        ),
        forall|i: int|
            0 <= i < metadata@.len() ==> #[trigger] metadata@[i] == (EntityMetadata {
                edition_id: EntityEditionId {
                    base_id: entity_ids@[i].entity_id,
                    record_id: entity_record_ids@[i],
                    version: entity_versions@[i],
                },
                entity_type_id: *entity_type_id,
                provenance: ProvenanceMetadata { updated_by_id: actor_id },
                archived: false,
            }),
{
    let count = shortest_of(entity_ids.len(), entity_versions.len(), entity_record_ids.len());
    let mut metadata: Vec<EntityMetadata> = Vec::new();
    let mut i: usize = 0;
    while i < count
        invariant
            i <= count,
            count <= entity_ids@.len(),
            count <= entity_versions@.len(),
            count <= entity_record_ids@.len(),
            metadata@.len() == i,
            forall|j: int|
                0 <= j < i ==> #[trigger] metadata@[j] == (EntityMetadata {
                    edition_id: EntityEditionId {
                        base_id: entity_ids@[j].entity_id,
                        record_id: entity_record_ids@[j],
                        version: entity_versions@[j],
                    },
                    entity_type_id: *entity_type_id,
                    provenance: ProvenanceMetadata { updated_by_id: actor_id },
                    archived: false,
                }),
        decreases count - i,
    {
        metadata.push(
            EntityMetadata::new(
                EntityEditionId::new(
                    entity_ids[i].entity_id,
                    entity_record_ids[i],
                    entity_versions[i],
                ),
                entity_type_id.clone(),
                ProvenanceMetadata::new(actor_id),
                false,
            ),
        );
        i += 1;
    }
    metadata
}

} // verus!
