//! Entities: the records of the knowledge graph.

use crate::identifier::{EntityEditionId, EntityId};
use crate::ontology::VersionedUri;
use crate::provenance::ProvenanceMetadata;
use vstd::prelude::*;

verus! {

/// `serde_json::Value`, a JSON document. The library carries such documents
/// and never looks inside.
#[verifier::external_type_specification]
#[verifier::external_body]
pub struct ExJsonValue(serde_json::Value);

/// The properties of an entity: a JSON document that the library stores and
/// returns as it got it.
#[derive(Debug, PartialEq)]
pub struct EntityProperties {
    pub value: serde_json::Value,
}

impl EntityProperties {
    pub fn new(value: serde_json::Value) -> (properties: EntityProperties)
        ensures
            properties.value == value,
    {
        EntityProperties { value }
    }

    pub fn value(&self) -> (value: &serde_json::Value)
        ensures
            *value == self.value,
    {
        &self.value
    }
}

/// Where a link stands among the links that share one of its ends.
#[derive(Clone, Copy, Debug, PartialEq, Eq, Hash)]
pub struct EntityLinkOrder {
    pub left_to_right: Option<i32>,
    pub right_to_left: Option<i32>,
}

impl EntityLinkOrder {
    pub fn new(left_to_right: Option<i32>, right_to_left: Option<i32>) -> (order: EntityLinkOrder)
        ensures
            order.left_to_right == left_to_right,
            order.right_to_left == right_to_left,
    {
        EntityLinkOrder { left_to_right, right_to_left }
    }

    pub fn left_to_right(&self) -> (order: Option<i32>)
        ensures
            order == self.left_to_right,
    {
        self.left_to_right
    }

    pub fn right_to_left(&self) -> (order: Option<i32>)
        ensures
            order == self.right_to_left,
    {
        self.right_to_left
    }
}

/// What makes an entity a link: the two entities it joins and its place
/// among their other links.
#[derive(Clone, Copy, Debug, PartialEq, Eq, Hash)]
pub struct LinkData {
    pub left_entity_id: EntityId,
    pub right_entity_id: EntityId,
    pub order: EntityLinkOrder,
}

impl LinkData {
    pub fn new(
        left_entity_id: EntityId,
        right_entity_id: EntityId,
        left_to_right_order: Option<i32>,
        right_to_left_order: Option<i32>,
    ) -> (link: LinkData)
        ensures
            link.left_entity_id == left_entity_id,
            link.right_entity_id == right_entity_id,
            link.order.left_to_right == left_to_right_order,
            link.order.right_to_left == right_to_left_order,
    {
        LinkData {
            left_entity_id,
            right_entity_id,
            order: EntityLinkOrder {
                left_to_right: left_to_right_order,
                right_to_left: right_to_left_order,
            },
        }
    }

    pub fn left_entity_id(&self) -> (id: EntityId)
        ensures
            id == self.left_entity_id,
    {
        self.left_entity_id
    }

    pub fn right_entity_id(&self) -> (id: EntityId)
        ensures
            id == self.right_entity_id,
    {
        self.right_entity_id
    }

    pub fn left_to_right_order(&self) -> (order: Option<i32>)
        ensures
            order == self.order.left_to_right,
    {
        self.order.left_to_right
    }

    pub fn right_to_left_order(&self) -> (order: Option<i32>)
        ensures
            order == self.order.right_to_left,
    {
        self.order.right_to_left
    }
}

/// What the store knows about an edition besides its properties.
#[derive(Debug, PartialEq)]
pub struct EntityMetadata {
    pub edition_id: EntityEditionId,
    pub entity_type_id: VersionedUri,
    pub provenance: ProvenanceMetadata,
    pub archived: bool,
}

impl EntityMetadata {
    pub fn new(
        edition_id: EntityEditionId,
        entity_type_id: VersionedUri,
        provenance: ProvenanceMetadata,
        archived: bool,
    ) -> (metadata: EntityMetadata)
        ensures
            metadata.edition_id == edition_id,
            metadata.entity_type_id == entity_type_id,
            metadata.provenance == provenance,
            metadata.archived == archived,
    {
        EntityMetadata { edition_id, entity_type_id, provenance, archived }
    }

    pub fn edition_id(&self) -> (id: EntityEditionId)
        ensures
            id == self.edition_id,
    {
        self.edition_id
    }

    pub fn entity_type_id(&self) -> (uri: &VersionedUri)
        ensures
            *uri == self.entity_type_id,
    {
        &self.entity_type_id
    }

    pub fn provenance(&self) -> (provenance: ProvenanceMetadata)
        ensures
            provenance == self.provenance,
    {
        self.provenance
    }

    pub fn archived(&self) -> (archived: bool)
        ensures
            archived == self.archived,
    {
        self.archived
    }
}

/// One recorded edition of an entity.
#[derive(Debug, PartialEq)]
pub struct Entity {
    pub properties: EntityProperties,
    pub link_data: Option<LinkData>,
    pub metadata: EntityMetadata,
}

impl Entity {
    pub fn new(
        properties: EntityProperties,
        link_data: Option<LinkData>,
        edition_id: EntityEditionId,
        entity_type_id: VersionedUri,
        provenance: ProvenanceMetadata,
        archived: bool,
    ) -> (entity: Entity)
        ensures
            entity.properties == properties,
            entity.link_data == link_data,
            entity.metadata.edition_id == edition_id,
            entity.metadata.entity_type_id == entity_type_id,
            entity.metadata.provenance == provenance,
            entity.metadata.archived == archived,
    {
        Entity {
            properties,
            link_data,
            metadata: EntityMetadata { edition_id, entity_type_id, provenance, archived },
        }
    }

    pub fn properties(&self) -> (properties: &EntityProperties)
        ensures
            *properties == self.properties,
    {
        &self.properties
    }

    pub fn link_data(&self) -> (link: Option<LinkData>)
        ensures
            link == self.link_data,
    {
        self.link_data
    }

    pub fn metadata(&self) -> (metadata: &EntityMetadata)
        ensures
            *metadata == self.metadata,
    {
        &self.metadata
    }
}

} // verus!
