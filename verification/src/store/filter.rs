//! The questions that the traversal puts to the store.

use crate::identifier::{EntityEditionId, EntityId};
use crate::ontology::{OntologyTypeEditionId, TypeKey};
use crate::subgraph::edges::EdgeDirection;
use vstd::prelude::*;

verus! {

/// A selection of entity editions.
#[derive(Clone, Copy, Debug, PartialEq, Eq, Hash)]
pub enum Filter {
    /// The edition with this identity.
    EntityByEditionId(EntityEditionId),
    /// Every edition of the entity with this identity.
    EntityByEntityId(EntityId),
    /// The links whose left end is the entity of this edition.
    OutgoingLinkBySourceEntityEditionId(EntityEditionId),
    /// The links whose right end is the entity of this edition.
    IncomingLinkBySourceEntityEditionId(EntityEditionId),
    /// The entity at the left end of the link of this edition.
    LeftEntityByEntityEditionId(EntityEditionId),
    /// The entity at the right end of the link of this edition.
    RightEntityByEntityEditionId(EntityEditionId),
}

impl Filter {
    pub fn for_entity_by_edition_id(edition_id: EntityEditionId) -> (filter: Filter)
        ensures
            filter == Filter::EntityByEditionId(edition_id),
    {
        Filter::EntityByEditionId(edition_id)
    }

    pub fn for_entity_by_entity_id(entity_id: EntityId) -> (filter: Filter)
        ensures
            filter == Filter::EntityByEntityId(entity_id),
    {
        Filter::EntityByEntityId(entity_id)
    }

    pub fn for_outgoing_link_by_source_entity_edition_id(edition_id: EntityEditionId) -> (filter:
        Filter)
        ensures
            filter == Filter::OutgoingLinkBySourceEntityEditionId(edition_id),
    {
        Filter::OutgoingLinkBySourceEntityEditionId(edition_id)
    }

    pub fn for_incoming_link_by_source_entity_edition_id(edition_id: EntityEditionId) -> (filter:
        Filter)
        ensures
            filter == Filter::IncomingLinkBySourceEntityEditionId(edition_id),
    {
        Filter::IncomingLinkBySourceEntityEditionId(edition_id)
    }

    pub fn for_left_entity_by_entity_edition_id(edition_id: EntityEditionId) -> (filter: Filter)
        ensures
            filter == Filter::LeftEntityByEntityEditionId(edition_id),
    {
        Filter::LeftEntityByEntityEditionId(edition_id)
    }

    pub fn for_right_entity_by_entity_edition_id(edition_id: EntityEditionId) -> (filter: Filter)
        ensures
            filter == Filter::RightEntityByEntityEditionId(edition_id),
    {
        Filter::RightEntityByEntityEditionId(edition_id)
    }

    /// The selection of the entities that stand in the relation of
    /// `direction` to the entity of `edition_id`. The way into the ontology
    /// selects no entities.
    pub open spec fn related(direction: EdgeDirection, edition_id: EntityEditionId) -> Option<
        Filter,
    > {
        match direction {
            EdgeDirection::IsOfTypeOutgoing => None,
            EdgeDirection::HasLeftEntityIncoming => Some(
                Filter::OutgoingLinkBySourceEntityEditionId(edition_id),
            ),
            EdgeDirection::HasRightEntityIncoming => Some(
                Filter::IncomingLinkBySourceEntityEditionId(edition_id),
            ),
            EdgeDirection::HasLeftEntityOutgoing => Some(
                Filter::LeftEntityByEntityEditionId(edition_id),
            ),
            EdgeDirection::HasRightEntityOutgoing => Some(
                Filter::RightEntityByEntityEditionId(edition_id),
            ),
        }
    }

    pub fn for_direction(direction: EdgeDirection, edition_id: EntityEditionId) -> (filter: Option<
        Filter,
    >)
        ensures
            filter == Filter::related(direction, edition_id),
    {
        match direction {
            EdgeDirection::IsOfTypeOutgoing => None,
            EdgeDirection::HasLeftEntityIncoming => Some(
                Filter::for_outgoing_link_by_source_entity_edition_id(edition_id),
            ),
            EdgeDirection::HasRightEntityIncoming => Some(
                Filter::for_incoming_link_by_source_entity_edition_id(edition_id),
            ),
            EdgeDirection::HasLeftEntityOutgoing => Some(
                Filter::for_left_entity_by_entity_edition_id(edition_id),
            ),
            EdgeDirection::HasRightEntityOutgoing => Some(
                Filter::for_right_entity_by_entity_edition_id(edition_id),
            ),
        }
    }
}

/// One read that the traversal needs before it can go on.
#[derive(Debug, PartialEq, Eq)]
pub enum ReadRequest {
    /// The single entity edition that the filter selects.
    Entity(Filter),
    /// All entity editions that the filter selects.
    Entities(Filter),
    /// The edition of an entity type.
    EntityType(OntologyTypeEditionId),
}

/// What identifies a read in specifications.
pub enum ReadRequestKey {
    Entity(Filter),
    Entities(Filter),
    EntityType(TypeKey),
}

impl View for ReadRequest {
    type V = ReadRequestKey;

    open spec fn view(&self) -> ReadRequestKey {
        match *self {
            ReadRequest::Entity(filter) => ReadRequestKey::Entity(filter),
            ReadRequest::Entities(filter) => ReadRequestKey::Entities(filter),
            ReadRequest::EntityType(id) => ReadRequestKey::EntityType(id@),
        }
    }
}

} // verus!
