//! The vertices of a result, by the identity of their edition.

use crate::collections::KeyedList;
use crate::identifier::EntityEditionId;
use crate::knowledge::Entity;
use crate::ontology::{EntityType, OntologyRecord, OntologyTypeEditionId, TypeKey};
use vstd::prelude::*;

verus! {

/// A vertex of the knowledge graph.
#[derive(Debug)]
pub enum KnowledgeGraphVertex {
    Entity(Entity),
}

/// A vertex of the ontology.
#[derive(Debug)]
pub enum OntologyVertex {
    EntityType(OntologyRecord<EntityType>),
}

/// The vertices of a result. No identity stands for two vertices.
#[derive(Debug)]
pub struct Vertices {
    knowledge_graph: KeyedList<EntityEditionId, KnowledgeGraphVertex>,
    ontology: KeyedList<OntologyTypeEditionId, OntologyVertex>,
}

impl Vertices {
    /// The vertices of the knowledge graph, by the identity of their edition.
    pub closed spec fn knowledge_graph(&self) -> Map<EntityEditionId, KnowledgeGraphVertex> {
        self.knowledge_graph@
    }

    /// The vertices of the ontology, by what identifies their edition.
    pub closed spec fn ontology(&self) -> Map<TypeKey, OntologyVertex> {
        self.ontology@
    }

    /// The editions that have an entity vertex, in the order in which they
    /// got one.
    pub closed spec fn entity_order(&self) -> Seq<EntityEditionId> {
        self.knowledge_graph.keys()
    }

    /// The type editions that have a vertex, in the order in which they got one.
    pub closed spec fn type_order(&self) -> Seq<TypeKey> {
        self.ontology.keys()
    }

    pub fn new() -> (vertices: Vertices)
        ensures
            vertices.knowledge_graph() == Map::<EntityEditionId, KnowledgeGraphVertex>::empty(),
            vertices.ontology() == Map::<TypeKey, OntologyVertex>::empty(),
            vertices.entity_order() == Seq::<EntityEditionId>::empty(),
            vertices.type_order() == Seq::<TypeKey>::empty(),
    {
        Vertices { knowledge_graph: KeyedList::new(), ontology: KeyedList::new() }
    }

    pub fn contains_entity(&self, edition_id: &EntityEditionId) -> (present: bool)
        ensures
            present == self.knowledge_graph().dom().contains(*edition_id),
    {
        self.knowledge_graph.contains_key(edition_id)
    }

    pub fn entity(&self, edition_id: &EntityEditionId) -> (vertex: Option<&KnowledgeGraphVertex>)
        ensures
            vertex is Some <==> self.knowledge_graph().dom().contains(*edition_id),
            vertex matches Some(found) ==> *found == self.knowledge_graph()[*edition_id],
    {
        self.knowledge_graph.get(edition_id)
    }

    /// Puts `vertex` under `edition_id`, in place of what stood there.
    pub fn insert_entity(&mut self, edition_id: EntityEditionId, vertex: KnowledgeGraphVertex)
        ensures
            final(self).knowledge_graph() == old(self).knowledge_graph().insert(edition_id, vertex),
            final(self).ontology() == old(self).ontology(),
            final(self).type_order() == old(self).type_order(),
            final(self).entity_order() == if old(self).knowledge_graph().dom().contains(
                edition_id,
            ) {
                old(self).entity_order()
            } else {
                old(self).entity_order().push(edition_id)
            },
    {
        self.knowledge_graph.insert(edition_id, vertex);
    }

    /// The number of entity vertices. The editions in their order are
    /// exactly those that have a vertex, each once.
    pub fn entity_count(&self) -> (count: usize)
        ensures
            self.knowledge_graph().dom().finite(),
            count == self.knowledge_graph().dom().len(),
            count == self.entity_order().len(),
            self.entity_order().no_duplicates(),
            forall|id: EntityEditionId|
                self.entity_order().contains(id) <==> self.knowledge_graph().dom().contains(id),
    {
        self.knowledge_graph.len()
    }

    /// The entity vertex at `index` in the order in which the editions got
    /// their vertex, if there are that many.
    pub fn entity_at(&self, index: usize) -> (entry: Option<
        (&EntityEditionId, &KnowledgeGraphVertex),
    >)
        ensures
            entry is Some <==> index < self.entity_order().len(),
            entry matches Some((id, vertex)) ==> *id == self.entity_order()[index as int]
                && self.knowledge_graph().dom().contains(*id) && self.knowledge_graph()[*id]
                == *vertex,
    {
        self.knowledge_graph.entry(index)
    }

    pub fn contains_type(&self, edition_id: &OntologyTypeEditionId) -> (present: bool)
        ensures
            present == self.ontology().dom().contains(edition_id@),
    {
        self.ontology.contains_key(edition_id)
    }

    pub fn ontology_type(&self, edition_id: &OntologyTypeEditionId) -> (vertex: Option<
        &OntologyVertex,
    >)
        ensures
            vertex is Some <==> self.ontology().dom().contains(edition_id@),
            vertex matches Some(found) ==> *found == self.ontology()[edition_id@],
    {
        self.ontology.get(edition_id)
    }

    /// Puts `vertex` under `edition_id`, in place of what stood there.
    pub fn insert_type(&mut self, edition_id: OntologyTypeEditionId, vertex: OntologyVertex)
        ensures
            final(self).ontology() == old(self).ontology().insert(edition_id@, vertex),
            final(self).knowledge_graph() == old(self).knowledge_graph(),
            final(self).entity_order() == old(self).entity_order(),
            final(self).type_order() == if old(self).ontology().dom().contains(edition_id@) {
                old(self).type_order()
            } else {
                old(self).type_order().push(edition_id@)
            },
    {
        self.ontology.insert(edition_id, vertex);
    }

    /// The number of type vertices. The type editions in their order are
    /// exactly those that have a vertex, each once.
    pub fn type_count(&self) -> (count: usize)
        ensures
            self.ontology().dom().finite(),
            count == self.ontology().dom().len(),
            count == self.type_order().len(),
            self.type_order().no_duplicates(),
            forall|key: TypeKey| self.type_order().contains(key) <==> self.ontology().dom().contains(
                key,
            ),
    {
        self.ontology.len()
    }

    /// The type vertex at `index` in the order in which the type editions
    /// got their vertex, if there are that many.
    pub fn type_at(&self, index: usize) -> (entry: Option<(&OntologyTypeEditionId, &OntologyVertex)>)
        ensures
            entry is Some <==> index < self.type_order().len(),
            entry matches Some((id, vertex)) ==> id@ == self.type_order()[index as int]
                && self.ontology().dom().contains(id@) && self.ontology()[id@] == *vertex,
    {
        self.ontology.entry(index)
    }
}

} // verus!
