//! Identities of ontology types, the records that classify entities.

use crate::collections::Identity;
use crate::provenance::{OwnedById, UpdatedById};
use vstd::prelude::*;

verus! {

/// The address that all versions of one ontology type share.
#[derive(Debug, PartialEq, Eq, Hash)]
pub struct BaseUri {
    pub text: String,
}

impl View for BaseUri {
    type V = Seq<char>;

    open spec fn view(&self) -> Seq<char> {
        self.text@
    }
}

impl BaseUri {
    pub fn new(text: String) -> (uri: BaseUri)
        ensures
            uri.text == text,
    {
        BaseUri { text }
    }

    pub fn as_str(&self) -> (text: &str)
        ensures
            text@ == self@,
    {
        self.text.as_str()
    }
}

impl Clone for BaseUri {
    fn clone(&self) -> (copy: BaseUri)
        ensures
            copy == *self,
    {
        BaseUri { text: self.text.clone() }
    }
}

impl Identity for BaseUri {
    fn same(&self, other: &BaseUri) -> (equal: bool) {
        self.text == other.text
    }
}

/// What identifies one version of an ontology type in specifications: the
/// characters of its base address and its version number.
pub struct TypeKey {
    pub base_uri: Seq<char>,
    pub version: u32,
}

/// The address of one version of an ontology type.
#[derive(Debug, PartialEq, Eq, Hash)]
pub struct VersionedUri {
    pub base_uri: BaseUri,
    pub version: u32,
}

impl View for VersionedUri {
    type V = TypeKey;

    open spec fn view(&self) -> TypeKey {
        TypeKey { base_uri: self.base_uri@, version: self.version }
    }
}

impl VersionedUri {
    pub fn new(base_uri: BaseUri, version: u32) -> (uri: VersionedUri)
        ensures
            uri.base_uri == base_uri,
            uri.version == version,
    {
        VersionedUri { base_uri, version }
    }

    pub fn base_uri(&self) -> (base: &BaseUri)
        ensures
            *base == self.base_uri,
    {
        &self.base_uri
    }

    pub fn version(&self) -> (version: u32)
        ensures
            version == self.version,
    {
        self.version
    }
}

impl Clone for VersionedUri {
    fn clone(&self) -> (copy: VersionedUri)
        ensures
            copy == *self,
    {
        VersionedUri { base_uri: self.base_uri.clone(), version: self.version }
    }
}

impl Identity for VersionedUri {
    fn same(&self, other: &VersionedUri) -> (equal: bool) {
        self.base_uri.same(&other.base_uri) && self.version == other.version
    }
}

/// The identity of one recorded version of an ontology type.
#[derive(Debug, PartialEq, Eq, Hash)]
pub struct OntologyTypeEditionId {
    pub base_id: BaseUri,
    pub version: u32,
}

impl View for OntologyTypeEditionId {
    type V = TypeKey;

    open spec fn view(&self) -> TypeKey {
        TypeKey { base_uri: self.base_id@, version: self.version }
    }
}

impl OntologyTypeEditionId {
    pub fn new(base_id: BaseUri, version: u32) -> (id: OntologyTypeEditionId)
        ensures
            id.base_id == base_id,
            id.version == version,
    {
        OntologyTypeEditionId { base_id, version }
    }

    /// The edition that a versioned address names.
    pub fn from_uri(uri: &VersionedUri) -> (id: OntologyTypeEditionId)
        ensures
            id@ == uri@,
            id.base_id == uri.base_uri,
            id.version == uri.version,
    {
        OntologyTypeEditionId { base_id: uri.base_uri.clone(), version: uri.version }
    }

    pub fn base_id(&self) -> (base: &BaseUri)
        ensures
            *base == self.base_id,
    {
        &self.base_id
    }

    pub fn version(&self) -> (version: u32)
        ensures
            version == self.version,
    {
        self.version
    }
}

impl Clone for OntologyTypeEditionId {
    fn clone(&self) -> (copy: OntologyTypeEditionId)
        ensures
            copy == *self,
    {
        OntologyTypeEditionId { base_id: self.base_id.clone(), version: self.version }
    }
}

impl Identity for OntologyTypeEditionId {
    fn same(&self, other: &OntologyTypeEditionId) -> (equal: bool) {
        self.base_id.same(&other.base_id) && self.version == other.version
    }
}

/// A type of entities: its address and its schema, a JSON document that
/// the library carries and never looks inside.
#[derive(Debug, PartialEq)]
pub struct EntityType {
    pub id: VersionedUri,
    pub schema: serde_json::Value,
}

impl EntityType {
    pub fn new(id: VersionedUri, schema: serde_json::Value) -> (entity_type: EntityType)
        ensures
            entity_type.id == id,
            entity_type.schema == schema,
    {
        EntityType { id, schema }
    }

    pub fn id(&self) -> (id: &VersionedUri)
        ensures
            *id == self.id,
    {
        &self.id
    }

    pub fn schema(&self) -> (schema: &serde_json::Value)
        ensures
            *schema == self.schema,
    {
        &self.schema
    }
}

/// A record of the ontology together with what the store knows about its
/// place among the versions of its type.
#[derive(Debug)]
pub struct OntologyRecord<T> {
    pub record: T,
    pub owned_by_id: OwnedById,
    pub updated_by_id: UpdatedById,
    pub is_latest: bool,
}

} // verus!
