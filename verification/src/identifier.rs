//! Identities of graph elements and the two time axes of their editions.

use crate::collections::Identity;
use crate::ontology::{OntologyTypeEditionId, TypeKey};
use crate::provenance::OwnedById;
use vstd::prelude::*;

verus! {

/// A point on one of the two time axes, counted in microseconds since the epoch.
#[derive(Clone, Copy, Debug, PartialEq, Eq, Hash)]
pub struct Timestamp {
    pub micros: i64,
}

/// A point in decision time: when a fact is claimed to hold.
pub type DecisionTimestamp = Timestamp;

/// A point in transaction time: when a record was the store's current knowledge.
pub type TransactionTimestamp = Timestamp;

impl Timestamp {
    pub fn new(micros: i64) -> (timestamp: Timestamp)
        ensures
            timestamp.micros == micros,
    {
        Timestamp { micros }
    }

    pub fn micros(&self) -> (micros: i64)
        ensures
            micros == self.micros,
    {
        self.micros
    }

    /// Whether this point lies strictly before `other`.
    pub fn is_before(&self, other: &Timestamp) -> (before: bool)
        ensures
            before == (self.micros < other.micros),
    {
        self.micros < other.micros
    }
}

impl View for Timestamp {
    type V = Timestamp;

    open spec fn view(&self) -> Timestamp {
        *self
    }
}

impl Identity for Timestamp {
    fn same(&self, other: &Timestamp) -> (equal: bool) {
        self.micros == other.micros
    }
}

/// A half-open interval on one time axis: it holds its start and every later
/// point before its end. Without an end it is unbounded.
#[derive(Clone, Copy, Debug, PartialEq, Eq, Hash)]
pub struct Timespan {
    pub start: Timestamp,
    pub end: Option<Timestamp>,
}

/// The interval during which a fact is claimed to hold.
pub type DecisionTimespan = Timespan;

/// The interval during which a record was the store's current knowledge.
pub type TransactionTimespan = Timespan;

impl Timespan {
    pub fn new(start: Timestamp, end: Option<Timestamp>) -> (timespan: Timespan)
        ensures
            timespan.start == start,
            timespan.end == end,
    {
        Timespan { start, end }
    }

    /// The first point of the interval.
    pub fn as_start_bound_timestamp(&self) -> (start: Timestamp)
        ensures
            start == self.start,
    {
        self.start
    }

    /// Whether `at` lies in the interval.
    pub open spec fn holds(self, at: int) -> bool {
        self.start.micros <= at && (self.end matches Some(end) ==> at < end.micros)
    }

    /// Whether some point lies in both intervals.
    pub open spec fn overlaps_spec(self, other: Timespan) -> bool {
        exists|at: int| self.holds(at) && other.holds(at)
    }

    pub fn contains(&self, at: &Timestamp) -> (inside: bool)
        ensures
            inside == self.holds(at.micros as int),
    {
        self.start.micros <= at.micros && match self.end {
            Some(end) => at.micros < end.micros,
            None => true,
        }
    }

    /// Whether the two intervals share a point. Editions of one entity must
    /// not overlap in transaction time.
    pub fn overlaps(&self, other: &Timespan) -> (shared: bool)
        ensures
            shared == self.overlaps_spec(*other),
    {
        let later: i64 = if self.start.micros < other.start.micros {
            other.start.micros
        } else {
            self.start.micros
        };
        let shared = self.contains(&Timestamp { micros: later }) && other.contains(
            &Timestamp { micros: later },
        );
        proof {
            if shared {
                assert(self.holds(later as int) && other.holds(later as int));
            } else {
                assert forall|at: int| !(self.holds(at) && other.holds(at)) by {}
            }
        }
        shared
    }
}

impl View for Timespan {
    type V = Timespan;

    open spec fn view(&self) -> Timespan {
        *self
    }
}

impl Identity for Timespan {
    fn same(&self, other: &Timespan) -> (equal: bool) {
        self.start.micros == other.start.micros && match (self.end, other.end) {
            (Some(a), Some(b)) => a.micros == b.micros,
            (None, None) => true,
            _ => false,
        }
    }
}

/// The identifier that an entity keeps through all its editions, within its owner.
#[derive(Clone, Copy, Debug, PartialEq, Eq, Hash)]
pub struct EntityUuid {
    pub uuid: u128,
}

impl EntityUuid {
    pub fn new(uuid: u128) -> (entity_uuid: EntityUuid)
        ensures
            entity_uuid.uuid == uuid,
    {
        EntityUuid { uuid }
    }

    pub fn as_uuid(&self) -> (uuid: u128)
        ensures
            uuid == self.uuid,
    {
        self.uuid
    }
}

/// The stable identity of an entity across all its editions.
#[derive(Clone, Copy, Debug, PartialEq, Eq, Hash)]
pub struct EntityId {
    pub owned_by_id: OwnedById,
    pub entity_uuid: EntityUuid,
}

impl EntityId {
    pub fn new(owned_by_id: OwnedById, entity_uuid: EntityUuid) -> (id: EntityId)
        ensures
            id.owned_by_id == owned_by_id,
            id.entity_uuid == entity_uuid,
    {
        EntityId { owned_by_id, entity_uuid }
    }

    pub fn owned_by_id(&self) -> (owner: OwnedById)
        ensures
            owner == self.owned_by_id,
    {
        self.owned_by_id
    }

    pub fn entity_uuid(&self) -> (uuid: EntityUuid)
        ensures
            uuid == self.entity_uuid,
    {
        self.entity_uuid
    }
}

impl View for EntityId {
    type V = EntityId;

    open spec fn view(&self) -> EntityId {
        *self
    }
}

impl Identity for EntityId {
    fn same(&self, other: &EntityId) -> (equal: bool) {
        self.owned_by_id.account == other.owned_by_id.account && self.entity_uuid.uuid
            == other.entity_uuid.uuid
    }
}

/// The number that the store issues to each edition it records.
#[derive(Clone, Copy, Debug, PartialEq, Eq, Hash)]
pub struct EntityRecordId {
    pub id: i64,
}

impl EntityRecordId {
    pub fn new(id: i64) -> (record_id: EntityRecordId)
        ensures
            record_id.id == id,
    {
        EntityRecordId { id }
    }

    pub fn as_i64(&self) -> (id: i64)
        ensures
            id == self.id,
    {
        self.id
    }
}

/// The two intervals of an edition, one on each time axis.
#[derive(Clone, Copy, Debug, PartialEq, Eq, Hash)]
pub struct EntityVersion {
    pub decision_time: DecisionTimespan,
    pub transaction_time: TransactionTimespan,
}

impl EntityVersion {
    pub fn new(decision_time: DecisionTimespan, transaction_time: TransactionTimespan) -> (version:
        EntityVersion)
        ensures
            version.decision_time == decision_time,
            version.transaction_time == transaction_time,
    {
        EntityVersion { decision_time, transaction_time }
    }

    pub fn decision_time(&self) -> (span: DecisionTimespan)
        ensures
            span == self.decision_time,
    {
        self.decision_time
    }

    pub fn transaction_time(&self) -> (span: TransactionTimespan)
        ensures
            span == self.transaction_time,
    {
        self.transaction_time
    }
}

/// The identity of one recorded edition of an entity.
#[derive(Clone, Copy, Debug, PartialEq, Eq, Hash)]
pub struct EntityEditionId {
    pub base_id: EntityId,
    pub record_id: EntityRecordId,
    pub version: EntityVersion,
}

impl EntityEditionId {
    pub fn new(base_id: EntityId, record_id: EntityRecordId, version: EntityVersion) -> (id:
        EntityEditionId)
        ensures
            id.base_id == base_id,
            id.record_id == record_id,
            id.version == version,
    {
        EntityEditionId { base_id, record_id, version }
    }

    pub fn base_id(&self) -> (id: EntityId)
        ensures
            id == self.base_id,
    {
        self.base_id
    }

    pub fn record_id(&self) -> (id: EntityRecordId)
        ensures
            id == self.record_id,
    {
        self.record_id
    }

    pub fn version(&self) -> (version: EntityVersion)
        ensures
            version == self.version,
    {
        self.version
    }
}

impl View for EntityEditionId {
    type V = EntityEditionId;

    open spec fn view(&self) -> EntityEditionId {
        *self
    }
}

impl Identity for EntityEditionId {
    fn same(&self, other: &EntityEditionId) -> (equal: bool) {
        self.base_id.same(&other.base_id) && self.record_id.id == other.record_id.id
            && self.version.decision_time.same(&other.version.decision_time)
            && self.version.transaction_time.same(&other.version.transaction_time)
    }
}

/// An entity together with a point in time: the far end of an edge between entities.
#[derive(Clone, Copy, Debug, PartialEq, Eq, Hash)]
pub struct EntityIdAndTimestamp {
    pub base_id: EntityId,
    pub timestamp: Timestamp,
}

impl EntityIdAndTimestamp {
    pub fn new(base_id: EntityId, timestamp: Timestamp) -> (endpoint: EntityIdAndTimestamp)
        ensures
            endpoint.base_id == base_id,
            endpoint.timestamp == timestamp,
    {
        EntityIdAndTimestamp { base_id, timestamp }
    }

    pub fn base_id(&self) -> (id: EntityId)
        ensures
            id == self.base_id,
    {
        self.base_id
    }

    pub fn timestamp(&self) -> (timestamp: Timestamp)
        ensures
            timestamp == self.timestamp,
    {
        self.timestamp
    }
}

/// The identity of an edition of any graph element.
#[derive(Debug, PartialEq, Eq, Hash)]
pub enum GraphElementEditionId {
    Ontology(OntologyTypeEditionId),
    KnowledgeGraph(EntityEditionId),
}

/// What identifies an edition of a graph element in specifications.
pub enum GraphElementKey {
    Ontology(TypeKey),
    KnowledgeGraph(EntityEditionId),
}

impl View for GraphElementEditionId {
    type V = GraphElementKey;

    open spec fn view(&self) -> GraphElementKey {
        match *self {
            GraphElementEditionId::Ontology(id) => GraphElementKey::Ontology(id@),
            GraphElementEditionId::KnowledgeGraph(id) => GraphElementKey::KnowledgeGraph(id),
        }
    }
}

impl Identity for GraphElementEditionId {
    fn same(&self, other: &GraphElementEditionId) -> (equal: bool) {
        match (self, other) {
            (GraphElementEditionId::Ontology(a), GraphElementEditionId::Ontology(b)) => a.same(b),
            (
                GraphElementEditionId::KnowledgeGraph(a),
                GraphElementEditionId::KnowledgeGraph(b),
            ) => a.same(b),
            _ => false,
        }
    }
}

} // verus!
