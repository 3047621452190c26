//! The write path: creating and updating entities.
//!
//! Every write is a short conversation with the store. The library owns the
//! decisions of that conversation and none of its transport: each step here
//! takes what the store answered and returns what to do next, or how the
//! write ended. A step can only be taken with the value that the step
//! before it returned, so no write can be issued out of turn.

use crate::identifier::{
    DecisionTimestamp, EntityEditionId, EntityId, EntityRecordId, EntityUuid, EntityVersion,
    Timespan,
};
use crate::knowledge::{EntityLinkOrder, EntityMetadata, EntityProperties, LinkData};
use crate::ontology::VersionedUri;
use crate::provenance::{OwnedById, ProvenanceMetadata, UpdatedById};
use crate::report::{Context, Report};
use crate::store::error::{
    EntityDoesNotExist, InsertionError, QueryError, RaceConditionOnUpdate, UpdateError,
};
use vstd::prelude::*;
use vstd::string::StringExecFns;

verus! {

/// `serde_json::Error`, the failure of an encoding.
#[verifier::external_type_specification]
#[verifier::external_body]
pub struct ExJsonError(serde_json::Error);

/// The statement that creates an entity. Its parameters are those of
/// [`CreateEntityParameters`], in the order of the fields. It answers with
/// the number of the new edition and the two ends of each of its timespans.
pub const CREATE_ENTITY_STATEMENT: &'static str =
    "SELECT entity_record_id, lower(decision_time), upper(decision_time), lower(transaction_time), upper(transaction_time) FROM create_entity(_owned_by_id := $1, _entity_uuid := $2, _decision_time := $3, _updated_by_id := $4, _archived := $5, _entity_type_version_id := $6, _properties := $7, _left_owned_by_id := $8, _left_entity_uuid := $9, _right_owned_by_id := $10, _right_entity_uuid := $11, _left_to_right_order := $12, _right_to_left_order := $13);";

/// The statement that tells whether an entity has a record. Its parameters
/// are the owner and the identifier of the entity.
pub const ENTITY_EXISTS_STATEMENT: &'static str =
    "SELECT EXISTS (SELECT 1 FROM entity_ids WHERE owned_by_id = $1 AND entity_uuid = $2);";

/// The statement that updates an entity. Its parameters are those of
/// [`UpdateEntityParameters`], in the order of the fields. It answers with
/// the number of the new edition and the two ends of each of its timespans,
/// or with no row if the entity was changed by another writer.
pub const UPDATE_ENTITY_STATEMENT: &'static str =
    "SELECT entity_record_id, lower(decision_time), upper(decision_time), lower(transaction_time), upper(transaction_time) FROM update_entity(_owned_by_id := $1, _entity_uuid := $2, _decision_time := $3, _updated_by_id := $4, _archived := $5, _entity_type_version_id := $6, _properties := $7, _left_to_right_order := $8, _right_to_left_order := $9);";

/// The number under which the store keeps one version of an ontology type.
#[derive(Clone, Copy, Debug, PartialEq, Eq, Hash)]
pub struct VersionId {
    pub id: u128,
}

impl VersionId {
    pub fn new(id: u128) -> (version_id: VersionId)
        ensures
            version_id.id == id,
    {
        VersionId { id }
    }

    pub fn as_uuid(&self) -> (id: u128)
        ensures
            id == self.id,
    {
        self.id
    }
}

/// What the store said when it failed.
#[derive(Debug, PartialEq, Eq)]
pub struct StoreError {
    pub message: String,
}

impl StoreError {
    pub fn new(message: String) -> (error: StoreError)
        ensures
            error.message == message,
    {
        StoreError { message }
    }
}

impl Context for StoreError {
    open spec fn description(&self) -> Seq<char> {
        self.message@
    }

    fn describe(&self) -> (described: String) {
        self.message.clone()
    }
}

/// The row with which the store answers a write.
#[derive(Clone, Copy, Debug, PartialEq, Eq)]
pub struct EntityRow {
    pub entity_record_id: EntityRecordId,
    pub decision_time: Timespan,
    pub transaction_time: Timespan,
}

impl EntityRow {
    pub fn new(entity_record_id: EntityRecordId, decision_time: Timespan, transaction_time: Timespan) -> (row:
        EntityRow)
        ensures
            row.entity_record_id == entity_record_id,
            row.decision_time == decision_time,
            row.transaction_time == transaction_time,
    {
        EntityRow { entity_record_id, decision_time, transaction_time }
    }
}

/// The parameters of the procedure of the store that creates an entity.
#[derive(Debug, PartialEq)]
pub struct CreateEntityParameters {
    pub owned_by_id: OwnedById,
    pub entity_uuid: EntityUuid,
    pub decision_time: Option<DecisionTimestamp>,
    pub updated_by_id: UpdatedById,
    pub archived: bool,
    pub entity_type_version_id: VersionId,
    pub properties: serde_json::Value,
    pub left_owned_by_id: Option<OwnedById>,
    pub left_entity_uuid: Option<EntityUuid>,
    pub right_owned_by_id: Option<OwnedById>,
    pub right_entity_uuid: Option<EntityUuid>,
    pub left_to_right_order: Option<i32>,
    pub right_to_left_order: Option<i32>,
}

/// The parameters of the procedure of the store that updates an entity.
#[derive(Debug, PartialEq)]
pub struct UpdateEntityParameters {
    pub owned_by_id: OwnedById,
    pub entity_uuid: EntityUuid,
    pub decision_time: Option<DecisionTimestamp>,
    pub updated_by_id: UpdatedById,
    pub archived: bool,
    pub entity_type_version_id: VersionId,
    pub properties: serde_json::Value,
    pub left_to_right_order: Option<i32>,
    pub right_to_left_order: Option<i32>,
}

/// Whether `uuid` has the shape of a random identifier: version four of
/// the variant that RFC 9562 describes.
pub open spec fn is_random_uuid(uuid: u128) -> bool {
    (uuid >> 76u128) & 0xfu128 == 4u128 && (uuid >> 62u128) & 0x3u128 == 2u128
}

/// Draws a random identifier with `uuid::Uuid::new_v4` and hands it out as
/// the number that `Uuid::as_u128` gives. All that is claimed of it is its
/// shape, which `new_v4` sets by masking: version four, RFC variant.
#[verifier::external_body]
pub(crate) fn random_uuid() -> (uuid: u128)
    ensures
        is_random_uuid(uuid),
{
    uuid::Uuid::new_v4().as_u128()
}

/// The text of the identifier with the number `uuid`: thirty-two
/// hexadecimal digits in five groups, as the `Display` of `uuid::Uuid`
/// writes them.
pub uninterp spec fn hyphenated(uuid: u128) -> Seq<char>;

/// Writes the identifier with the number `uuid` through `uuid::Uuid::from_u128`
/// and the `Display` of `uuid::Uuid`.
#[verifier::external_body]
fn uuid_text(uuid: u128) -> (text: String)
    ensures
        text@ == hyphenated(uuid),
{
    uuid::Uuid::from_u128(uuid).to_string()
}

/// What `serde_json::to_value` makes of the JSON document `value`: the
/// document as the store takes it, or the failure of the encoding.
pub uninterp spec fn json_of(value: serde_json::Value) -> Result<
    serde_json::Value,
    serde_json::Error,
>;

/// Encodes the properties of an entity for the store with
/// `serde_json::to_value`. All that is claimed is that the outcome depends
/// on the document alone.
#[verifier::external_body]
fn encode_properties(properties: &EntityProperties) -> (encoded: Result<
    serde_json::Value,
    serde_json::Error,
>)
    ensures
        encoded == json_of(properties.value),
{
    serde_json::to_value(&properties.value)
}

/// What the failure `error` of an encoding says of itself, as the `Display`
/// of `serde_json::Error` writes it.
pub uninterp spec fn failure_text(error: serde_json::Error) -> Seq<char>;

/// Writes what a failure of an encoding says of itself, through the
/// `Display` of `serde_json::Error`.
#[verifier::external_body]
fn encoding_failure_text(error: &serde_json::Error) -> (text: String)
    ensures
        text@ == failure_text(*error),
{
    error.to_string()
}

/// The text by which an entity is named in a report: its owner and its
/// identifier, with a percent sign between them.
pub open spec fn entity_id_text(entity_id: EntityId) -> Seq<char> {
    hyphenated(entity_id.owned_by_id.account) + "%"@ + hyphenated(entity_id.entity_uuid.uuid)
}

/// Writes the name of `entity_id` for a report.
pub fn describe_entity_id(entity_id: EntityId) -> (text: String)
    ensures
        text@ == entity_id_text(entity_id),
{
    let mut text = uuid_text(entity_id.owned_by_id.account);
    text.append("%");
    let uuid = uuid_text(entity_id.entity_uuid.uuid);
    text.append(uuid.as_str());
    text
}

/// The metadata of the edition that the store recorded with `row`.
pub open spec fn recorded_metadata(
    entity_id: EntityId,
    row: EntityRow,
    entity_type_id: VersionedUri,
    updated_by_id: UpdatedById,
    archived: bool,
) -> EntityMetadata {
    EntityMetadata {
        edition_id: EntityEditionId {
            base_id: entity_id,
            record_id: row.entity_record_id,
            version: EntityVersion {
                decision_time: row.decision_time,
                transaction_time: row.transaction_time,
            },
        },
        entity_type_id,
        provenance: ProvenanceMetadata { updated_by_id },
        archived,
    }
}

fn metadata_of(
    entity_id: EntityId,
    row: EntityRow,
    entity_type_id: VersionedUri,
    updated_by_id: UpdatedById,
    archived: bool,
) -> (metadata: EntityMetadata)
    ensures
        metadata == recorded_metadata(entity_id, row, entity_type_id, updated_by_id, archived),
{
    EntityMetadata::new(
        EntityEditionId::new(
            entity_id,
            row.entity_record_id,
            EntityVersion::new(row.decision_time, row.transaction_time),
        ),
        entity_type_id,
        ProvenanceMetadata::new(updated_by_id),
        archived,
    )
}

/// The creation of an entity, before the store has been asked anything.
/// The next step is to ask the store under which number it keeps
/// `entity_type_id`, and to hand the answer to [`EntityCreation::parameters`].
#[derive(Debug)]
pub struct EntityCreation {
    pub entity_id: EntityId,
    pub decision_time: Option<DecisionTimestamp>,
    pub updated_by_id: UpdatedById,
    pub archived: bool,
    pub entity_type_id: VersionedUri,
    pub properties: EntityProperties,
    pub link_data: Option<LinkData>,
}

/// The creation of an entity, after the parameters of the write have been
/// handed out. The next step is to call the procedure of the store with
/// them, and to hand the answer to [`PendingCreation::finish`].
#[derive(Debug)]
pub struct PendingCreation {
    pub entity_id: EntityId,
    pub updated_by_id: UpdatedById,
    pub archived: bool,
    pub entity_type_id: VersionedUri,
}

/// Begins the creation of an entity.
///
/// The entity is owned by `owned_by_id`. If `entity_uuid` is given, it is
/// the identifier of the entity; otherwise a random one is drawn.
pub fn create_entity(
    owned_by_id: OwnedById,
    entity_uuid: Option<EntityUuid>,
    decision_time: Option<DecisionTimestamp>,
    updated_by_id: UpdatedById,
    archived: bool,
    entity_type_id: VersionedUri,
    properties: EntityProperties,
    link_data: Option<LinkData>,
) -> (creation: EntityCreation)
    ensures
        creation.entity_id.owned_by_id == owned_by_id,
        match entity_uuid {
            Some(given) => creation.entity_id.entity_uuid == given,
            None => is_random_uuid(creation.entity_id.entity_uuid.uuid),
        },
        creation == (EntityCreation {
            entity_id: creation.entity_id,
            decision_time,
            updated_by_id,
            archived,
            entity_type_id,
            properties,
            link_data,
        }),
{
    let entity_uuid = match entity_uuid {
        Some(given) => given,
        None => EntityUuid::new(random_uuid()),
    };
    EntityCreation {
        entity_id: EntityId::new(owned_by_id, entity_uuid),
        decision_time,
        updated_by_id,
        archived,
        entity_type_id,
        properties,
        link_data,
    }
}

impl EntityCreation {
    /// The parameters with which the entity is created once its type is
    /// known as `version_id` and its properties are encoded as `properties`.
    pub open spec fn parameters_with(
        self,
        version_id: VersionId,
        properties: serde_json::Value,
    ) -> CreateEntityParameters {
        CreateEntityParameters {
            owned_by_id: self.entity_id.owned_by_id,
            entity_uuid: self.entity_id.entity_uuid,
            decision_time: self.decision_time,
            updated_by_id: self.updated_by_id,
            archived: self.archived,
            entity_type_version_id: version_id,
            properties,
            left_owned_by_id: match self.link_data {
                Some(link) => Some(link.left_entity_id.owned_by_id),
                None => None,
            },
            left_entity_uuid: match self.link_data {
                Some(link) => Some(link.left_entity_id.entity_uuid),
                None => None,
            },
            right_owned_by_id: match self.link_data {
                Some(link) => Some(link.right_entity_id.owned_by_id),
                None => None,
            },
            right_entity_uuid: match self.link_data {
                Some(link) => Some(link.right_entity_id.entity_uuid),
                None => None,
            },
            left_to_right_order: match self.link_data {
                Some(link) => link.order.left_to_right,
                None => None,
            },
            right_to_left_order: match self.link_data {
                Some(link) => link.order.right_to_left,
                None => None,
            },
        }
    }

    /// What is kept of the creation while the store writes.
    pub open spec fn pending(self) -> PendingCreation {
        PendingCreation {
            entity_id: self.entity_id,
            updated_by_id: self.updated_by_id,
            archived: self.archived,
            entity_type_id: self.entity_type_id,
        }
    }

    /// Whether `next` is how the creation goes on after its type is known
    /// as `version_id` and the encoding of its properties has ended as
    /// `encoded`: with the parameters of the write, which hold the encoded
    /// properties, or as a failure about which what the failure of the
    /// encoding says of itself is said, and nothing else.
    pub open spec fn goes_on(
        self,
        version_id: VersionId,
        encoded: Result<serde_json::Value, serde_json::Error>,
        next: Result<(PendingCreation, CreateEntityParameters), Report<InsertionError>>,
    ) -> bool {
        match encoded {
            Ok(properties) => next == Ok::<
                (PendingCreation, CreateEntityParameters),
                Report<InsertionError>,
            >((self.pending(), self.parameters_with(version_id, properties))),
            Err(error) => next is Err && next->Err_0.chain() == seq![failure_text(error)],
        }
    }

    /// Takes the encoded properties and returns the parameters of the write.
    ///
    /// With properties that were encoded, the write goes on with exactly
    /// them. With a failure of the encoding, the creation ends as an
    /// insertion failure about which one thing is said: the text of the
    /// failure.
    pub fn with_encoded_properties(
        self,
        version_id: VersionId,
        encoded: Result<serde_json::Value, serde_json::Error>,
    ) -> (next: Result<(PendingCreation, CreateEntityParameters), Report<InsertionError>>)
        ensures
            self.goes_on(version_id, encoded, next),
    {
        match encoded {
            Err(error) => {
                let text = encoding_failure_text(&error);
                let report = Report::new(InsertionError).attach(text);
                assert(report.chain() =~= seq![failure_text(error)]);
                Err(report)
            },
            Ok(properties) => {
                let parameters = CreateEntityParameters {
                    owned_by_id: self.entity_id.owned_by_id,
                    entity_uuid: self.entity_id.entity_uuid,
                    decision_time: self.decision_time,
                    updated_by_id: self.updated_by_id,
                    archived: self.archived,
                    entity_type_version_id: version_id,
                    properties,
                    left_owned_by_id: match self.link_data {
                        Some(link) => Some(link.left_entity_id.owned_by_id),
                        None => None,
                    },
                    left_entity_uuid: match self.link_data {
                        Some(link) => Some(link.left_entity_id.entity_uuid),
                        None => None,
                    },
                    right_owned_by_id: match self.link_data {
                        Some(link) => Some(link.right_entity_id.owned_by_id),
                        None => None,
                    },
                    right_entity_uuid: match self.link_data {
                        Some(link) => Some(link.right_entity_id.entity_uuid),
                        None => None,
                    },
                    left_to_right_order: match self.link_data {
                        Some(link) => link.order.left_to_right,
                        None => None,
                    },
                    right_to_left_order: match self.link_data {
                        Some(link) => link.order.right_to_left,
                        None => None,
                    },
                };
                let pending = PendingCreation {
                    entity_id: self.entity_id,
                    updated_by_id: self.updated_by_id,
                    archived: self.archived,
                    entity_type_id: self.entity_type_id,
                };
                Ok((pending, parameters))
            },
        }
    }

    /// Takes the answer of the store to the question under which number it
    /// keeps the type of the entity, and returns the parameters of the write.
    ///
    /// If the type could not be resolved, the creation ends as an insertion
    /// failure that keeps everything that was said about the failed
    /// resolution. Otherwise the properties are encoded, and the creation
    /// goes on as [`EntityCreation::with_encoded_properties`] says.
    pub fn parameters(self, resolved: Result<VersionId, Report<QueryError>>) -> (next: Result<
        (PendingCreation, CreateEntityParameters),
        Report<InsertionError>,
    >)
        ensures
            match resolved {
                Err(report) => next is Err && next->Err_0.chain() == report.chain().push(
                    QueryError.description(),
                ),
                Ok(version_id) => self.goes_on(version_id, json_of(self.properties.value), next),
            },
    {
        match resolved {
            Err(report) => Err(report.change_context(InsertionError)),
            Ok(version_id) => {
                let encoded = encode_properties(&self.properties);
                self.with_encoded_properties(version_id, encoded)
            },
        }
    }
}

impl PendingCreation {
    /// Takes the answer of the store to the write and ends the creation.
    ///
    /// With a row, the entity was created, and its metadata is made of the
    /// row and of what was asked for. With a failure, the creation ends as
    /// an insertion failure about which what the store said is kept.
    pub fn finish(self, row: Result<EntityRow, StoreError>) -> (created: Result<
        EntityMetadata,
        Report<InsertionError>,
    >)
        ensures
            match row {
                Ok(row) => created == Ok::<EntityMetadata, Report<InsertionError>>(
                    recorded_metadata(
                        self.entity_id,
                        row,
                        self.entity_type_id,
                        self.updated_by_id,
                        self.archived,
                    ),
                ),
                Err(error) => created is Err && created->Err_0.chain() == seq![error.message@],
            },
    {
        match row {
            Err(error) => {
                let report = Report::new(error).change_context(InsertionError);
                assert(report.chain() =~= seq![error.message@]);
                Err(report)
            },
            Ok(row) => Ok(
                metadata_of(
                    self.entity_id,
                    row,
                    self.entity_type_id,
                    self.updated_by_id,
                    self.archived,
                ),
            ),
        }
    }
}

/// The update of an entity, before the store has been asked anything. The
/// next step is to ask the store under which number it keeps
/// `entity_type_id`, and to hand the answer to [`EntityUpdate::prepare`].
#[derive(Debug)]
pub struct EntityUpdate {
    pub entity_id: EntityId,
    pub decision_time: Option<DecisionTimestamp>,
    pub updated_by_id: UpdatedById,
    pub archived: bool,
    pub entity_type_id: VersionedUri,
    pub properties: EntityProperties,
    pub link_order: EntityLinkOrder,
}

/// What is kept of an update from one step to the next.
#[derive(Debug)]
pub struct UpdateTicket {
    pub entity_id: EntityId,
    pub updated_by_id: UpdatedById,
    pub archived: bool,
    pub entity_type_id: VersionedUri,
}

/// The update of an entity whose type is resolved and whose properties are
/// encoded. The next step is to open a transaction, and to hand the outcome
/// to [`PreparedUpdate::transaction_opened`].
#[derive(Debug)]
pub struct PreparedUpdate {
    pub ticket: UpdateTicket,
    pub parameters: UpdateEntityParameters,
}

/// The update of an entity inside its transaction, before anything was
/// written. The next step is to ask the store whether the entity of
/// `ticket.entity_id` has a record, and to hand the answer to
/// [`ExistenceCheck::checked`].
#[derive(Debug)]
pub struct ExistenceCheck {
    pub ticket: UpdateTicket,
    pub parameters: UpdateEntityParameters,
}

/// The update of an entity that exists, after the parameters of the write
/// have been handed out. The next step is to call the procedure of the
/// store with them, and to hand the answer to [`PendingUpdate::updated`].
#[derive(Debug)]
pub struct PendingUpdate {
    pub ticket: UpdateTicket,
}

/// The update of an entity that the store has written and not committed.
/// The next step is to commit the transaction, and to hand the outcome to
/// [`PendingCommit::committed`].
#[derive(Debug)]
pub struct PendingCommit {
    pub metadata: EntityMetadata,
}

/// What is said about an update that found no entity, or lost a race:
/// which entity it was, and which of the two happened.
pub open spec fn rejected_chain(entity_id: EntityId, reason: Seq<char>) -> Seq<Seq<char>> {
    seq![entity_id_text(entity_id), reason]
}

/// The failure of an update for the reason `reason`, which names the entity.
fn rejected<C: Context>(entity_id: EntityId, reason: C) -> (report: Report<UpdateError>)
    ensures
        report.chain() == rejected_chain(entity_id, reason.description()),
{
    let report = Report::new(reason).attach(describe_entity_id(entity_id)).change_context(
        UpdateError,
    );
    assert(report.chain() =~= rejected_chain(entity_id, reason.description()));
    report
}

/// The failure of an update because of what the store said.
fn store_failure(error: StoreError) -> (report: Report<UpdateError>)
    ensures
        report.chain() == seq![error.message@],
{
    let report = Report::new(error).change_context(UpdateError);
    assert(report.chain() =~= seq![error.message@]);
    report
}

/// Begins the update of the entity `entity_id`.
pub fn update_entity(
    entity_id: EntityId,
    decision_time: Option<DecisionTimestamp>,
    updated_by_id: UpdatedById,
    archived: bool,
    entity_type_id: VersionedUri,
    properties: EntityProperties,
    link_order: EntityLinkOrder,
) -> (update: EntityUpdate)
    ensures
        update == (EntityUpdate {
            entity_id,
            decision_time,
            updated_by_id,
            archived,
            entity_type_id,
            properties,
            link_order,
        }),
{
    EntityUpdate {
        entity_id,
        decision_time,
        updated_by_id,
        archived,
        entity_type_id,
        properties,
        link_order,
    }
}

impl EntityUpdate {
    /// The parameters with which the entity is updated once its type is
    /// known as `version_id` and its properties are encoded as `properties`.
    pub open spec fn parameters_with(
        self,
        version_id: VersionId,
        properties: serde_json::Value,
    ) -> UpdateEntityParameters {
        UpdateEntityParameters {
            owned_by_id: self.entity_id.owned_by_id,
            entity_uuid: self.entity_id.entity_uuid,
            decision_time: self.decision_time,
            updated_by_id: self.updated_by_id,
            archived: self.archived,
            entity_type_version_id: version_id,
            properties,
            left_to_right_order: self.link_order.left_to_right,
            right_to_left_order: self.link_order.right_to_left,
        }
    }

    /// What is kept of the update from one step to the next.
    pub open spec fn ticket(self) -> UpdateTicket {
        UpdateTicket {
            entity_id: self.entity_id,
            updated_by_id: self.updated_by_id,
            archived: self.archived,
            entity_type_id: self.entity_type_id,
        }
    }

    /// Whether `next` is how the update goes on after its type is known as
    /// `version_id` and the encoding of its properties has ended as
    /// `encoded`: ready to be written with the encoded properties, or as a
    /// failure about which what the failure of the encoding says of itself
    /// is said, and nothing else.
    pub open spec fn goes_on(
        self,
        version_id: VersionId,
        encoded: Result<serde_json::Value, serde_json::Error>,
        next: Result<PreparedUpdate, Report<UpdateError>>,
    ) -> bool {
        match encoded {
            Ok(properties) => next == Ok::<PreparedUpdate, Report<UpdateError>>(
                PreparedUpdate {
                    ticket: self.ticket(),
                    parameters: self.parameters_with(version_id, properties),
                },
            ),
            Err(error) => next is Err && next->Err_0.chain() == seq![failure_text(error)],
        }
    }

    /// Takes the encoded properties and readies the update.
    ///
    /// With properties that were encoded, the update goes on with exactly
    /// them. With a failure of the encoding, the update ends as an update
    /// failure about which one thing is said: the text of the failure.
    pub fn with_encoded_properties(
        self,
        version_id: VersionId,
        encoded: Result<serde_json::Value, serde_json::Error>,
    ) -> (next: Result<PreparedUpdate, Report<UpdateError>>)
        ensures
            self.goes_on(version_id, encoded, next),
    {
        match encoded {
            Err(error) => {
                let text = encoding_failure_text(&error);
                let report = Report::new(UpdateError).attach(text);
                assert(report.chain() =~= seq![failure_text(error)]);
                Err(report)
            },
            Ok(properties) => Ok(
                PreparedUpdate {
                    ticket: UpdateTicket {
                        entity_id: self.entity_id,
                        updated_by_id: self.updated_by_id,
                        archived: self.archived,
                        entity_type_id: self.entity_type_id,
                    },
                    parameters: UpdateEntityParameters {
                        owned_by_id: self.entity_id.owned_by_id,
                        entity_uuid: self.entity_id.entity_uuid,
                        decision_time: self.decision_time,
                        updated_by_id: self.updated_by_id,
                        archived: self.archived,
                        entity_type_version_id: version_id,
                        properties,
                        left_to_right_order: self.link_order.left_to_right,
                        right_to_left_order: self.link_order.right_to_left,
                    },
                },
            ),
        }
    }

    /// Takes the answer of the store to the question under which number it
    /// keeps the type of the entity, and readies the update.
    ///
    /// If the type could not be resolved, the update ends as an update
    /// failure that keeps everything that was said about the failed
    /// resolution. Otherwise the properties are encoded, and the update
    /// goes on as [`EntityUpdate::with_encoded_properties`] says.
    pub fn prepare(self, resolved: Result<VersionId, Report<QueryError>>) -> (next: Result<
        PreparedUpdate,
        Report<UpdateError>,
    >)
        ensures
            match resolved {
                Err(report) => next is Err && next->Err_0.chain() == report.chain().push(
                    QueryError.description(),
                ),
                Ok(version_id) => self.goes_on(version_id, json_of(self.properties.value), next),
            },
    {
        match resolved {
            Err(report) => Err(report.change_context(UpdateError)),
            Ok(version_id) => {
                let encoded = encode_properties(&self.properties);
                self.with_encoded_properties(version_id, encoded)
            },
        }
    }
}

impl PreparedUpdate {
    /// Takes the outcome of opening a transaction.
    ///
    /// In an open transaction the update goes on to check that the entity
    /// exists. If none could be opened, the update ends as an update failure
    /// about which what the store said is kept.
    pub fn transaction_opened(self, opened: Result<(), StoreError>) -> (next: Result<
        ExistenceCheck,
        Report<UpdateError>,
    >)
        ensures
            match opened {
                Ok(_) => next == Ok::<ExistenceCheck, Report<UpdateError>>(
                    ExistenceCheck { ticket: self.ticket, parameters: self.parameters },
                ),
                Err(error) => next is Err && next->Err_0.chain() == seq![error.message@],
            },
    {
        match opened {
            Err(error) => Err(store_failure(error)),
            Ok(_) => Ok(ExistenceCheck { ticket: self.ticket, parameters: self.parameters }),
        }
    }
}

impl ExistenceCheck {
    /// Takes the answer of the store to the question whether the entity has
    /// a record, and hands out the parameters of the write.
    ///
    /// The parameters are handed out if and only if the entity exists. If it
    /// does not, the update ends as an update failure that says so and names
    /// the entity; nothing is written and the transaction is not committed.
    /// If the question failed, what the store said is kept.
    pub fn checked(self, present: Result<bool, StoreError>) -> (next: Result<
        (PendingUpdate, UpdateEntityParameters),
        Report<UpdateError>,
    >)
        ensures
            next is Ok <==> present == Ok::<bool, StoreError>(true),
            match present {
                Ok(true) => next == Ok::<
                    (PendingUpdate, UpdateEntityParameters),
                    Report<UpdateError>,
                >((PendingUpdate { ticket: self.ticket }, self.parameters)),
                Ok(false) => next is Err && next->Err_0.chain() == rejected_chain(
                    self.ticket.entity_id,
                    EntityDoesNotExist.description(),
                ),
                Err(error) => next is Err && next->Err_0.chain() == seq![error.message@],
            },
    {
        match present {
            Err(error) => Err(store_failure(error)),
            Ok(false) => Err(rejected(self.ticket.entity_id, EntityDoesNotExist)),
            Ok(true) => Ok((PendingUpdate { ticket: self.ticket }, self.parameters)),
        }
    }
}

impl PendingUpdate {
    /// Takes the answer of the store to the write.
    ///
    /// With a row, the edition was written and the update goes on to commit
    /// it. Without a row, another writer changed the entity after the check
    /// that it exists: the update ends as an update failure that says so and
    /// names the entity, and the transaction is not committed. If the write
    /// failed, what the store said is kept.
    pub fn updated(self, row: Result<Option<EntityRow>, StoreError>) -> (next: Result<
        PendingCommit,
        Report<UpdateError>,
    >)
        ensures
            next is Ok <==> (row is Ok && row->Ok_0 is Some),
            match row {
                Ok(Some(row)) => next == Ok::<PendingCommit, Report<UpdateError>>(
                    PendingCommit {
                        metadata: recorded_metadata(
                            self.ticket.entity_id,
                            row,
                            self.ticket.entity_type_id,
                            self.ticket.updated_by_id,
                            self.ticket.archived,
                        ),
                    },
                ),
                Ok(None) => next is Err && next->Err_0.chain() == rejected_chain(
                    self.ticket.entity_id,
                    RaceConditionOnUpdate.description(),
                ),
                Err(error) => next is Err && next->Err_0.chain() == seq![error.message@],
            },
    {
        match row {
            Err(error) => Err(store_failure(error)),
            Ok(None) => Err(rejected(self.ticket.entity_id, RaceConditionOnUpdate)),
            Ok(Some(row)) => Ok(
                PendingCommit {
                    metadata: metadata_of(
                        self.ticket.entity_id,
                        row,
                        self.ticket.entity_type_id,
                        self.ticket.updated_by_id,
                        self.ticket.archived,
                    ),
                },
            ),
        }
    }
}

impl PendingCommit {
    /// Takes the outcome of the commit and ends the update.
    ///
    /// After a commit the update has succeeded, and the metadata of the new
    /// edition is returned. If the commit failed, the update ends as an
    /// update failure about which what the store said is kept.
    pub fn committed(self, outcome: Result<(), StoreError>) -> (updated: Result<
        EntityMetadata,
        Report<UpdateError>,
    >)
        ensures
            match outcome {
                Ok(_) => updated == Ok::<EntityMetadata, Report<UpdateError>>(self.metadata),
                Err(error) => updated is Err && updated->Err_0.chain() == seq![error.message@],
            },
    {
        match outcome {
            Err(error) => Err(store_failure(error)),
            Ok(_) => Ok(self.metadata),
        }
    }
}

} // verus!
