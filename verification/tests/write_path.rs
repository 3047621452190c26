use graph::identifier::{
    EntityEditionId, EntityId, EntityRecordId, EntityUuid, EntityVersion, Timespan, Timestamp,
};
use graph::knowledge::{Entity, EntityLinkOrder, EntityMetadata, EntityProperties, LinkData};
use graph::ontology::{BaseUri, VersionedUri};
use graph::provenance::{OwnedById, ProvenanceMetadata, UpdatedById};
use graph::report::{Context, Report};
use graph::store::entity::{
    create_entity, describe_entity_id, update_entity, CreateEntityParameters, EntityRow,
    StoreError, UpdateEntityParameters, VersionId, CREATE_ENTITY_STATEMENT,
    ENTITY_EXISTS_STATEMENT, UPDATE_ENTITY_STATEMENT,
};
use graph::store::error::{
    EntityDoesNotExist, InsertionError, QueryError, RaceConditionOnUpdate, UpdateError,
};
use graph::store::traversal::Traversal;
use graph::subgraph::edges::GraphResolveDepths;
use graph::subgraph::vertices::KnowledgeGraphVertex;

fn person() -> VersionedUri {
    VersionedUri::new(BaseUri::new("https://example.com/types/person/".to_string()), 3)
}

fn properties(name: &str) -> serde_json::Value {
    let mut object = serde_json::Map::new();
    object.insert(
        "https://example.com/properties/name/".to_string(),
        serde_json::Value::String(name.to_string()),
    );
    serde_json::Value::Object(object)
}

fn row(record: i64, decided: i64, recorded: i64) -> EntityRow {
    EntityRow::new(
        EntityRecordId::new(record),
        Timespan::new(Timestamp::new(decided), None),
        Timespan::new(Timestamp::new(recorded), None),
    )
}

fn alice() -> EntityId {
    EntityId::new(OwnedById::new(0xA), EntityUuid::new(0xB))
}

fn is_random(uuid: u128) -> bool {
    (uuid >> 76) & 0xf == 4 && (uuid >> 62) & 0x3 == 2
}

#[test]
fn create_keeps_a_given_identifier() {
    let creation = create_entity(
        OwnedById::new(5),
        Some(EntityUuid::new(0x1234)),
        Some(Timestamp::new(77)),
        UpdatedById::new(6),
        true,
        person(),
        EntityProperties::new(properties("Alice")),
        None,
    );
    assert_eq!(creation.entity_id, EntityId::new(OwnedById::new(5), EntityUuid::new(0x1234)));
    assert_eq!(creation.decision_time, Some(Timestamp::new(77)));
    assert_eq!(creation.updated_by_id, UpdatedById::new(6));
    assert!(creation.archived);
    assert_eq!(creation.entity_type_id, person());
    assert_eq!(creation.properties, EntityProperties::new(properties("Alice")));
    assert_eq!(creation.link_data, None);
}

#[test]
fn create_draws_a_random_identifier() {
    let make = || {
        create_entity(
            OwnedById::new(5),
            None,
            None,
            UpdatedById::new(6),
            false,
            person(),
            EntityProperties::new(properties("Alice")),
            None,
        )
    };
    let first = make().entity_id;
    let second = make().entity_id;
    assert_eq!(first.owned_by_id(), OwnedById::new(5));
    assert!(is_random(first.entity_uuid().as_uuid()));
    assert!(is_random(second.entity_uuid().as_uuid()));
    assert_ne!(first, second);
}

#[test]
fn create_hands_out_the_parameters_of_the_procedure() {
    let link = LinkData::new(
        EntityId::new(OwnedById::new(1), EntityUuid::new(2)),
        EntityId::new(OwnedById::new(3), EntityUuid::new(4)),
        Some(10),
        None,
    );
    let creation = create_entity(
        OwnedById::new(5),
        Some(EntityUuid::new(9)),
        Some(Timestamp::new(77)),
        UpdatedById::new(6),
        false,
        person(),
        EntityProperties::new(properties("Alice")),
        Some(link),
    );
    let (pending, parameters) = creation.parameters(Ok(VersionId::new(42))).unwrap();
    assert_eq!(
        parameters,
        CreateEntityParameters {
            owned_by_id: OwnedById::new(5),
            entity_uuid: EntityUuid::new(9),
            decision_time: Some(Timestamp::new(77)),
            updated_by_id: UpdatedById::new(6),
            archived: false,
            entity_type_version_id: VersionId::new(42),
            properties: properties("Alice"),
            left_owned_by_id: Some(OwnedById::new(1)),
            left_entity_uuid: Some(EntityUuid::new(2)),
            right_owned_by_id: Some(OwnedById::new(3)),
            right_entity_uuid: Some(EntityUuid::new(4)),
            left_to_right_order: Some(10),
            right_to_left_order: None,
        }
    );
    assert_eq!(pending.entity_id, EntityId::new(OwnedById::new(5), EntityUuid::new(9)));
    assert_eq!(pending.entity_type_id, person());
}

#[test]
fn create_without_link_has_no_ends() {
    let creation = create_entity(
        OwnedById::new(5),
        Some(EntityUuid::new(9)),
        None,
        UpdatedById::new(6),
        false,
        person(),
        EntityProperties::new(serde_json::Value::Null),
        None,
    );
    let (_, parameters) = creation.parameters(Ok(VersionId::new(1))).unwrap();
    assert_eq!(parameters.left_owned_by_id, None);
    assert_eq!(parameters.left_entity_uuid, None);
    assert_eq!(parameters.right_owned_by_id, None);
    assert_eq!(parameters.right_entity_uuid, None);
    assert_eq!(parameters.left_to_right_order, None);
    assert_eq!(parameters.right_to_left_order, None);
    assert_eq!(parameters.decision_time, None);
    assert_eq!(parameters.properties, serde_json::Value::Null);
}

#[test]
fn create_returns_the_metadata_of_the_new_edition() {
    let creation = create_entity(
        OwnedById::new(5),
        Some(EntityUuid::new(9)),
        None,
        UpdatedById::new(6),
        true,
        person(),
        EntityProperties::new(properties("Alice")),
        None,
    );
    let (pending, _) = creation.parameters(Ok(VersionId::new(42))).unwrap();
    let metadata = pending.finish(Ok(row(17, 1000, 2000))).unwrap();
    assert_eq!(
        metadata,
        EntityMetadata::new(
            EntityEditionId::new(
                EntityId::new(OwnedById::new(5), EntityUuid::new(9)),
                EntityRecordId::new(17),
                EntityVersion::new(
                    Timespan::new(Timestamp::new(1000), None),
                    Timespan::new(Timestamp::new(2000), None),
                ),
            ),
            person(),
            ProvenanceMetadata::new(UpdatedById::new(6)),
            true,
        )
    );
}

#[test]
fn create_fails_for_an_unknown_type() {
    let creation = create_entity(
        OwnedById::new(5),
        None,
        None,
        UpdatedById::new(6),
        false,
        person(),
        EntityProperties::new(properties("Alice")),
        None,
    );
    let unknown = Report::new(QueryError).attach("no such type".to_string());
    let report = creation.parameters(Err(unknown)).unwrap_err();
    assert_eq!(*report.current_context(), InsertionError);
    assert_eq!(
        report.frames(),
        &vec!["no such type".to_string(), "could not query the store".to_string()]
    );
}

#[test]
fn create_fails_when_the_properties_cannot_be_encoded() {
    let creation = create_entity(
        OwnedById::new(5),
        None,
        None,
        UpdatedById::new(6),
        false,
        person(),
        EntityProperties::new(properties("Alice")),
        None,
    );
    let failure = serde_json::from_str::<serde_json::Value>("{").unwrap_err();
    let text = failure.to_string();
    let report = creation.with_encoded_properties(VersionId::new(1), Err(failure)).unwrap_err();
    assert_eq!(*report.current_context(), InsertionError);
    assert_eq!(report.frames(), &vec![text]);
}

#[test]
fn create_goes_on_with_the_encoded_properties() {
    let creation = create_entity(
        OwnedById::new(5),
        Some(EntityUuid::new(1)),
        None,
        UpdatedById::new(6),
        false,
        person(),
        EntityProperties::new(properties("Alice")),
        None,
    );
    let (_, parameters) =
        creation.with_encoded_properties(VersionId::new(1), Ok(properties("Bob"))).unwrap();
    assert_eq!(parameters.properties, properties("Bob"));
}

#[test]
fn create_fails_when_the_store_refuses() {
    let creation = create_entity(
        OwnedById::new(5),
        None,
        None,
        UpdatedById::new(6),
        false,
        person(),
        EntityProperties::new(properties("Alice")),
        None,
    );
    let (pending, _) = creation.parameters(Ok(VersionId::new(42))).unwrap();
    let report = pending.finish(Err(StoreError::new("unique violation".to_string()))).unwrap_err();
    assert_eq!(*report.current_context(), InsertionError);
    assert_eq!(report.frames(), &vec!["unique violation".to_string()]);
}

fn begin_update(entity_id: EntityId, name: &str) -> graph::store::entity::EntityUpdate {
    update_entity(
        entity_id,
        Some(Timestamp::new(5)),
        UpdatedById::new(6),
        false,
        person(),
        EntityProperties::new(properties(name)),
        EntityLinkOrder::new(Some(1), Some(2)),
    )
}

#[test]
fn update_hands_out_the_parameters_of_the_procedure() {
    let update = begin_update(alice(), "Alice");
    assert_eq!(update.entity_id, alice());
    let prepared = update.prepare(Ok(VersionId::new(42))).unwrap();
    let check = prepared.transaction_opened(Ok(())).unwrap();
    assert_eq!(check.ticket.entity_id, alice());
    let (_, parameters) = check.checked(Ok(true)).unwrap();
    assert_eq!(
        parameters,
        UpdateEntityParameters {
            owned_by_id: OwnedById::new(0xA),
            entity_uuid: EntityUuid::new(0xB),
            decision_time: Some(Timestamp::new(5)),
            updated_by_id: UpdatedById::new(6),
            archived: false,
            entity_type_version_id: VersionId::new(42),
            properties: properties("Alice"),
            left_to_right_order: Some(1),
            right_to_left_order: Some(2),
        }
    );
}

#[test]
fn update_returns_the_metadata_of_the_new_edition() {
    let prepared = begin_update(alice(), "Alice").prepare(Ok(VersionId::new(42))).unwrap();
    let (pending, _) = prepared.transaction_opened(Ok(())).unwrap().checked(Ok(true)).unwrap();
    let commit = pending.updated(Ok(Some(row(8, 100, 200)))).unwrap();
    let metadata = commit.committed(Ok(())).unwrap();
    assert_eq!(
        metadata,
        EntityMetadata::new(
            EntityEditionId::new(
                alice(),
                EntityRecordId::new(8),
                EntityVersion::new(
                    Timespan::new(Timestamp::new(100), None),
                    Timespan::new(Timestamp::new(200), None),
                ),
            ),
            person(),
            ProvenanceMetadata::new(UpdatedById::new(6)),
            false,
        )
    );
}

#[test]
fn update_of_a_missing_entity_fails_and_writes_nothing() {
    let prepared = begin_update(alice(), "Alice").prepare(Ok(VersionId::new(42))).unwrap();
    let check = prepared.transaction_opened(Ok(())).unwrap();
    // No parameters are handed out, so there is nothing to call the procedure with.
    let report = check.checked(Ok(false)).unwrap_err();
    assert_eq!(*report.current_context(), UpdateError);
    assert!(report.mentions(&EntityDoesNotExist.describe()));
    assert!(!report.mentions(&RaceConditionOnUpdate.describe()));
    assert_eq!(
        report.frames(),
        &vec![
            "00000000-0000-0000-0000-00000000000a%00000000-0000-0000-0000-00000000000b".to_string(),
            "entity does not exist".to_string(),
        ]
    );
}

#[test]
fn update_without_a_row_is_a_lost_race() {
    let prepared = begin_update(alice(), "Alice").prepare(Ok(VersionId::new(42))).unwrap();
    let (pending, _) = prepared.transaction_opened(Ok(())).unwrap().checked(Ok(true)).unwrap();
    let report = pending.updated(Ok(None)).unwrap_err();
    assert_eq!(*report.current_context(), UpdateError);
    assert!(report.mentions(&RaceConditionOnUpdate.describe()));
    assert!(!report.mentions(&EntityDoesNotExist.describe()));
    assert_eq!(report.frames().len(), 2);
    assert_eq!(report.frames()[0], describe_entity_id(alice()));
}

#[test]
fn update_fails_for_an_unknown_type() {
    let unknown = Report::new(QueryError).attach("no such type".to_string());
    let report = begin_update(alice(), "Alice").prepare(Err(unknown)).unwrap_err();
    assert_eq!(
        report.frames(),
        &vec!["no such type".to_string(), "could not query the store".to_string()]
    );
}

#[test]
fn update_fails_when_the_properties_cannot_be_encoded() {
    let failure = serde_json::from_str::<serde_json::Value>("[").unwrap_err();
    let text = failure.to_string();
    let report = begin_update(alice(), "Alice")
        .with_encoded_properties(VersionId::new(1), Err(failure))
        .unwrap_err();
    assert_eq!(report.frames(), &vec![text]);
}

#[test]
fn update_fails_with_what_the_store_said() {
    let failure = |text: &str| StoreError::new(text.to_string());
    let prepared = || begin_update(alice(), "Alice").prepare(Ok(VersionId::new(42))).unwrap();

    let report = prepared().transaction_opened(Err(failure("no connection"))).unwrap_err();
    assert_eq!(report.frames(), &vec!["no connection".to_string()]);

    let check = prepared().transaction_opened(Ok(())).unwrap();
    let report = check.checked(Err(failure("timeout"))).unwrap_err();
    assert_eq!(report.frames(), &vec!["timeout".to_string()]);

    let (pending, _) = prepared().transaction_opened(Ok(())).unwrap().checked(Ok(true)).unwrap();
    let report = pending.updated(Err(failure("deadlock"))).unwrap_err();
    assert_eq!(report.frames(), &vec!["deadlock".to_string()]);

    let (pending, _) = prepared().transaction_opened(Ok(())).unwrap().checked(Ok(true)).unwrap();
    let commit = pending.updated(Ok(Some(row(8, 100, 200)))).unwrap();
    let report = commit.committed(Err(failure("disk full"))).unwrap_err();
    assert_eq!(report.frames(), &vec!["disk full".to_string()]);
    assert!(!report.mentions(&RaceConditionOnUpdate.describe()));
}

/// A store with one table of editions. A transaction sees the table as it
/// was when the transaction began; the update procedure returns no row when
/// the entity has changed since.
struct Table {
    editions: Vec<(EntityId, i64, serde_json::Value)>,
    next_record: i64,
}

struct Transaction {
    seen: Option<i64>,
}

impl Table {
    fn latest(&self, entity_id: EntityId) -> Option<i64> {
        self.editions.iter().filter(|e| e.0 == entity_id).map(|e| e.1).max()
    }

    fn begin(&self, entity_id: EntityId) -> Transaction {
        Transaction { seen: self.latest(entity_id) }
    }

    fn create(&mut self, parameters: CreateEntityParameters) -> EntityRow {
        let record = self.next_record;
        self.next_record += 1;
        let entity_id = EntityId::new(parameters.owned_by_id, parameters.entity_uuid);
        self.editions.push((entity_id, record, parameters.properties));
        row(record, record * 10, record * 10 + 1)
    }

    fn update(
        &mut self,
        transaction: &Transaction,
        parameters: UpdateEntityParameters,
    ) -> Option<EntityRow> {
        let entity_id = EntityId::new(parameters.owned_by_id, parameters.entity_uuid);
        if self.latest(entity_id) != transaction.seen {
            return None;
        }
        let record = self.next_record;
        self.next_record += 1;
        self.editions.push((entity_id, record, parameters.properties));
        Some(row(record, record * 10, record * 10 + 1))
    }
}

fn created(table: &mut Table, uuid: u128, name: &str) -> EntityMetadata {
    let creation = create_entity(
        OwnedById::new(1),
        Some(EntityUuid::new(uuid)),
        None,
        UpdatedById::new(2),
        false,
        person(),
        EntityProperties::new(properties(name)),
        None,
    );
    let (pending, parameters) = creation.parameters(Ok(VersionId::new(3))).unwrap();
    let row = table.create(parameters);
    pending.finish(Ok(row)).unwrap()
}

#[test]
fn of_two_racing_updates_one_wins_and_one_is_told() {
    let mut table = Table { editions: Vec::new(), next_record: 1 };
    let entity_id = created(&mut table, 7, "Alice").edition_id().base_id();

    // Both writers open their transaction and see that the entity exists
    // before either of them writes.
    let first = begin_update(entity_id, "Alicia").prepare(Ok(VersionId::new(3))).unwrap();
    let second = begin_update(entity_id, "Alison").prepare(Ok(VersionId::new(3))).unwrap();
    let first_transaction = table.begin(entity_id);
    let second_transaction = table.begin(entity_id);
    let first = first.transaction_opened(Ok(())).unwrap();
    let second = second.transaction_opened(Ok(())).unwrap();
    let (first, first_parameters) =
        first.checked(Ok(table.latest(entity_id).is_some())).unwrap();
    let (second, second_parameters) =
        second.checked(Ok(table.latest(entity_id).is_some())).unwrap();

    let first_row = table.update(&first_transaction, first_parameters);
    let first_outcome = first.updated(Ok(first_row)).and_then(|commit| commit.committed(Ok(())));
    let second_row = table.update(&second_transaction, second_parameters);
    let second_outcome = second.updated(Ok(second_row)).and_then(|commit| commit.committed(Ok(())));

    let won = first_outcome.unwrap();
    assert_eq!(won.edition_id().record_id(), EntityRecordId::new(2));
    let lost = second_outcome.unwrap_err();
    assert!(lost.mentions(&RaceConditionOnUpdate.describe()));
    // Exactly one edition was added, and it is the one of the winner.
    assert_eq!(table.editions.len(), 2);
    assert_eq!(table.editions[1].2, properties("Alicia"));
}

#[test]
fn update_of_an_entity_that_was_never_created_changes_nothing() {
    let mut table = Table { editions: Vec::new(), next_record: 1 };
    created(&mut table, 7, "Alice");
    let stranger = EntityId::new(OwnedById::new(1), EntityUuid::new(8));
    let update = begin_update(stranger, "Nobody").prepare(Ok(VersionId::new(3))).unwrap();
    let check = update.transaction_opened(Ok(())).unwrap();
    let report = check.checked(Ok(table.latest(stranger).is_some())).unwrap_err();
    assert!(report.mentions("entity does not exist"));
    assert_eq!(table.editions.len(), 1);
}

#[test]
fn what_was_created_is_what_is_read() {
    let mut table = Table { editions: Vec::new(), next_record: 1 };
    let metadata = created(&mut table, 7, "Alice");
    let edition_id = metadata.edition_id();
    // The answer of the store to a filter that selects the new entity.
    let stored = &table.editions[0];
    let found = Entity::new(
        EntityProperties::new(stored.2.clone()),
        None,
        edition_id,
        person(),
        ProvenanceMetadata::new(UpdatedById::new(2)),
        false,
    );
    let traversal = Traversal::start(vec![found], GraphResolveDepths::zero());
    let subgraph = traversal.finish().unwrap().unwrap();
    assert_eq!(subgraph.vertices().entity_count(), 1);
    let (id, vertex) = subgraph.vertices().entity_at(0).unwrap();
    assert_eq!(*id, edition_id);
    let KnowledgeGraphVertex::Entity(entity) = vertex;
    assert_eq!(entity.properties().value(), &properties("Alice"));
    assert_eq!(entity.metadata(), &metadata);
}

#[test]
fn an_entity_is_named_by_owner_and_identifier() {
    let id = EntityId::new(
        OwnedById::new(0x67e5504410b1426f9247bb680e5fe0c8),
        EntityUuid::new(0xa1a2a3a4b1b2c1c2d1d2d3d4d5d6d7d8),
    );
    assert_eq!(
        describe_entity_id(id),
        "67e55044-10b1-426f-9247-bb680e5fe0c8%a1a2a3a4-b1b2-c1c2-d1d2-d3d4d5d6d7d8"
    );
}

#[test]
fn the_statements_name_every_parameter() {
    for position in 1..=13 {
        assert!(CREATE_ENTITY_STATEMENT.contains(&format!("${position}")));
    }
    for position in 1..=9 {
        assert!(UPDATE_ENTITY_STATEMENT.contains(&format!("${position}")));
    }
    assert!(!UPDATE_ENTITY_STATEMENT.contains("$10"));
    assert!(CREATE_ENTITY_STATEMENT.contains("create_entity("));
    assert!(UPDATE_ENTITY_STATEMENT.contains("update_entity("));
    assert!(ENTITY_EXISTS_STATEMENT.contains("entity_ids"));
}
