use graph::collections::{reversed, Identity, KeyedList};
use graph::identifier::{
    EntityEditionId, EntityId, EntityIdAndTimestamp, EntityRecordId, EntityUuid, EntityVersion,
    GraphElementEditionId, Timespan, Timestamp,
};
use graph::knowledge::{Entity, EntityProperties, LinkData};
use graph::ontology::{BaseUri, EntityType, OntologyRecord, OntologyTypeEditionId, VersionedUri};
use graph::package_config::{
    PackageConfigOffset, PackageOffset, PackageType, ENUM_MAX_PACKAGE_TYPE, ENUM_MIN_PACKAGE_TYPE,
};
use graph::provenance::{OwnedById, ProvenanceMetadata, UpdatedById};
use graph::report::{Context, IntoReport, Message, Report, ResultExt};
use graph::store::batch::{
    batched_metadata, batched_versions, insert_entities_batched_by_type, BatchedEntity,
    BatchedIdentity, BatchedVersion,
};
use graph::store::dependency::{DependencyContext, DependencyMap, DependencyStatus};
use graph::store::entity::StoreError;
use graph::store::error::{
    EntityDoesNotExist, InsertionError, QueryError, RaceConditionOnUpdate, UpdateError,
};
use graph::store::filter::Filter;
use graph::store::ontology::{
    latest_type_statement, read_latest_type, DecodeError, LatestTypeRow,
};
use graph::subgraph::edges::{
    Edge, EdgeDirection, EdgeResolveDepths, GraphResolveDepths, KnowledgeGraphEdgeKind,
    KnowledgeGraphOutwardEdges, OutgoingEdgeResolveDepth, OutwardEdge, SharedEdgeKind,
};
use graph::subgraph::vertices::{KnowledgeGraphVertex, OntologyVertex};
use graph::subgraph::Subgraph;

fn depths(is_of_type: u8, left_in: u8, left_out: u8, right_in: u8, right_out: u8) -> GraphResolveDepths {
    GraphResolveDepths {
        is_of_type: OutgoingEdgeResolveDepth { outgoing: is_of_type },
        has_left_entity: EdgeResolveDepths { incoming: left_in, outgoing: left_out },
        has_right_entity: EdgeResolveDepths { incoming: right_in, outgoing: right_out },
    }
}

fn entity_id(uuid: u128) -> EntityId {
    EntityId::new(OwnedById::new(1), EntityUuid::new(uuid))
}

fn edition(uuid: u128, record: i64) -> EntityEditionId {
    EntityEditionId::new(
        entity_id(uuid),
        EntityRecordId::new(record),
        EntityVersion::new(
            Timespan::new(Timestamp::new(10), None),
            Timespan::new(Timestamp::new(20), Some(Timestamp::new(30))),
        ),
    )
}

fn thing() -> VersionedUri {
    VersionedUri::new(BaseUri::new("https://example.com/types/thing/".to_string()), 2)
}

fn entity(uuid: u128, record: i64, text: &str) -> Entity {
    Entity::new(
        EntityProperties::new(serde_json::Value::String(text.to_string())),
        None,
        edition(uuid, record),
        thing(),
        ProvenanceMetadata::new(UpdatedById::new(3)),
        false,
    )
}

const DIRECTIONS: [EdgeDirection; 5] = [
    EdgeDirection::IsOfTypeOutgoing,
    EdgeDirection::HasLeftEntityIncoming,
    EdgeDirection::HasRightEntityIncoming,
    EdgeDirection::HasLeftEntityOutgoing,
    EdgeDirection::HasRightEntityOutgoing,
];

#[test]
fn directions_are_taken_in_a_fixed_order() {
    let mut order = vec![EdgeDirection::IsOfTypeOutgoing];
    while let Some(next) = order.last().unwrap().next() {
        order.push(next);
    }
    assert_eq!(order, DIRECTIONS.to_vec());
}

#[test]
fn directions_know_the_edge_they_record() {
    let left = KnowledgeGraphEdgeKind::HasLeftEntity;
    let right = KnowledgeGraphEdgeKind::HasRightEntity;
    let way = EdgeDirection::HasLeftEntityIncoming;
    assert_eq!((way.kind(), way.reversed()), (left, true));
    let way = EdgeDirection::HasRightEntityIncoming;
    assert_eq!((way.kind(), way.reversed()), (right, true));
    let way = EdgeDirection::HasLeftEntityOutgoing;
    assert_eq!((way.kind(), way.reversed()), (left, false));
    let way = EdgeDirection::HasRightEntityOutgoing;
    assert_eq!((way.kind(), way.reversed()), (right, false));
    assert!(!EdgeDirection::IsOfTypeOutgoing.reversed());
}

#[test]
fn each_direction_has_its_own_budget() {
    let budgets = depths(1, 2, 3, 4, 5);
    assert_eq!(budgets.depth(EdgeDirection::IsOfTypeOutgoing), 1);
    assert_eq!(budgets.depth(EdgeDirection::HasLeftEntityIncoming), 2);
    assert_eq!(budgets.depth(EdgeDirection::HasLeftEntityOutgoing), 3);
    assert_eq!(budgets.depth(EdgeDirection::HasRightEntityIncoming), 4);
    assert_eq!(budgets.depth(EdgeDirection::HasRightEntityOutgoing), 5);
}

#[test]
fn a_hop_lowers_one_budget_by_one() {
    let budgets = depths(1, 2, 3, 4, 255);
    assert_eq!(budgets.decrement(EdgeDirection::IsOfTypeOutgoing), depths(0, 2, 3, 4, 255));
    assert_eq!(budgets.decrement(EdgeDirection::HasLeftEntityIncoming), depths(1, 1, 3, 4, 255));
    assert_eq!(budgets.decrement(EdgeDirection::HasLeftEntityOutgoing), depths(1, 2, 2, 4, 255));
    assert_eq!(budgets.decrement(EdgeDirection::HasRightEntityIncoming), depths(1, 2, 3, 3, 255));
    assert_eq!(budgets.decrement(EdgeDirection::HasRightEntityOutgoing), depths(1, 2, 3, 4, 254));
    for direction in DIRECTIONS {
        let rest = budgets.decrement(direction);
        assert!(budgets.covers(&rest));
        assert!(!rest.covers(&budgets));
    }
}

#[test]
fn zero_budgets_are_zero_everywhere() {
    assert_eq!(GraphResolveDepths::zero(), depths(0, 0, 0, 0, 0));
    for direction in DIRECTIONS {
        assert_eq!(GraphResolveDepths::zero().depth(direction), 0);
    }
}

#[test]
fn budgets_are_compared_kind_by_kind() {
    assert!(depths(1, 2, 3, 4, 5).covers(&depths(1, 2, 3, 4, 5)));
    assert!(depths(1, 2, 3, 4, 5).covers(&depths(0, 0, 0, 0, 0)));
    assert!(depths(1, 2, 3, 4, 5).covers(&depths(1, 1, 3, 4, 5)));
    assert!(!depths(1, 2, 3, 4, 5).covers(&depths(2, 0, 0, 0, 0)));
    assert!(!depths(1, 2, 3, 4, 5).covers(&depths(0, 3, 0, 0, 0)));
    assert!(!depths(1, 2, 3, 4, 5).covers(&depths(0, 0, 4, 0, 0)));
    assert!(!depths(1, 2, 3, 4, 5).covers(&depths(0, 0, 0, 5, 0)));
    assert!(!depths(1, 2, 3, 4, 5).covers(&depths(0, 0, 0, 0, 6)));
}

#[test]
fn budgets_are_raised_kind_by_kind() {
    let mut budgets = depths(1, 5, 0, 7, 2);
    assert!(budgets.update(depths(3, 4, 0, 9, 2)));
    assert_eq!(budgets, depths(3, 5, 0, 9, 2));
    assert!(!budgets.update(depths(3, 5, 0, 9, 2)));
    assert!(!budgets.update(depths(0, 1, 0, 1, 1)));
    assert_eq!(budgets, depths(3, 5, 0, 9, 2));
    assert!(budgets.update(depths(0, 0, 1, 0, 0)));
    assert_eq!(budgets, depths(3, 5, 1, 9, 2));
}

#[test]
fn a_first_visit_is_unresolved() {
    let mut map: DependencyMap<EntityEditionId> = DependencyMap::new();
    assert_eq!(map.get(&edition(1, 1)), None);
    assert_eq!(map.insert(edition(1, 1), depths(0, 1, 0, 0, 0)), DependencyStatus::Unresolved);
    assert_eq!(map.get(&edition(1, 1)), Some(depths(0, 1, 0, 0, 0)));
    assert_eq!(map.get(&edition(1, 2)), None);
}

#[test]
fn a_covered_visit_is_resolved() {
    let mut map: DependencyMap<EntityEditionId> = DependencyMap::new();
    map.insert(edition(1, 1), depths(0, 2, 0, 2, 0));
    assert_eq!(map.insert(edition(1, 1), depths(0, 2, 0, 2, 0)), DependencyStatus::Resolved);
    assert_eq!(map.insert(edition(1, 1), depths(0, 1, 0, 2, 0)), DependencyStatus::Resolved);
    assert_eq!(map.insert(edition(1, 1), depths(0, 0, 0, 0, 0)), DependencyStatus::Resolved);
    assert_eq!(map.get(&edition(1, 1)), Some(depths(0, 2, 0, 2, 0)));
}

#[test]
fn a_deeper_visit_is_unresolved_and_raises_the_record() {
    let mut map: DependencyMap<EntityEditionId> = DependencyMap::new();
    map.insert(edition(1, 1), depths(0, 2, 0, 0, 0));
    assert_eq!(map.insert(edition(1, 1), depths(0, 0, 0, 2, 0)), DependencyStatus::Unresolved);
    assert_eq!(map.get(&edition(1, 1)), Some(depths(0, 2, 0, 2, 0)));
    assert_eq!(map.insert(edition(1, 1), depths(0, 1, 0, 1, 0)), DependencyStatus::Resolved);
    assert_eq!(map.insert(edition(1, 1), depths(1, 0, 0, 0, 0)), DependencyStatus::Unresolved);
    assert_eq!(map.get(&edition(1, 1)), Some(depths(1, 2, 0, 2, 0)));
}

#[test]
fn visits_of_different_elements_do_not_meet() {
    let mut context = DependencyContext::new();
    let person = OntologyTypeEditionId::from_uri(&thing());
    assert_eq!(
        context.knowledge_dependency_map.insert(edition(1, 1), depths(0, 1, 0, 0, 0)),
        DependencyStatus::Unresolved
    );
    assert_eq!(
        context.knowledge_dependency_map.insert(edition(1, 2), depths(0, 1, 0, 0, 0)),
        DependencyStatus::Unresolved
    );
    assert_eq!(
        context.ontology_dependency_map.insert(person.clone(), depths(0, 0, 0, 0, 0)),
        DependencyStatus::Unresolved
    );
    assert_eq!(
        context.ontology_dependency_map.insert(person.clone(), depths(0, 0, 0, 0, 0)),
        DependencyStatus::Resolved
    );
    let later = OntologyTypeEditionId::new(person.base_id().clone(), 3);
    assert_eq!(
        context.ontology_dependency_map.insert(later, depths(0, 0, 0, 0, 0)),
        DependencyStatus::Unresolved
    );
}

#[test]
fn a_keyed_list_is_a_map() {
    let mut list: KeyedList<EntityId, u32> = KeyedList::new();
    assert_eq!(list.len(), 0);
    assert!(list.entry(0).is_none());
    list.insert(entity_id(1), 10);
    list.insert(entity_id(2), 20);
    list.insert(entity_id(1), 11);
    assert_eq!(list.len(), 2);
    assert_eq!(list.get(&entity_id(1)), Some(&11));
    assert_eq!(list.get(&entity_id(2)), Some(&20));
    assert_eq!(list.get(&entity_id(3)), None);
    assert!(list.contains_key(&entity_id(2)));
    assert!(!list.contains_key(&entity_id(3)));
    assert_eq!(list.entry(0), Some((&entity_id(1), &11)));
    assert_eq!(list.entry(1), Some((&entity_id(2), &20)));
    assert_eq!(list.entry(2), None);
}

#[test]
fn a_list_is_turned_around() {
    assert_eq!(reversed(vec![1, 2, 3]), vec![3, 2, 1]);
    assert_eq!(reversed(Vec::<u8>::new()), Vec::<u8>::new());
    assert_eq!(reversed(vec!["a"]), vec!["a"]);
}

#[test]
fn identities_are_compared_by_all_their_parts() {
    assert!(edition(1, 1).same(&edition(1, 1)));
    assert!(!edition(1, 1).same(&edition(2, 1)));
    assert!(!edition(1, 1).same(&edition(1, 2)));
    let mut other = edition(1, 1);
    other.version.transaction_time.end = None;
    assert!(!edition(1, 1).same(&other));
    let mut other = edition(1, 1);
    other.version.decision_time.start = Timestamp::new(11);
    assert!(!edition(1, 1).same(&other));
    let mut other = edition(1, 1);
    other.base_id.owned_by_id = OwnedById::new(9);
    assert!(!edition(1, 1).same(&other));

    let a = OntologyTypeEditionId::from_uri(&thing());
    assert!(a.same(&a.clone()));
    assert!(!a.same(&OntologyTypeEditionId::new(a.base_id().clone(), 3)));
    assert!(!a.same(&OntologyTypeEditionId::new(BaseUri::new("https://example.com/".to_string()), 2)));
    assert_eq!(a, OntologyTypeEditionId::new(BaseUri::new(thing().base_uri().as_str().to_string()), 2));

    let knowledge = GraphElementEditionId::KnowledgeGraph(edition(1, 1));
    let ontology = GraphElementEditionId::Ontology(a.clone());
    assert!(knowledge.same(&GraphElementEditionId::KnowledgeGraph(edition(1, 1))));
    assert!(ontology.same(&GraphElementEditionId::Ontology(a)));
    assert!(!knowledge.same(&ontology));
    assert!(!ontology.same(&knowledge));
}

fn link_edge(source: EntityEditionId, kind: KnowledgeGraphEdgeKind, reversed: bool, at: i64) -> Edge {
    Edge::KnowledgeGraph {
        edition_id: source,
        outward_edge: KnowledgeGraphOutwardEdges::ToKnowledgeGraph(OutwardEdge {
            kind,
            reversed,
            right_endpoint: EntityIdAndTimestamp::new(entity_id(5), Timestamp::new(at)),
        }),
    }
}

fn type_edge(source: EntityEditionId, uri: &VersionedUri) -> Edge {
    Edge::KnowledgeGraph {
        edition_id: source,
        outward_edge: KnowledgeGraphOutwardEdges::ToOntology(OutwardEdge {
            kind: SharedEdgeKind::IsOfType,
            reversed: false,
            right_endpoint: OntologyTypeEditionId::from_uri(uri),
        }),
    }
}

#[test]
fn edges_are_compared_by_all_their_parts() {
    let edge = link_edge(edition(1, 1), KnowledgeGraphEdgeKind::HasLeftEntity, true, 7);
    assert!(edge.same(&link_edge(edition(1, 1), KnowledgeGraphEdgeKind::HasLeftEntity, true, 7)));
    assert!(!edge.same(&link_edge(edition(1, 2), KnowledgeGraphEdgeKind::HasLeftEntity, true, 7)));
    assert!(!edge.same(&link_edge(edition(1, 1), KnowledgeGraphEdgeKind::HasRightEntity, true, 7)));
    assert!(!edge.same(&link_edge(edition(1, 1), KnowledgeGraphEdgeKind::HasLeftEntity, false, 7)));
    assert!(!edge.same(&link_edge(edition(1, 1), KnowledgeGraphEdgeKind::HasLeftEntity, true, 8)));
    assert!(!edge.same(&type_edge(edition(1, 1), &thing())));
    assert!(type_edge(edition(1, 1), &thing()).same(&type_edge(edition(1, 1), &thing())));
    let other = VersionedUri::new(thing().base_uri().clone(), 9);
    assert!(!type_edge(edition(1, 1), &thing()).same(&type_edge(edition(1, 1), &other)));
}

#[test]
fn a_subgraph_holds_no_edge_and_no_root_twice() {
    let mut subgraph = Subgraph::new(depths(1, 1, 1, 1, 1));
    assert_eq!(subgraph.depths(), depths(1, 1, 1, 1, 1));
    assert_eq!((subgraph.edge_count(), subgraph.root_count()), (0, 0));
    subgraph.insert_edge(link_edge(edition(1, 1), KnowledgeGraphEdgeKind::HasLeftEntity, true, 7));
    subgraph.insert_edge(link_edge(edition(1, 1), KnowledgeGraphEdgeKind::HasLeftEntity, true, 7));
    subgraph.insert_edge(link_edge(edition(1, 1), KnowledgeGraphEdgeKind::HasLeftEntity, false, 7));
    assert_eq!(subgraph.edge_count(), 2);
    assert!(subgraph.contains_edge(&link_edge(edition(1, 1), KnowledgeGraphEdgeKind::HasLeftEntity, true, 7)));
    assert!(!subgraph.contains_edge(&link_edge(edition(1, 1), KnowledgeGraphEdgeKind::HasRightEntity, true, 7)));
    assert_eq!(subgraph.edge_at(1), Some(&link_edge(edition(1, 1), KnowledgeGraphEdgeKind::HasLeftEntity, false, 7)));
    assert_eq!(subgraph.edge_at(2), None);
    subgraph.insert_root(GraphElementEditionId::KnowledgeGraph(edition(1, 1)));
    subgraph.insert_root(GraphElementEditionId::KnowledgeGraph(edition(1, 1)));
    assert_eq!(subgraph.root_count(), 1);
    assert!(subgraph.contains_root(&GraphElementEditionId::KnowledgeGraph(edition(1, 1))));
    assert!(!subgraph.contains_root(&GraphElementEditionId::KnowledgeGraph(edition(1, 2))));
    assert_eq!(subgraph.root_at(0), Some(&GraphElementEditionId::KnowledgeGraph(edition(1, 1))));
    assert_eq!(subgraph.root_at(1), None);
}

#[test]
fn a_subgraph_holds_one_vertex_for_each_edition() {
    let mut subgraph = Subgraph::new(GraphResolveDepths::zero());
    assert!(!subgraph.contains_entity(&edition(1, 1)));
    assert!(subgraph.entity(&edition(1, 1)).is_none());
    subgraph.insert_entity(edition(1, 1), KnowledgeGraphVertex::Entity(entity(1, 1, "first")));
    subgraph.insert_entity(edition(1, 2), KnowledgeGraphVertex::Entity(entity(1, 2, "second")));
    subgraph.insert_entity(edition(1, 1), KnowledgeGraphVertex::Entity(entity(1, 1, "third")));
    assert_eq!(subgraph.vertices().entity_count(), 2);
    let KnowledgeGraphVertex::Entity(found) = subgraph.entity(&edition(1, 1)).unwrap();
    assert_eq!(found, &entity(1, 1, "third"));
    assert!(subgraph.vertices().contains_entity(&edition(1, 2)));
    assert!(subgraph.vertices().entity(&edition(1, 3)).is_none());

    let id = OntologyTypeEditionId::from_uri(&thing());
    assert!(!subgraph.contains_type(&id));
    let record = OntologyRecord {
        record: EntityType::new(thing(), serde_json::Value::Bool(true)),
        owned_by_id: OwnedById::new(1),
        updated_by_id: UpdatedById::new(2),
        is_latest: false,
    };
    subgraph.insert_type(id.clone(), OntologyVertex::EntityType(record));
    assert!(subgraph.contains_type(&id));
    assert!(subgraph.vertices().contains_type(&id));
    assert_eq!(subgraph.vertices().type_count(), 1);
    let OntologyVertex::EntityType(found) = subgraph.ontology_type(&id).unwrap();
    assert_eq!(found.record.schema(), &serde_json::Value::Bool(true));
    assert_eq!(found.record.id(), &thing());
    assert!(subgraph.vertices().ontology_type(&id).is_some());
    assert_eq!(subgraph.vertices().entity_count(), 2);
    let (first, _) = subgraph.vertices().type_at(0).unwrap();
    assert_eq!(first, &id);
    assert!(subgraph.vertices().type_at(1).is_none());
    // vertices are listed in the order in which their editions got one
    let (first, _) = subgraph.vertices().entity_at(0).unwrap();
    let (second, _) = subgraph.vertices().entity_at(1).unwrap();
    assert_eq!((*first, *second), (edition(1, 1), edition(1, 2)));
    assert!(subgraph.vertices().entity_at(2).is_none());
}

#[test]
fn timespans_are_half_open() {
    let span = Timespan::new(Timestamp::new(10), Some(Timestamp::new(20)));
    assert_eq!(span.as_start_bound_timestamp(), Timestamp::new(10));
    assert!(!span.contains(&Timestamp::new(9)));
    assert!(span.contains(&Timestamp::new(10)));
    assert!(span.contains(&Timestamp::new(19)));
    assert!(!span.contains(&Timestamp::new(20)));
    let open = Timespan::new(Timestamp::new(10), None);
    assert!(open.contains(&Timestamp::new(i64::MAX)));
    assert!(!open.contains(&Timestamp::new(9)));
    let empty = Timespan::new(Timestamp::new(10), Some(Timestamp::new(10)));
    assert!(!empty.contains(&Timestamp::new(10)));
}

#[test]
fn successive_editions_do_not_overlap() {
    let span = |start: i64, end: Option<i64>| Timespan::new(Timestamp::new(start), end.map(Timestamp::new));
    assert!(!span(10, Some(20)).overlaps(&span(20, Some(30))));
    assert!(!span(20, Some(30)).overlaps(&span(10, Some(20))));
    assert!(!span(10, Some(20)).overlaps(&span(20, None)));
    assert!(span(10, Some(21)).overlaps(&span(20, None)));
    assert!(span(10, None).overlaps(&span(20, None)));
    assert!(span(10, None).overlaps(&span(0, Some(11))));
    assert!(!span(10, None).overlaps(&span(0, Some(10))));
    assert!(span(10, Some(20)).overlaps(&span(10, Some(20))));
    assert!(span(10, Some(20)).overlaps(&span(12, Some(13))));
    assert!(!span(10, Some(10)).overlaps(&span(10, Some(10))));
    assert!(Timestamp::new(1).is_before(&Timestamp::new(2)));
    assert!(!Timestamp::new(2).is_before(&Timestamp::new(2)));
    assert_eq!(Timestamp::new(5).micros(), 5);
}

#[test]
fn filters_follow_the_directions() {
    let id = edition(1, 1);
    assert_eq!(Filter::for_direction(EdgeDirection::IsOfTypeOutgoing, id), None);
    assert_eq!(
        Filter::for_direction(EdgeDirection::HasLeftEntityIncoming, id),
        Some(Filter::OutgoingLinkBySourceEntityEditionId(id))
    );
    assert_eq!(
        Filter::for_direction(EdgeDirection::HasRightEntityIncoming, id),
        Some(Filter::IncomingLinkBySourceEntityEditionId(id))
    );
    assert_eq!(
        Filter::for_direction(EdgeDirection::HasLeftEntityOutgoing, id),
        Some(Filter::LeftEntityByEntityEditionId(id))
    );
    assert_eq!(
        Filter::for_direction(EdgeDirection::HasRightEntityOutgoing, id),
        Some(Filter::RightEntityByEntityEditionId(id))
    );
    assert_eq!(Filter::for_entity_by_edition_id(id), Filter::EntityByEditionId(id));
    assert_eq!(Filter::for_entity_by_entity_id(entity_id(1)), Filter::EntityByEntityId(entity_id(1)));
}

#[test]
fn links_know_their_ends() {
    let link = LinkData::new(entity_id(1), entity_id(2), Some(3), Some(4));
    assert_eq!(link.left_entity_id(), entity_id(1));
    assert_eq!(link.right_entity_id(), entity_id(2));
    assert_eq!(link.left_to_right_order(), Some(3));
    assert_eq!(link.right_to_left_order(), Some(4));
    assert_eq!(link.order.left_to_right(), Some(3));
    assert_eq!(link.order.right_to_left(), Some(4));
    let found = EntityIdAndTimestamp::new(entity_id(1), Timestamp::new(9));
    assert_eq!((found.base_id(), found.timestamp()), (entity_id(1), Timestamp::new(9)));
}

#[test]
fn a_report_keeps_what_was_said_in_order() {
    let report = Report::new(QueryError);
    assert!(report.frames().is_empty());
    let report = report.wrap("first").attach("second".to_string());
    assert_eq!(report.frames(), &vec!["first".to_string(), "second".to_string()]);
    assert!(report.mentions("first"));
    assert!(report.mentions("second"));
    assert!(!report.mentions("third"));
    assert!(!report.mentions(""));
    assert_eq!(*report.current_context(), QueryError);
}

#[test]
fn a_new_context_keeps_the_old_one_in_the_chain() {
    let report = Report::new(EntityDoesNotExist).attach("which one").change_context(UpdateError);
    assert_eq!(*report.current_context(), UpdateError);
    assert_eq!(report.frames(), &vec!["which one".to_string(), "entity does not exist".to_string()]);
    let report = report.provide_context(QueryError).generalize();
    assert_eq!(
        report.frames(),
        &vec![
            "which one".to_string(),
            "entity does not exist".to_string(),
            "could not update the store".to_string(),
            "could not query the store".to_string(),
        ]
    );
    assert_eq!(*report.current_context(), ());
}

#[test]
fn every_kind_of_failure_describes_itself() {
    assert_eq!(QueryError.describe(), "could not query the store");
    assert_eq!(InsertionError.describe(), "could not insert into the store");
    assert_eq!(UpdateError.describe(), "could not update the store");
    assert_eq!(EntityDoesNotExist.describe(), "entity does not exist");
    assert_eq!(
        RaceConditionOnUpdate.describe(),
        "the entity was changed by another writer during the update"
    );
    assert_eq!(().describe(), "unspecified failure");
    assert_eq!(StoreError::new("broken pipe".to_string()).describe(), "broken pipe");
    assert_eq!("text".render(), "text");
    assert_eq!("text".to_string().render(), "text");
}

fn failure() -> Result<u8, Report<QueryError>> {
    Err(Report::new(QueryError).attach("cause"))
}

fn success() -> Result<u8, Report<QueryError>> {
    Ok(7)
}

#[test]
fn wrap_err_adds_a_message_to_a_failure() {
    assert_eq!(success().wrap_err("unused").unwrap(), 7);
    let report = failure().wrap_err("while reading").unwrap_err();
    assert_eq!(report.frames(), &vec!["cause".to_string(), "while reading".to_string()]);
    assert_eq!(*report.current_context(), QueryError);
}

#[test]
fn wrap_err_lazy_makes_its_message_only_for_a_failure() {
    let mut made = 0;
    let result = success().wrap_err_lazy(|| {
        made += 1;
        "unused"
    });
    assert_eq!(result.unwrap(), 7);
    assert_eq!(made, 0);
    let report = failure()
        .wrap_err_lazy(|| {
            made += 1;
            format!("attempt {made}")
        })
        .unwrap_err();
    assert_eq!(made, 1);
    assert_eq!(report.frames(), &vec!["cause".to_string(), "attempt 1".to_string()]);
}

#[test]
fn provide_context_classifies_a_failure_anew() {
    assert_eq!(success().provide_context(InsertionError).unwrap(), 7);
    let report = failure().provide_context(InsertionError).unwrap_err();
    assert_eq!(*report.current_context(), InsertionError);
    assert_eq!(report.frames(), &vec!["cause".to_string(), "could not query the store".to_string()]);
}

#[test]
fn provide_context_lazy_makes_its_context_only_for_a_failure() {
    let mut made = 0;
    let result = success().provide_context_lazy(|| {
        made += 1;
        UpdateError
    });
    assert_eq!(result.unwrap(), 7);
    assert_eq!(made, 0);
    let report = failure()
        .provide_context_lazy(|| {
            made += 1;
            UpdateError
        })
        .unwrap_err();
    assert_eq!(made, 1);
    assert_eq!(*report.current_context(), UpdateError);
    assert_eq!(report.frames(), &vec!["cause".to_string(), "could not query the store".to_string()]);
}

#[test]
fn generalize_forgets_the_kind_of_a_failure() {
    assert_eq!(success().generalize().unwrap(), 7);
    let report = failure().generalize().unwrap_err();
    assert_eq!(report.frames(), &vec!["cause".to_string(), "could not query the store".to_string()]);
}

#[test]
fn report_starts_a_chain_for_a_plain_failure() {
    let plain: Result<u8, QueryError> = Ok(7);
    assert_eq!(plain.report().unwrap(), 7);
    let plain: Result<u8, InsertionError> = Err(InsertionError);
    let report = plain.report().unwrap_err();
    assert_eq!(*report.current_context(), InsertionError);
    assert!(report.frames().is_empty());
}

#[test]
fn package_types_have_names() {
    assert_eq!(PackageType::init().variant_name(), Some("Init"));
    assert_eq!(PackageType::context().variant_name(), Some("Context"));
    assert_eq!(PackageType::state().variant_name(), Some("State"));
    assert_eq!(PackageType::output().variant_name(), Some("Output"));
    assert_eq!(PackageType(0).variant_name(), Some("Init"));
    assert_eq!(PackageType(1).variant_name(), Some("Context"));
    assert_eq!(PackageType(2).variant_name(), Some("State"));
    assert_eq!(PackageType(3).variant_name(), Some("Output"));
    assert_eq!(PackageType(4).variant_name(), None);
    assert_eq!(PackageType(-1).variant_name(), None);
    assert_eq!(PackageType(i8::MIN).variant_name(), None);
    assert_eq!(PackageType(i8::MAX).variant_name(), None);
}

#[test]
fn package_types_are_numbered_from_zero_to_three() {
    assert_eq!(ENUM_MIN_PACKAGE_TYPE, 0);
    assert_eq!(ENUM_MAX_PACKAGE_TYPE, 3);
    assert_eq!(PackageType::ENUM_MIN, 0);
    assert_eq!(PackageType::ENUM_MAX, 3);
    assert_eq!(
        PackageType::enum_values(),
        [PackageType::init(), PackageType::context(), PackageType::state(), PackageType::output()]
    );
    assert_eq!(PackageType::default(), PackageType::init());
    assert!(PackageType::init() < PackageType::output());
    assert_eq!(PackageOffset, PackageOffset);
    assert_eq!(PackageConfigOffset, PackageConfigOffset);
}

#[test]
fn package_types_are_shown_by_name() {
    assert_eq!(PackageType::init().debug_text(), "Init");
    assert_eq!(PackageType::output().debug_text(), "Output");
    assert_eq!(PackageType(7).debug_text(), "<UNKNOWN 7>");
    assert_eq!(PackageType(-128).debug_text(), "<UNKNOWN -128>");
}

#[test]
fn the_latest_type_is_selected_from_the_table_of_its_kind() {
    let statement = latest_type_statement("entity_types");
    assert!(statement.starts_with("SELECT schema, owned_by_id, updated_by_id FROM entity_types type_table "));
    assert!(statement.contains("WHERE base_uri = $1 AND version = (SELECT MAX(version) FROM type_ids WHERE base_uri = $1)"));
    assert_eq!(latest_type_statement("").matches("  ").count(), 1);
}

#[test]
fn the_latest_type_is_marked_as_latest() {
    let row = LatestTypeRow {
        record: Ok("schema".to_string()),
        owned_by_id: OwnedById::new(1),
        updated_by_id: UpdatedById::new(2),
    };
    let record = read_latest_type(Ok(row)).unwrap();
    assert_eq!(record.record, "schema");
    assert_eq!(record.owned_by_id, OwnedById::new(1));
    assert_eq!(record.updated_by_id, UpdatedById::new(2));
    assert!(record.is_latest);
    assert_eq!(record.owned_by_id.as_uuid(), 1);
    assert_eq!(record.updated_by_id.as_uuid(), 2);
}

#[test]
fn the_latest_type_cannot_be_read_or_decoded() {
    let failed: Result<LatestTypeRow<String>, StoreError> =
        Err(StoreError::new("no rows".to_string()));
    let report = read_latest_type(failed).unwrap_err();
    assert_eq!(*report.current_context(), QueryError);
    assert_eq!(report.frames(), &vec!["no rows".to_string()]);

    let row: LatestTypeRow<String> = LatestTypeRow {
        record: Err(DecodeError::new("missing field `$id`".to_string())),
        owned_by_id: OwnedById::new(1),
        updated_by_id: UpdatedById::new(2),
    };
    let report = read_latest_type(Ok(row)).unwrap_err();
    assert_eq!(report.frames(), &vec!["missing field `$id`".to_string()]);
}

fn asked(uuid: Option<u128>, text: &str, link: Option<LinkData>, decided: Option<i64>) -> BatchedEntity {
    BatchedEntity {
        owned_by_id: OwnedById::new(4),
        entity_uuid: uuid.map(EntityUuid::new),
        properties: EntityProperties::new(serde_json::Value::String(text.to_string())),
        link_data: link,
        decision_time: decided.map(Timestamp::new),
    }
}

#[test]
fn a_batch_is_laid_out_in_three_lists() {
    let link = LinkData::new(entity_id(1), entity_id(2), Some(3), None);
    let batch = insert_entities_batched_by_type(vec![
        asked(Some(10), "a", None, Some(100)),
        asked(None, "b", Some(link), None),
        asked(Some(12), "c", None, Some(300)),
    ]);
    assert_eq!(batch.entity_ids.len(), 3);
    assert_eq!(batch.entity_editions.len(), 3);
    assert_eq!(
        batch.entity_versions,
        vec![Some(Timestamp::new(100)), None, Some(Timestamp::new(300))]
    );
    assert_eq!(
        batch.entity_ids[0],
        BatchedIdentity {
            entity_id: EntityId::new(OwnedById::new(4), EntityUuid::new(10)),
            left_entity_id: None,
            right_entity_id: None,
        }
    );
    assert_eq!(batch.entity_ids[1].entity_id.owned_by_id(), OwnedById::new(4));
    let drawn = batch.entity_ids[1].entity_id.entity_uuid().as_uuid();
    assert_eq!((drawn >> 76) & 0xf, 4);
    assert_eq!((drawn >> 62) & 0x3, 2);
    assert_eq!(batch.entity_ids[1].left_entity_id, Some(entity_id(1)));
    assert_eq!(batch.entity_ids[1].right_entity_id, Some(entity_id(2)));
    assert_eq!(batch.entity_ids[2].entity_id.entity_uuid(), EntityUuid::new(12));
    let texts: Vec<_> = batch.entity_editions.iter().map(|e| e.properties.value().clone()).collect();
    assert_eq!(
        texts,
        vec![
            serde_json::Value::String("a".to_string()),
            serde_json::Value::String("b".to_string()),
            serde_json::Value::String("c".to_string()),
        ]
    );
    assert_eq!(batch.entity_editions[0].left_to_right_order, None);
    assert_eq!(batch.entity_editions[1].left_to_right_order, Some(3));
    assert_eq!(batch.entity_editions[1].right_to_left_order, None);
}

#[test]
fn an_empty_batch_is_empty() {
    let batch = insert_entities_batched_by_type(Vec::new());
    assert!(batch.entity_ids.is_empty());
    assert!(batch.entity_editions.is_empty());
    assert!(batch.entity_versions.is_empty());
    assert!(batched_versions(&batch.entity_ids, &Vec::new(), &batch.entity_versions).is_empty());
}

fn identity(uuid: u128) -> BatchedIdentity {
    BatchedIdentity { entity_id: entity_id(uuid), left_entity_id: None, right_entity_id: None }
}

#[test]
fn the_lists_of_a_batch_are_joined_place_by_place() {
    let ids = vec![identity(1), identity(2), identity(3)];
    let records = vec![EntityRecordId::new(11), EntityRecordId::new(12), EntityRecordId::new(13)];
    let decided = vec![Some(Timestamp::new(5)), None, Some(Timestamp::new(7))];
    assert_eq!(
        batched_versions(&ids, &records, &decided),
        vec![
            BatchedVersion {
                entity_id: entity_id(1),
                entity_record_id: EntityRecordId::new(11),
                decision_time: Some(Timestamp::new(5)),
            },
            BatchedVersion {
                entity_id: entity_id(2),
                entity_record_id: EntityRecordId::new(12),
                decision_time: None,
            },
            BatchedVersion {
                entity_id: entity_id(3),
                entity_record_id: EntityRecordId::new(13),
                decision_time: Some(Timestamp::new(7)),
            },
        ]
    );
    assert_eq!(batched_versions(&ids, &records[..2].to_vec(), &decided).len(), 2);
    assert_eq!(batched_versions(&ids[..1].to_vec(), &records, &decided).len(), 1);
    assert_eq!(batched_versions(&ids, &records, &Vec::new()).len(), 0);

    let version = |start: i64| {
        EntityVersion::new(
            Timespan::new(Timestamp::new(start), None),
            Timespan::new(Timestamp::new(start + 1), None),
        )
    };
    let versions = vec![version(100), version(200), version(300)];
    let metadata = batched_metadata(&ids, &versions, &records, &thing(), UpdatedById::new(9));
    assert_eq!(metadata.len(), 3);
    for (place, found) in metadata.iter().enumerate() {
        assert_eq!(
            found.edition_id(),
            EntityEditionId::new(ids[place].entity_id, records[place], versions[place])
        );
        assert_eq!(found.entity_type_id(), &thing());
        assert_eq!(found.provenance().updated_by_id(), UpdatedById::new(9));
        assert!(!found.archived());
    }
    assert_eq!(batched_metadata(&ids, &versions[..1].to_vec(), &records, &thing(), UpdatedById::new(9)).len(), 1);
    assert_eq!(batched_metadata(&ids, &versions, &records[..2].to_vec(), &thing(), UpdatedById::new(9)).len(), 2);
}
