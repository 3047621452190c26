use graph::identifier::{
    EntityEditionId, EntityId, EntityIdAndTimestamp, EntityRecordId, EntityUuid, EntityVersion,
    GraphElementEditionId, Timespan, Timestamp,
};
use graph::knowledge::{Entity, EntityProperties, LinkData};
use graph::ontology::{BaseUri, EntityType, OntologyRecord, OntologyTypeEditionId, VersionedUri};
use graph::provenance::{OwnedById, ProvenanceMetadata, UpdatedById};
use graph::report::Report;
use graph::store::error::QueryError;
use graph::store::filter::{Filter, ReadRequest};
use graph::store::traversal::model::ReadResponse;
use graph::store::traversal::{earliest_decision_start, Traversal};
use graph::subgraph::edges::{
    Edge, EdgeResolveDepths, GraphResolveDepths, KnowledgeGraphEdgeKind,
    KnowledgeGraphOutwardEdges, OutgoingEdgeResolveDepth, OutwardEdge, SharedEdgeKind,
};
use graph::subgraph::vertices::KnowledgeGraphVertex;
use graph::subgraph::Subgraph;

const TYPE_URI: &str = "https://example.com/types/thing/";

/// One edition in the store of a test.
struct Record {
    uuid: u128,
    record: i64,
    start: i64,
    link: Option<(u128, u128)>,
    properties: serde_json::Value,
}

fn plain(uuid: u128, record: i64, start: i64) -> Record {
    Record { uuid, record, start, link: None, properties: serde_json::Value::Null }
}

fn link(uuid: u128, record: i64, start: i64, left: u128, right: u128) -> Record {
    Record { uuid, record, start, link: Some((left, right)), properties: serde_json::Value::Null }
}

fn entity_id(uuid: u128) -> EntityId {
    EntityId::new(OwnedById::new(1), EntityUuid::new(uuid))
}

fn edition_id(record: &Record) -> EntityEditionId {
    EntityEditionId::new(
        entity_id(record.uuid),
        EntityRecordId::new(record.record),
        EntityVersion::new(
            Timespan::new(Timestamp::new(record.start), None),
            Timespan::new(Timestamp::new(record.start + 1000), None),
        ),
    )
}

fn entity(record: &Record) -> Entity {
    Entity::new(
        EntityProperties::new(record.properties.clone()),
        record.link.map(|(left, right)| LinkData::new(entity_id(left), entity_id(right), None, None)),
        edition_id(record),
        VersionedUri::new(BaseUri::new(TYPE_URI.to_string()), 1),
        ProvenanceMetadata::new(UpdatedById::new(7)),
        false,
    )
}

/// A store that answers from a list of editions and counts what it is asked.
struct Store {
    records: Vec<Record>,
    vertex_reads: Vec<EntityEditionId>,
    reads: usize,
    fail_on: Option<usize>,
}

impl Store {
    fn new(records: Vec<Record>) -> Store {
        Store { records, vertex_reads: Vec::new(), reads: 0, fail_on: None }
    }

    fn find(&self, id: &EntityEditionId) -> Option<&Record> {
        self.records.iter().find(|record| edition_id(record) == *id)
    }

    fn select(&self, filter: &Filter) -> Vec<Entity> {
        match filter {
            Filter::EntityByEditionId(id) => self.find(id).map(entity).into_iter().collect(),
            Filter::EntityByEntityId(id) => self
                .records
                .iter()
                .filter(|record| entity_id(record.uuid) == *id)
                .map(entity)
                .collect(),
            Filter::OutgoingLinkBySourceEntityEditionId(id) => self
                .records
                .iter()
                .filter(|record| {
                    record.link.map_or(false, |(left, _)| entity_id(left) == id.base_id())
                })
                .map(entity)
                .collect(),
            Filter::IncomingLinkBySourceEntityEditionId(id) => self
                .records
                .iter()
                .filter(|record| {
                    record.link.map_or(false, |(_, right)| entity_id(right) == id.base_id())
                })
                .map(entity)
                .collect(),
            Filter::LeftEntityByEntityEditionId(id) => match self.find(id).and_then(|r| r.link) {
                Some((left, _)) => {
                    self.records.iter().filter(|record| record.uuid == left).map(entity).collect()
                }
                None => Vec::new(),
            },
            Filter::RightEntityByEntityEditionId(id) => match self.find(id).and_then(|r| r.link) {
                Some((_, right)) => {
                    self.records.iter().filter(|record| record.uuid == right).map(entity).collect()
                }
                None => Vec::new(),
            },
        }
    }

    fn answer(&mut self, request: &ReadRequest) -> ReadResponse {
        self.reads += 1;
        if self.fail_on == Some(self.reads) {
            return ReadResponse::Failed(
                Report::new(QueryError).attach("connection lost".to_string()),
            );
        }
        match request {
            ReadRequest::Entity(filter) => {
                if let Filter::EntityByEditionId(id) = filter {
                    self.vertex_reads.push(*id);
                }
                let mut found = self.select(filter);
                match found.pop() {
                    Some(entity) if found.is_empty() => ReadResponse::Entity(entity),
                    _ => ReadResponse::Failed(
                        Report::new(QueryError).attach("not exactly one".to_string()),
                    ),
                }
            }
            ReadRequest::Entities(filter) => ReadResponse::Entities(self.select(filter)),
            ReadRequest::EntityType(id) => ReadResponse::EntityType(OntologyRecord {
                record: EntityType::new(
                    VersionedUri::new(id.base_id().clone(), id.version()),
                    serde_json::Value::String("schema".to_string()),
                ),
                owned_by_id: OwnedById::new(1),
                updated_by_id: UpdatedById::new(7),
                is_latest: true,
            }),
        }
    }

    fn roots(&self, uuids: &[u128]) -> Vec<Entity> {
        self.records.iter().filter(|record| uuids.contains(&record.uuid)).map(entity).collect()
    }
}

fn resolve(
    store: &mut Store,
    roots: Vec<Entity>,
    depths: GraphResolveDepths,
) -> Result<Subgraph, Report<QueryError>> {
    let mut traversal = Traversal::start(roots, depths);
    while let Some(request) = traversal.request() {
        let response = store.answer(&request);
        traversal.resume(response);
    }
    traversal.finish().expect("a traversal that asks nothing has ended")
}

fn depths(is_of_type: u8, left_in: u8, left_out: u8, right_in: u8, right_out: u8) -> GraphResolveDepths {
    GraphResolveDepths {
        is_of_type: OutgoingEdgeResolveDepth { outgoing: is_of_type },
        has_left_entity: EdgeResolveDepths { incoming: left_in, outgoing: left_out },
        has_right_entity: EdgeResolveDepths { incoming: right_in, outgoing: right_out },
    }
}

fn link_edge(
    source: &Record,
    kind: KnowledgeGraphEdgeKind,
    reversed: bool,
    target: u128,
    timestamp: i64,
) -> Edge {
    Edge::KnowledgeGraph {
        edition_id: edition_id(source),
        outward_edge: KnowledgeGraphOutwardEdges::ToKnowledgeGraph(OutwardEdge {
            kind,
            reversed,
            right_endpoint: EntityIdAndTimestamp::new(entity_id(target), Timestamp::new(timestamp)),
        }),
    }
}

fn has_vertex(subgraph: &Subgraph, record: &Record) -> bool {
    subgraph.contains_entity(&edition_id(record))
}

/// alice <- knows -> bob, and bob <- likes -> carol
fn friends() -> Vec<Record> {
    vec![
        plain(1, 1, 100),
        plain(2, 2, 200),
        plain(3, 3, 300),
        link(10, 4, 400, 1, 2),
        link(11, 5, 500, 2, 3),
    ]
}

#[test]
fn depth_zero_returns_exactly_the_roots() {
    let mut store = Store::new(friends());
    let roots = store.roots(&[1, 10]);
    let subgraph = resolve(&mut store, roots, GraphResolveDepths::zero()).unwrap();
    assert_eq!(store.reads, 0);
    assert_eq!(subgraph.vertices().entity_count(), 2);
    assert_eq!(subgraph.vertices().type_count(), 0);
    assert_eq!(subgraph.edge_count(), 0);
    assert_eq!(subgraph.root_count(), 2);
    assert!(has_vertex(&subgraph, &friends()[0]));
    assert!(has_vertex(&subgraph, &friends()[3]));
    assert!(subgraph.contains_root(&GraphElementEditionId::KnowledgeGraph(edition_id(&friends()[0]))));
    assert!(subgraph.contains_root(&GraphElementEditionId::KnowledgeGraph(edition_id(&friends()[3]))));
    assert_eq!(subgraph.depths(), GraphResolveDepths::zero());
}

#[test]
fn depth_zero_is_complete_at_once() {
    let store = Store::new(friends());
    let traversal = Traversal::start(store.roots(&[1, 2, 3]), GraphResolveDepths::zero());
    assert!(traversal.is_complete());
    assert!(!traversal.has_failed());
    assert!(traversal.request().is_none());
}

#[test]
fn no_roots_give_an_empty_subgraph() {
    let mut store = Store::new(friends());
    let subgraph = resolve(&mut store, Vec::new(), depths(3, 3, 3, 3, 3)).unwrap();
    assert_eq!(subgraph.vertices().entity_count(), 0);
    assert_eq!(subgraph.edge_count(), 0);
    assert_eq!(subgraph.root_count(), 0);
    assert_eq!(store.reads, 0);
}

#[test]
fn outgoing_links_of_an_entity_are_found() {
    let records = friends();
    let mut store = Store::new(friends());
    let roots = store.roots(&[1]);
    let subgraph = resolve(&mut store, roots, depths(0, 1, 0, 0, 0)).unwrap();
    assert_eq!(subgraph.vertices().entity_count(), 2);
    assert!(has_vertex(&subgraph, &records[0]));
    assert!(has_vertex(&subgraph, &records[3]));
    assert_eq!(subgraph.edge_count(), 1);
    assert!(subgraph.contains_edge(&link_edge(
        &records[0],
        KnowledgeGraphEdgeKind::HasLeftEntity,
        true,
        10,
        400
    )));
    assert_eq!(subgraph.root_count(), 1);
}

#[test]
fn incoming_links_of_an_entity_are_found() {
    let records = friends();
    let mut store = Store::new(friends());
    let roots = store.roots(&[2]);
    let subgraph = resolve(&mut store, roots, depths(0, 0, 0, 1, 0)).unwrap();
    assert_eq!(subgraph.vertices().entity_count(), 2);
    assert!(has_vertex(&subgraph, &records[3]));
    assert_eq!(subgraph.edge_count(), 1);
    assert!(subgraph.contains_edge(&link_edge(
        &records[1],
        KnowledgeGraphEdgeKind::HasRightEntity,
        true,
        10,
        400
    )));
}

#[test]
fn ends_of_a_link_are_found() {
    let records = friends();
    let mut store = Store::new(friends());
    let roots = store.roots(&[10]);
    let subgraph = resolve(&mut store, roots, depths(0, 0, 1, 0, 1)).unwrap();
    assert_eq!(subgraph.vertices().entity_count(), 3);
    assert!(has_vertex(&subgraph, &records[0]));
    assert!(has_vertex(&subgraph, &records[1]));
    assert_eq!(subgraph.edge_count(), 2);
    assert!(subgraph.contains_edge(&link_edge(
        &records[3],
        KnowledgeGraphEdgeKind::HasLeftEntity,
        false,
        1,
        100
    )));
    assert!(subgraph.contains_edge(&link_edge(
        &records[3],
        KnowledgeGraphEdgeKind::HasRightEntity,
        false,
        2,
        200
    )));
}

#[test]
fn each_hop_uses_one_unit_of_its_own_budget() {
    let records = friends();
    // alice -> knows -> bob needs one hop against a left end and one along a right end.
    let mut store = Store::new(friends());
    let roots = store.roots(&[1]);
    let subgraph = resolve(&mut store, roots, depths(0, 1, 0, 0, 1)).unwrap();
    assert!(has_vertex(&subgraph, &records[1]));
    assert!(!has_vertex(&subgraph, &records[4]));
    assert!(!has_vertex(&subgraph, &records[2]));

    // reaching carol needs two hops of each of the two kinds.
    let mut store = Store::new(friends());
    let roots = store.roots(&[1]);
    let subgraph = resolve(&mut store, roots, depths(0, 2, 0, 0, 2)).unwrap();
    assert!(has_vertex(&subgraph, &records[4]));
    assert!(has_vertex(&subgraph, &records[2]));
    assert_eq!(subgraph.vertices().entity_count(), 5);

    // budget of another kind does not help.
    let mut store = Store::new(friends());
    let roots = store.roots(&[1]);
    let subgraph = resolve(&mut store, roots, depths(9, 1, 9, 9, 0)).unwrap();
    assert!(has_vertex(&subgraph, &records[3]));
    assert!(!has_vertex(&subgraph, &records[1]));
}

#[test]
fn the_type_of_an_entity_is_resolved() {
    let records = friends();
    let mut store = Store::new(friends());
    let roots = store.roots(&[1]);
    let subgraph = resolve(&mut store, roots, depths(1, 0, 0, 0, 0)).unwrap();
    let type_id = OntologyTypeEditionId::new(BaseUri::new(TYPE_URI.to_string()), 1);
    assert_eq!(subgraph.vertices().entity_count(), 1);
    assert_eq!(subgraph.vertices().type_count(), 1);
    assert!(subgraph.contains_type(&type_id));
    assert_eq!(subgraph.edge_count(), 1);
    assert!(subgraph.contains_edge(&Edge::KnowledgeGraph {
        edition_id: edition_id(&records[0]),
        outward_edge: KnowledgeGraphOutwardEdges::ToOntology(OutwardEdge {
            kind: SharedEdgeKind::IsOfType,
            reversed: false,
            right_endpoint: type_id,
        }),
    }));
}

#[test]
fn a_type_is_read_once_for_all_its_entities() {
    let mut store = Store::new(friends());
    let roots = store.roots(&[1, 2, 3]);
    let subgraph = resolve(&mut store, roots, depths(1, 0, 0, 0, 0)).unwrap();
    assert_eq!(subgraph.vertices().type_count(), 1);
    assert_eq!(subgraph.edge_count(), 3);
    assert_eq!(store.reads, 1);
}

/// Two links from alice to bob: bob is reached on two paths.
fn diamond() -> Vec<Record> {
    vec![plain(1, 1, 100), plain(2, 2, 200), link(10, 3, 300, 1, 2), link(11, 4, 400, 1, 2)]
}

#[test]
fn an_entity_reached_on_two_paths_is_read_once() {
    let records = diamond();
    let mut store = Store::new(diamond());
    let roots = store.roots(&[1]);
    let subgraph = resolve(&mut store, roots, depths(0, 1, 0, 0, 1)).unwrap();
    assert_eq!(subgraph.vertices().entity_count(), 4);
    assert!(has_vertex(&subgraph, &records[1]));
    let bob = edition_id(&records[1]);
    assert_eq!(store.vertex_reads.iter().filter(|id| **id == bob).count(), 1);
    let mut seen = store.vertex_reads.clone();
    seen.sort_by_key(|id| id.record_id().as_i64());
    seen.dedup();
    assert_eq!(seen.len(), store.vertex_reads.len());
    // both paths leave their edge
    assert!(subgraph.contains_edge(&link_edge(
        &records[2],
        KnowledgeGraphEdgeKind::HasRightEntity,
        false,
        2,
        200
    )));
    assert!(subgraph.contains_edge(&link_edge(
        &records[3],
        KnowledgeGraphEdgeKind::HasRightEntity,
        false,
        2,
        200
    )));
}

#[test]
fn roots_are_never_read_again() {
    let mut store = Store::new(friends());
    let roots = store.roots(&[1, 2, 3, 10, 11]);
    let subgraph = resolve(&mut store, roots, depths(0, 2, 2, 2, 2)).unwrap();
    assert_eq!(subgraph.vertices().entity_count(), 5);
    assert!(store.vertex_reads.is_empty());
}

#[test]
fn a_cycle_ends() {
    // a link whose two ends are itself
    let records = vec![link(1, 1, 100, 1, 1)];
    let mut store = Store::new(vec![link(1, 1, 100, 1, 1)]);
    let roots = store.roots(&[1]);
    let subgraph = resolve(&mut store, roots, depths(255, 255, 255, 255, 255)).unwrap();
    assert_eq!(subgraph.vertices().entity_count(), 1);
    assert_eq!(subgraph.vertices().type_count(), 1);
    assert_eq!(subgraph.edge_count(), 5);
    assert!(has_vertex(&subgraph, &records[0]));
}

#[test]
fn edges_name_the_earliest_edition_of_their_target() {
    // The link has three editions, found in an order that is not that of their starts.
    let records = vec![
        plain(1, 1, 100),
        plain(2, 2, 200),
        link(10, 5, 3000, 1, 2),
        link(10, 3, 1000, 1, 2),
        link(10, 4, 2000, 1, 2),
    ];
    let mut store = Store::new(vec![
        plain(1, 1, 100),
        plain(2, 2, 200),
        link(10, 5, 3000, 1, 2),
        link(10, 3, 1000, 1, 2),
        link(10, 4, 2000, 1, 2),
    ]);
    let roots = store.roots(&[1]);
    let subgraph = resolve(&mut store, roots, depths(0, 1, 0, 0, 0)).unwrap();
    // every edition of the link is found, and every edge to it names the first start
    assert_eq!(subgraph.vertices().entity_count(), 4);
    assert_eq!(subgraph.edge_count(), 1);
    assert!(subgraph.contains_edge(&link_edge(
        &records[0],
        KnowledgeGraphEdgeKind::HasLeftEntity,
        true,
        10,
        1000
    )));
    let edge = subgraph.edge_at(0).unwrap();
    match edge {
        Edge::KnowledgeGraph {
            outward_edge: KnowledgeGraphOutwardEdges::ToKnowledgeGraph(outward), ..
        } => assert_eq!(outward.right_endpoint.timestamp(), Timestamp::new(1000)),
        _ => panic!("an edge between entities was expected"),
    }
}

#[test]
fn earliest_start_of_editions() {
    assert_eq!(earliest_decision_start(&Vec::new()), None);
    let one = vec![entity(&plain(1, 1, 50))];
    assert_eq!(earliest_decision_start(&one), Some(Timestamp::new(50)));
    let three = vec![entity(&plain(1, 1, 30)), entity(&plain(1, 2, 10)), entity(&plain(1, 3, 20))];
    assert_eq!(earliest_decision_start(&three), Some(Timestamp::new(10)));
    let negative = vec![entity(&plain(1, 1, -5)), entity(&plain(1, 2, i64::MIN)), entity(&plain(1, 3, i64::MAX))];
    assert_eq!(earliest_decision_start(&negative), Some(Timestamp::new(i64::MIN)));
}

#[test]
fn a_failed_read_ends_the_traversal() {
    let mut store = Store::new(friends());
    store.fail_on = Some(2);
    let roots = store.roots(&[1]);
    let report = resolve(&mut store, roots, depths(0, 2, 0, 0, 2)).unwrap_err();
    assert_eq!(store.reads, 2);
    assert!(report.mentions("connection lost"));
    assert_eq!(report.frames().len(), 1);
}

#[test]
fn a_failed_traversal_asks_nothing_and_takes_nothing() {
    let store = Store::new(friends());
    let mut traversal = Traversal::start(store.roots(&[1]), depths(0, 1, 0, 0, 0));
    assert!(traversal.request().is_some());
    traversal.resume(ReadResponse::Failed(Report::new(QueryError).attach("down".to_string())));
    assert!(traversal.has_failed());
    assert!(!traversal.is_complete());
    assert!(traversal.request().is_none());
    traversal.resume(ReadResponse::Entities(Vec::new()));
    assert!(traversal.has_failed());
    let report = traversal.finish().unwrap().unwrap_err();
    assert!(report.mentions("down"));
}

#[test]
fn an_answer_of_another_kind_ends_the_traversal() {
    let store = Store::new(friends());
    let mut traversal = Traversal::start(store.roots(&[1]), depths(0, 1, 0, 0, 0));
    assert_eq!(
        traversal.request(),
        Some(ReadRequest::Entities(Filter::for_outgoing_link_by_source_entity_edition_id(
            edition_id(&friends()[0])
        )))
    );
    traversal.resume(ReadResponse::Entity(entity(&friends()[3])));
    assert!(traversal.has_failed());
    let report = traversal.finish().unwrap().unwrap_err();
    assert!(report.mentions("the store answered with something that was not asked for"));
}

#[test]
fn an_entity_without_editions_ends_the_traversal() {
    let store = Store::new(friends());
    let mut traversal = Traversal::start(store.roots(&[1]), depths(0, 1, 0, 0, 0));
    traversal.resume(ReadResponse::Entities(vec![entity(&friends()[3])]));
    assert_eq!(
        traversal.request(),
        Some(ReadRequest::Entities(Filter::for_entity_by_entity_id(entity_id(10))))
    );
    traversal.resume(ReadResponse::Entities(Vec::new()));
    assert!(traversal.has_failed());
    let report = traversal.finish().unwrap().unwrap_err();
    assert!(report.mentions("an entity that was found has no edition"));
}

#[test]
fn an_unfinished_traversal_has_no_outcome() {
    let store = Store::new(friends());
    let traversal = Traversal::start(store.roots(&[1]), depths(0, 1, 0, 0, 0));
    assert!(!traversal.is_complete());
    assert_eq!(traversal.subgraph().vertices().entity_count(), 1);
    assert!(traversal.finish().is_none());
}

#[test]
fn a_complete_traversal_ignores_answers() {
    let store = Store::new(friends());
    let mut traversal = Traversal::start(store.roots(&[1]), GraphResolveDepths::zero());
    traversal.resume(ReadResponse::Entities(vec![entity(&friends()[3])]));
    assert!(traversal.is_complete());
    let subgraph = traversal.finish().unwrap().unwrap();
    assert_eq!(subgraph.vertices().entity_count(), 1);
    assert_eq!(subgraph.edge_count(), 0);
}

#[test]
fn the_steps_of_one_hop() {
    let records = friends();
    let store = Store::new(friends());
    let mut traversal = Traversal::start(store.roots(&[1]), depths(0, 1, 0, 0, 0));
    // 1. which links leave alice?
    assert_eq!(
        traversal.request(),
        Some(ReadRequest::Entities(Filter::OutgoingLinkBySourceEntityEditionId(edition_id(
            &records[0]
        ))))
    );
    traversal.resume(ReadResponse::Entities(vec![entity(&records[3])]));
    // 2. since when is there such a link?
    assert_eq!(
        traversal.request(),
        Some(ReadRequest::Entities(Filter::EntityByEntityId(entity_id(10))))
    );
    traversal.resume(ReadResponse::Entities(vec![entity(&records[3])]));
    // 3. the link itself, which the subgraph lacks
    assert_eq!(
        traversal.request(),
        Some(ReadRequest::Entity(Filter::EntityByEditionId(edition_id(&records[3]))))
    );
    assert!(traversal.subgraph().contains_edge(&link_edge(
        &records[0],
        KnowledgeGraphEdgeKind::HasLeftEntity,
        true,
        10,
        400
    )));
    assert!(!traversal.subgraph().contains_entity(&edition_id(&records[3])));
    traversal.resume(ReadResponse::Entity(entity(&records[3])));
    assert!(traversal.is_complete());
    assert!(traversal.subgraph().contains_entity(&edition_id(&records[3])));
}

#[test]
fn the_vertex_of_an_edition_holds_what_was_read() {
    let mut records = friends();
    records[3].properties = serde_json::Value::String("since school".to_string());
    let mut store = Store::new(records);
    let roots = store.roots(&[1]);
    let subgraph = resolve(&mut store, roots, depths(0, 1, 0, 0, 0)).unwrap();
    let vertex = subgraph.entity(&edition_id(&friends()[3])).unwrap();
    let KnowledgeGraphVertex::Entity(found) = vertex;
    assert_eq!(found.properties().value(), &serde_json::Value::String("since school".to_string()));
    assert_eq!(found.link_data(), Some(LinkData::new(entity_id(1), entity_id(2), None, None)));
    assert_eq!(found.metadata().edition_id(), edition_id(&friends()[3]));
}

#[test]
fn every_edge_starts_at_a_vertex() {
    let mut store = Store::new(friends());
    let roots = store.roots(&[1]);
    let subgraph = resolve(&mut store, roots, depths(1, 2, 2, 2, 2)).unwrap();
    let mut index = 0;
    while let Some(edge) = subgraph.edge_at(index) {
        let Edge::KnowledgeGraph { edition_id, .. } = edge;
        assert!(subgraph.contains_entity(edition_id));
        index += 1;
    }
    assert_eq!(index, subgraph.edge_count());
    assert!(index > 0);
}

#[test]
fn larger_budgets_keep_what_budgets_of_zero_give() {
    let mut store = Store::new(friends());
    let roots = store.roots(&[1, 10]);
    let least = resolve(&mut store, roots, GraphResolveDepths::zero()).unwrap();
    let mut store = Store::new(friends());
    let roots = store.roots(&[1, 10]);
    let more = resolve(&mut store, roots, depths(1, 2, 0, 1, 3)).unwrap();
    let mut index = 0;
    while let Some((id, _)) = least.vertices().entity_at(index) {
        assert!(more.contains_entity(id));
        index += 1;
    }
    assert_eq!(index, 2);
    let mut index = 0;
    while let Some(root) = least.root_at(index) {
        assert!(more.contains_root(root));
        index += 1;
    }
    assert_eq!(index, 2);
}

#[test]
fn larger_budgets_give_more_on_a_chain() {
    let records = friends();
    let mut found = Vec::new();
    for budget in 0..4u8 {
        let mut store = Store::new(friends());
        let roots = store.roots(&[1]);
        let subgraph = resolve(&mut store, roots, depths(0, budget, 0, 0, budget)).unwrap();
        found.push(records.iter().filter(|record| has_vertex(&subgraph, record)).count());
    }
    assert_eq!(found, vec![1, 3, 5, 5]);
}

fn reached(records: &dyn Fn() -> Vec<Record>, budgets: GraphResolveDepths) -> Vec<u128> {
    let mut store = Store::new(records());
    let roots = store.roots(&[1]);
    let subgraph = resolve(&mut store, roots, budgets).unwrap();
    records().iter().filter(|record| has_vertex(&subgraph, record)).map(|r| r.uuid).collect()
}

/// A graph on which an entity is reached three times with budgets that
/// cannot be compared.
fn tangle() -> Vec<Record> {
    vec![
        link(1, 1, 10, 4, 91),   // the root; its left end is 4
        link(2, 2, 20, 1, 92),   // leaves the root
        link(3, 3, 30, 93, 1),   // enters the root
        link(4, 4, 40, 2, 3),    // leaves 2 and enters 3
        link(5, 5, 50, 4, 95),   // leaves 4
        link(6, 6, 60, 96, 5),   // enters 5
        plain(91, 91, 1),
        plain(92, 92, 1),
        plain(93, 93, 1),
        plain(95, 95, 1),
        plain(96, 96, 1),
    ]
}

#[test]
fn budgets_that_cannot_be_compared_can_hide_an_entity() {
    // With one hop of each kind the entity 6 is found: 4 is entered once, with
    // budget left for the way to 5 and on to 6.
    let small = reached(&tangle, depths(0, 1, 1, 1, 0));
    assert_eq!(small, vec![1, 2, 3, 4, 5, 6, 93]);
    // With two hops against each end, 4 is first entered twice with budgets of
    // which neither covers the other. Together they cover the third visit,
    // which is skipped, and none of the two went from 4 to 5 and on to 6.
    let large = reached(&tangle, depths(0, 2, 1, 2, 0));
    assert_eq!(large, vec![1, 2, 3, 4, 5, 93]);
}

fn edges_of(subgraph: &Subgraph) -> Vec<String> {
    let mut edges = Vec::new();
    let mut index = 0;
    while let Some(edge) = subgraph.edge_at(index) {
        edges.push(format!("{edge:?}"));
        index += 1;
    }
    edges
}

fn random_graph(seed: &mut u64, size: u128) -> Vec<Record> {
    let mut next = move || {
        *seed = seed.wrapping_mul(6364136223846793005).wrapping_add(1442695040888963407);
        (*seed >> 33) as u128
    };
    let mut records = Vec::new();
    for uuid in 1..=size {
        let record = uuid as i64;
        if next() % 4 == 0 {
            records.push(plain(uuid, record, 10 * record));
        } else {
            records.push(link(uuid, record, 10 * record, 1 + next() % size, 1 + next() % size));
        }
    }
    records
}

#[test]
fn budgets_of_one_kind_are_monotone_on_random_graphs() {
    let mut seed = 42u64;
    let mut checked = 0;
    for round in 0..400u64 {
        let size = 3 + (round % 5) as u128;
        let graph = random_graph(&mut seed, size);
        let copy = |graph: &Vec<Record>| -> Vec<Record> {
            graph
                .iter()
                .map(|r| Record {
                    uuid: r.uuid,
                    record: r.record,
                    start: r.start,
                    link: r.link,
                    properties: serde_json::Value::Null,
                })
                .collect()
        };
        let pick = |seed: &mut u64, bound: u8| -> u8 {
            *seed = seed.wrapping_mul(6364136223846793005).wrapping_add(1442695040888963407);
            ((*seed >> 33) % u64::from(bound)) as u8
        };
        let kind = pick(&mut seed, 5);
        let budget = 1 + pick(&mut seed, 3);
        let mut small = [0u8; 5];
        small[kind as usize] = budget;
        let mut large = small;
        for slot in large.iter_mut() {
            *slot += pick(&mut seed, 3);
        }
        let roots = [1u128, 1 + u128::from(pick(&mut seed, 3))];
        let run = |budgets: [u8; 5]| {
            let mut store = Store::new(copy(&graph));
            let found = store.roots(&roots);
            resolve(
                &mut store,
                found,
                depths(budgets[0], budgets[1], budgets[2], budgets[3], budgets[4]),
            )
            .unwrap()
        };
        let less = run(small);
        let more = run(large);
        let mut index = 0;
        while let Some((id, _)) = less.vertices().entity_at(index) {
            assert!(more.contains_entity(id), "round {round}: {small:?} {large:?} lost {id:?}");
            index += 1;
        }
        let more_edges = edges_of(&more);
        for edge in edges_of(&less) {
            assert!(more_edges.contains(&edge), "round {round}: {small:?} {large:?} lost {edge}");
        }
        assert!(less.vertices().type_count() <= more.vertices().type_count());
        checked += 1;
    }
    assert_eq!(checked, 400);
}

#[test]
fn the_same_store_gives_the_same_subgraph() {
    let run = || {
        let mut store = Store::new(tangle());
        let roots = store.roots(&[1, 4]);
        let subgraph = resolve(&mut store, roots, depths(1, 2, 1, 2, 1)).unwrap();
        (reached_in(&subgraph, &tangle()), edges_of(&subgraph), store.reads)
    };
    assert_eq!(run(), run());
}

fn reached_in(subgraph: &Subgraph, records: &[Record]) -> Vec<u128> {
    records.iter().filter(|record| has_vertex(subgraph, record)).map(|r| r.uuid).collect()
}

#[test]
fn nothing_is_found_beyond_the_budgets() {
    // a chain: 1 <- 2 <- 3 <- 4 <- 5, each a link whose left end is the one before
    let chain = || {
        vec![
            plain(1, 1, 10),
            link(2, 2, 20, 1, 90),
            link(3, 3, 30, 2, 90),
            link(4, 4, 40, 3, 90),
            link(5, 5, 50, 4, 90),
            plain(90, 90, 1),
        ]
    };
    for budget in 0..6u8 {
        let mut store = Store::new(chain());
        let roots = store.roots(&[1]);
        let subgraph = resolve(&mut store, roots, depths(0, budget, 0, 0, 0)).unwrap();
        let expected: Vec<u128> = (1..=u128::from(budget.min(4)) + 1).collect();
        assert_eq!(reached_in(&subgraph, &chain()), expected);
        assert_eq!(subgraph.edge_count(), usize::from(budget.min(4)));
        // for each hop one read for what is found, one for the editions of
        // what was found and one for its vertex; with budget left at the end
        // of the chain, one more read that finds nothing
        let hops = usize::from(budget.min(4));
        assert_eq!(store.reads, 3 * hops + usize::from(budget > 4));
    }
}
