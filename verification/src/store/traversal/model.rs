//! What a traversal is, as a mathematical state machine.
//!
//! A traversal walks the graph depth first from each root. Whenever it needs
//! to know something of the store it stops and asks; the answer moves it on
//! to its next question, or to its end. The functions here say, for every
//! state and every answer, which state comes next.

use crate::identifier::{EntityEditionId, EntityIdAndTimestamp, GraphElementKey, Timestamp};
use crate::knowledge::Entity;
use crate::ontology::{EntityType, OntologyRecord, TypeKey};
use crate::report::Report;
use crate::store::dependency::{visit, DependencyStatus};
use crate::store::error::QueryError;
use crate::store::filter::{Filter, ReadRequestKey};
use crate::subgraph::edges::{
    EdgeDirection, EdgeKey, GraphResolveDepths, OutwardEdge, OutwardEdgeKey, SharedEdgeKind,
};
use crate::subgraph::vertices::{KnowledgeGraphVertex, OntologyVertex};
use crate::subgraph::SubgraphView;
use vstd::prelude::*;

verus! {

/// The answer of the store to one read.
#[derive(Debug)]
pub enum ReadResponse {
    /// The single entity edition that was asked for.
    Entity(Entity),
    /// The entity editions that were asked for.
    Entities(Vec<Entity>),
    /// The edition of the entity type that was asked for.
    EntityType(OntologyRecord<EntityType>),
    /// The read failed.
    Failed(Report<QueryError>),
}

/// An entity whose expansion has begun and is not finished.
pub struct FrameModel {
    /// The edition that is expanded.
    pub edition_id: EntityEditionId,
    /// The budgets it was entered with.
    pub depths: GraphResolveDepths,
    /// The next way of leaving it that has not been considered yet.
    pub cursor: Option<EdgeDirection>,
    /// The way of leaving it that is being followed.
    pub direction: EdgeDirection,
    /// The budgets for what is reached on that way.
    pub onward: GraphResolveDepths,
    /// The editions that were found on that way.
    pub related: Seq<EntityEditionId>,
    /// How many of them have been dealt with.
    pub position: nat,
}

/// What a traversal waits for.
pub enum PendingKey {
    /// Nothing.
    Idle,
    /// The edition at the top of the stack, which the subgraph lacks.
    Vertex,
    /// The edition of an entity type, which the subgraph lacks.
    TypeVertex(TypeKey),
    /// The editions that are found on the way that the top of the stack follows.
    Related,
    /// All editions of the entity that is dealt with at the top of the stack.
    Editions,
}

/// The state of a traversal.
pub struct Model {
    /// What has been gathered.
    pub subgraph: SubgraphView,
    /// The budgets with which entity editions were visited.
    pub knowledge: Map<EntityEditionId, GraphResolveDepths>,
    /// The budgets with which type editions were visited.
    pub ontology: Map<TypeKey, GraphResolveDepths>,
    /// The editions that the query asked for, in the order of the answer.
    pub roots: Seq<EntityEditionId>,
    /// How many of them have been entered.
    pub next_root: nat,
    /// The entities under expansion, the innermost last.
    pub stack: Seq<FrameModel>,
    /// What the traversal waits for.
    pub pending: PendingKey,
    /// What was said about the failure that ended the traversal, if one did.
    pub failure: Option<Seq<Seq<char>>>,
}

/// What is said of an answer that holds something else than was asked for.
pub open spec fn unexpected_answer() -> Seq<char> {
    "the store answered with something that was not asked for"@
}

/// What is said when an entity that was found has no edition at all.
pub open spec fn missing_editions() -> Seq<char> {
    "an entity that was found has no edition"@
}

/// The moment at which the decision time of an edition begins.
pub open spec fn decision_start(entity: Entity) -> Timestamp {
    entity.metadata.edition_id.version.decision_time.start
}

/// The earliest moment at which the decision time of one of `editions`
/// begins. Of no editions it is the epoch.
pub open spec fn earliest_start(editions: Seq<Entity>) -> Timestamp
    decreases editions.len(),
{
    if editions.len() == 0 {
        Timestamp { micros: 0 }
    } else if editions.len() == 1 {
        decision_start(editions[0])
    } else {
        let rest = earliest_start(editions.drop_last());
        if decision_start(editions.last()).micros < rest.micros {
            decision_start(editions.last())
        } else {
            rest
        }
    }
}

/// The identities of the editions in `entities`, in order.
pub open spec fn edition_ids(entities: Seq<Entity>) -> Seq<EntityEditionId> {
    Seq::new(entities.len(), |i: int| entities[i].metadata.edition_id)
}

/// `subgraph` with each of `entities` added as a vertex and as a root.
/// Where two of them are the same edition, the later one is the vertex.
pub open spec fn seeded(subgraph: SubgraphView, entities: Seq<Entity>) -> SubgraphView
    decreases entities.len(),
{
    if entities.len() == 0 {
        subgraph
    } else {
        let before = seeded(subgraph, entities.drop_last());
        let entity = entities.last();
        SubgraphView {
            entities: before.entities.insert(
                entity.metadata.edition_id,
                KnowledgeGraphVertex::Entity(entity),
            ),
            roots: before.roots.insert(GraphElementKey::KnowledgeGraph(entity.metadata.edition_id)),
            ..before
        }
    }
}

/// The edge from an entity edition to its type.
pub open spec fn type_edge(source: EntityEditionId, entity_type: TypeKey) -> EdgeKey {
    EdgeKey {
        edition_id: source,
        outward_edge: OutwardEdgeKey::ToOntology(
            OutwardEdge { kind: SharedEdgeKind::IsOfType, reversed: false, right_endpoint: entity_type },
        ),
    }
}

/// The edge that is recorded for an entity found on the way `direction`
/// from `source`: it names the entity and the earliest moment of its editions.
pub open spec fn link_edge(
    source: EntityEditionId,
    direction: EdgeDirection,
    target: EntityEditionId,
    earliest: Timestamp,
) -> EdgeKey {
    EdgeKey {
        edition_id: source,
        outward_edge: OutwardEdgeKey::ToKnowledgeGraph(
            OutwardEdge {
                kind: direction.link_kind(),
                reversed: direction.is_reversed(),
                right_endpoint: EntityIdAndTimestamp { base_id: target.base_id, timestamp: earliest },
            },
        ),
    }
}

/// How many ways of leaving an entity are still to be considered.
pub open spec fn remaining(cursor: Option<EdgeDirection>) -> nat {
    match cursor {
        Some(direction) => (5 - direction.rank()) as nat,
        None => 0,
    }
}

/// The stack after the entity that its top was dealing with is done.
pub open spec fn bumped(stack: Seq<FrameModel>) -> Seq<FrameModel> {
    if stack.len() == 0 {
        stack
    } else {
        let top = stack.last();
        if top.position < top.related.len() {
            stack.drop_last().push(FrameModel { position: top.position + 1, ..top })
        } else {
            stack
        }
    }
}

/// The frame of an entity whose expansion begins.
pub open spec fn fresh_frame(edition_id: EntityEditionId, depths: GraphResolveDepths) -> FrameModel {
    FrameModel {
        edition_id,
        depths,
        cursor: Some(EdgeDirection::IsOfTypeOutgoing),
        direction: EdgeDirection::IsOfTypeOutgoing,
        onward: depths,
        related: Seq::empty(),
        position: 0,
    }
}

/// The state after the traversal has come to `edition_id` with `depths`.
///
/// The visit is recorded. If an earlier visit covers it, the entity is done
/// at once. Otherwise its expansion begins, and if the subgraph has no
/// vertex for the edition, the traversal first asks for it.
pub open spec fn enter(m: Model, edition_id: EntityEditionId, depths: GraphResolveDepths) -> Model {
    let (knowledge, status) = visit(m.knowledge, edition_id, depths);
    if status == DependencyStatus::Resolved {
        Model { knowledge, stack: bumped(m.stack), ..m }
    } else {
        Model {
            knowledge,
            stack: m.stack.push(fresh_frame(edition_id, depths)),
            pending: if m.subgraph.entities.dom().contains(edition_id) {
                PendingKey::Idle
            } else {
                PendingKey::Vertex
            },
            ..m
        }
    }
}

/// The state after the expansion of the entity at the top of the stack has ended.
pub open spec fn leave(m: Model) -> Model {
    Model { stack: bumped(m.stack.drop_last()), ..m }
}

/// The state after the entity at the top of the stack has been joined to its
/// type: the edge to the type is recorded and the type is visited with one
/// hop less. If the visit is not covered by an earlier one and the subgraph
/// has no vertex for the type, the traversal asks for it.
pub open spec fn classify(m: Model) -> Model {
    let top = m.stack.last();
    if !m.subgraph.entities.dom().contains(top.edition_id) {
        m
    } else {
        let entity = m.subgraph.entities[top.edition_id]->Entity_0;
        let entity_type = entity.metadata.entity_type_id@;
        let (ontology, status) = visit(
            m.ontology,
            entity_type,
            top.depths.after_hop(EdgeDirection::IsOfTypeOutgoing),
        );
        Model {
            subgraph: SubgraphView {
                edges: m.subgraph.edges.insert(type_edge(top.edition_id, entity_type)),
                ..m.subgraph
            },
            ontology,
            pending: if status == DependencyStatus::Unresolved && !m.subgraph.types.dom().contains(
                entity_type,
            ) {
                PendingKey::TypeVertex(entity_type)
            } else {
                PendingKey::Idle
            },
            ..m
        }
    }
}

/// The state in which the traversal next asks something, or its last state.
///
/// The traversal goes on by itself as long as it needs nothing from the
/// store: it enters the next root when no entity is under expansion, deals
/// with the next entity that was found, takes the next way of leaving the
/// entity at the top of the stack for which budget is left, and ends the
/// expansion of that entity when no way is left.
pub open spec fn advance(m: Model) -> Model
    decreases m.roots.len() - m.next_root, m.stack.len(), remaining(
        if m.stack.len() > 0 {
            m.stack.last().cursor
        } else {
            None
        },
    ),
{
    if m.failure is Some || m.pending != PendingKey::Idle {
        m
    } else if m.stack.len() == 0 {
        if m.next_root >= m.roots.len() {
            m
        } else {
            advance(
                enter(
                    Model { next_root: m.next_root + 1, ..m },
                    m.roots[m.next_root as int],
                    m.subgraph.depths,
                ),
            )
        }
    } else {
        let top = m.stack.last();
        if top.position < top.related.len() {
            Model { pending: PendingKey::Editions, ..m }
        } else {
            match top.cursor {
                None => advance(leave(m)),
                Some(direction) => {
                    let moved = FrameModel { cursor: direction.successor(), ..top };
                    if top.depths.budget(direction) == 0 {
                        advance(Model { stack: m.stack.drop_last().push(moved), ..m })
                    } else if direction == EdgeDirection::IsOfTypeOutgoing {
                        advance(classify(Model { stack: m.stack.drop_last().push(moved), ..m }))
                    } else {
                        Model {
                            stack: m.stack.drop_last().push(
                                FrameModel {
                                    direction,
                                    onward: top.depths.after_hop(direction),
                                    related: Seq::empty(),
                                    position: 0,
                                    ..moved
                                },
                            ),
                            pending: PendingKey::Related,
                            ..m
                        }
                    }
                },
            }
        }
    }
}

/// The state in which a query begins, after it has gone as far as it can
/// without asking: `entities`, the answer to the query's own filter, are the
/// roots and the first vertices.
pub open spec fn begin(entities: Seq<Entity>, depths: GraphResolveDepths) -> Model {
    advance(
        Model {
            subgraph: seeded(SubgraphView::empty(depths), entities),
            knowledge: Map::empty(),
            ontology: Map::empty(),
            roots: edition_ids(entities),
            next_root: 0,
            stack: Seq::empty(),
            pending: PendingKey::Idle,
            failure: None,
        },
    )
}

/// The state of a traversal that has failed for the reasons in `chain`.
pub open spec fn failed(m: Model, chain: Seq<Seq<char>>) -> Model {
    Model { failure: Some(chain), ..m }
}

/// What the traversal asks of the store in state `m`, if anything.
pub open spec fn request_of(m: Model) -> Option<ReadRequestKey> {
    if m.failure is Some || m.stack.len() == 0 {
        None
    } else {
        let top = m.stack.last();
        match m.pending {
            PendingKey::Idle => None,
            PendingKey::Vertex => Some(
                ReadRequestKey::Entity(Filter::EntityByEditionId(top.edition_id)),
            ),
            PendingKey::TypeVertex(entity_type) => Some(ReadRequestKey::EntityType(entity_type)),
            PendingKey::Related => match Filter::related(top.direction, top.edition_id) {
                Some(filter) => Some(ReadRequestKey::Entities(filter)),
                None => None,
            },
            PendingKey::Editions => if top.position < top.related.len() {
                Some(
                    ReadRequestKey::Entities(
                        Filter::EntityByEntityId(top.related[top.position as int].base_id),
                    ),
                )
            } else {
                None
            },
        }
    }
}

/// Whether the traversal has ended without a failure.
pub open spec fn is_complete(m: Model) -> bool {
    m.failure is None && m.pending == PendingKey::Idle && m.stack.len() == 0 && m.next_root
        >= m.roots.len()
}

/// Whether `response` is of the kind that the traversal waits for in state `m`.
pub open spec fn fits(m: Model, response: ReadResponse) -> bool {
    match (m.pending, response) {
        (PendingKey::Vertex, ReadResponse::Entity(_)) => true,
        (PendingKey::TypeVertex(_), ReadResponse::EntityType(_)) => true,
        (PendingKey::Related, ReadResponse::Entities(_)) => true,
        (PendingKey::Editions, ReadResponse::Entities(editions)) => editions@.len() > 0,
        _ => false,
    }
}

/// The state `m` with what `response` holds taken in: the vertex that was
/// asked for is added, or the editions that were found are noted, or the
/// edge to the entity whose editions were asked for is added. The edge
/// names that entity and the earliest start of its editions.
pub open spec fn taken_in(m: Model, response: ReadResponse) -> Model {
    let top = m.stack.last();
    match (m.pending, response) {
        (PendingKey::Vertex, ReadResponse::Entity(entity)) => Model {
            subgraph: SubgraphView {
                entities: m.subgraph.entities.insert(
                    top.edition_id,
                    KnowledgeGraphVertex::Entity(entity),
                ),
                ..m.subgraph
            },
            pending: PendingKey::Idle,
            ..m
        },
        (PendingKey::TypeVertex(entity_type), ReadResponse::EntityType(record)) => Model {
            subgraph: SubgraphView {
                types: m.subgraph.types.insert(entity_type, OntologyVertex::EntityType(record)),
                ..m.subgraph
            },
            pending: PendingKey::Idle,
            ..m
        },
        (PendingKey::Related, ReadResponse::Entities(found)) => Model {
            stack: m.stack.drop_last().push(
                FrameModel { related: edition_ids(found@), position: 0, ..top },
            ),
            pending: PendingKey::Idle,
            ..m
        },
        (PendingKey::Editions, ReadResponse::Entities(editions)) => Model {
            subgraph: SubgraphView {
                edges: m.subgraph.edges.insert(
                    link_edge(
                        top.edition_id,
                        top.direction,
                        top.related[top.position as int],
                        earliest_start(editions@),
                    ),
                ),
                ..m.subgraph
            },
            pending: PendingKey::Idle,
            ..m
        },
        _ => m,
    }
}

/// The state after the store has answered the question of state `m` with
/// `response`.
///
/// A failed read ends the traversal with the failure of the read. So does an
/// answer that is not of the kind that was asked for, and an answer without
/// any edition where the editions of an entity that was found were asked
/// for. Where nothing was asked, or the traversal has failed, nothing
/// changes. Otherwise the answer is taken in; after the editions of an
/// entity that was found, the traversal comes to that entity with one hop
/// less; and then it goes on as far as it can.
pub open spec fn resume(m: Model, response: ReadResponse) -> Model {
    if request_of(m) is None {
        m
    } else if response is Failed {
        failed(m, response->Failed_0.chain())
    } else if !fits(m, response) {
        if m.pending == PendingKey::Editions && response is Entities {
            failed(m, seq![missing_editions()])
        } else {
            failed(m, seq![unexpected_answer()])
        }
    } else if m.pending == PendingKey::Editions {
        let top = m.stack.last();
        advance(enter(taken_in(m, response), top.related[top.position as int], top.onward))
    } else {
        advance(taken_in(m, response))
    }
}

} // verus!
