//! The traversal engine: from the roots of a query to its subgraph.
//!
//! The engine never reads the store itself. [`Traversal::start`] takes the
//! entities that the query's filter selected and runs until the engine
//! needs a read; [`Traversal::request`] says which; [`Traversal::resume`]
//! takes the answer and runs on. Whoever owns the connection to the store
//! turns this loop.
//!
//! What the engine does is said once, as a state machine over mathematical
//! values, in [`model`]; the engine is proved to do exactly that. What
//! follows for every traversal is proved of the state machine: in [`laws`]
//! that its states are consistent, in [`coverage`] and [`typed`] that
//! budgets are honoured, in [`within`] that nothing is gathered beyond
//! them, in [`one_way`] that raising the budgets of a query for a single
//! way never loses anything, and in [`work`] that every traversal ends.

pub mod coverage;
pub mod laws;
pub mod model;
pub mod one_way;
pub mod typed;
pub mod within;
pub mod work;

use crate::collections::reversed;
use crate::identifier::{EntityEditionId, EntityIdAndTimestamp, GraphElementEditionId, Timestamp};
use crate::knowledge::Entity;
use crate::ontology::OntologyTypeEditionId;
use crate::report::Report;
use crate::store::dependency::{DependencyContext, DependencyStatus};
use crate::store::error::QueryError;
use crate::store::filter::{Filter, ReadRequest};
use crate::store::traversal::model::{
    advance, begin, bumped, classify, earliest_start, edition_ids, enter, failed, is_complete,
    leave, remaining, request_of, resume, seeded, FrameModel, Model, PendingKey, ReadResponse,
};
use crate::subgraph::edges::{
    Edge, EdgeDirection, GraphResolveDepths, KnowledgeGraphOutwardEdges, OutwardEdge,
    SharedEdgeKind,
};
use crate::subgraph::vertices::{KnowledgeGraphVertex, OntologyVertex};
use crate::subgraph::{Subgraph, SubgraphView};
use vstd::prelude::*;

verus! {

/// An entity whose expansion has begun and is not finished.
#[derive(Debug)]
struct Frame {
    edition_id: EntityEditionId,
    depths: GraphResolveDepths,
    cursor: Option<EdgeDirection>,
    direction: EdgeDirection,
    onward: GraphResolveDepths,
    related: Vec<EntityEditionId>,
    position: usize,
}

impl View for Frame {
    type V = FrameModel;

    closed spec fn view(&self) -> FrameModel {
        FrameModel {
            edition_id: self.edition_id,
            depths: self.depths,
            cursor: self.cursor,
            direction: self.direction,
            onward: self.onward,
            related: self.related@,
            position: self.position as nat,
        }
    }
}

/// What a traversal waits for.
#[derive(Debug)]
enum Pending {
    Idle,
    Vertex,
    TypeVertex(OntologyTypeEditionId),
    Related,
    Editions,
}

impl View for Pending {
    type V = PendingKey;

    closed spec fn view(&self) -> PendingKey {
        match *self {
            Pending::Idle => PendingKey::Idle,
            Pending::Vertex => PendingKey::Vertex,
            Pending::TypeVertex(id) => PendingKey::TypeVertex(id@),
            Pending::Related => PendingKey::Related,
            Pending::Editions => PendingKey::Editions,
        }
    }
}

/// The frames of a stack as the model sees them.
spec fn frames(stack: Seq<Frame>) -> Seq<FrameModel> {
    Seq::new(stack.len(), |i: int| stack[i]@)
}

proof fn lemma_frames_push(stack: Seq<Frame>, frame: Frame)
    ensures
        frames(stack.push(frame)) == frames(stack).push(frame@),
{
    assert(frames(stack.push(frame)) =~= frames(stack).push(frame@));
}

proof fn lemma_frames_drop_last(stack: Seq<Frame>)
    requires
        stack.len() > 0,
    ensures
        frames(stack.drop_last()) == frames(stack).drop_last(),
        frames(stack).last() == stack.last()@,
{
    assert(frames(stack.drop_last()) =~= frames(stack).drop_last());
}

/// The earliest moment at which the decision time of one of `editions`
/// begins, if there is any edition.
pub fn earliest_decision_start(editions: &Vec<Entity>) -> (earliest: Option<Timestamp>)
    ensures
        earliest is None <==> editions@.len() == 0,
        earliest matches Some(moment) ==> moment == earliest_start(editions@),
{
    if editions.len() == 0 {
        return None;
    }
    let mut best = editions[0].metadata.edition_id.version.decision_time.start;
    let mut i: usize = 1;
    assert(editions@.take(1).len() == 1 && editions@.take(1)[0] == editions@[0]);
    while i < editions.len()
        invariant
            1 <= i <= editions@.len(),
            best == earliest_start(editions@.take(i as int)),
        decreases editions@.len() - i,
    {
        let start = editions[i].metadata.edition_id.version.decision_time.start;
        proof {
            let longer = editions@.take(i + 1);
            assert(longer.drop_last() =~= editions@.take(i as int));
            assert(longer.last() == editions@[i as int]);
        }
        if start.micros < best.micros {
            best = start;
        }
        i += 1;
    }
    assert(editions@.take(i as int) =~= editions@);
    Some(best)
}

/// The identities of the editions in `entities`, in order.
fn collect_edition_ids(entities: &Vec<Entity>) -> (ids: Vec<EntityEditionId>)
    ensures
        ids@ == edition_ids(entities@),
{
    let mut ids: Vec<EntityEditionId> = Vec::new();
    let mut i: usize = 0;
    while i < entities.len()
        invariant
            i <= entities@.len(),
            ids@.len() == i,
            forall|j: int| 0 <= j < i ==> ids@[j] == entities@[j].metadata.edition_id,
        decreases entities@.len() - i,
    {
        ids.push(entities[i].metadata.edition_id);
        i += 1;
    }
    assert(ids@ =~= edition_ids(entities@));
    ids
}

/// The resolution of one query, between two reads of the store.
#[derive(Debug)]
pub struct Traversal {
    subgraph: Subgraph,
    context: DependencyContext,
    roots: Vec<EntityEditionId>,
    next_root: usize,
    stack: Vec<Frame>,
    pending: Pending,
    failure: Option<Report<QueryError>>,
}

impl View for Traversal {
    type V = Model;

    closed spec fn view(&self) -> Model {
        Model {
            subgraph: self.subgraph@,
            knowledge: self.context.knowledge_dependency_map@,
            ontology: self.context.ontology_dependency_map@,
            roots: self.roots@,
            next_root: self.next_root as nat,
            stack: frames(self.stack@),
            pending: self.pending@,
            failure: match self.failure {
                Some(report) => Some(report.chain()),
                None => None,
            },
        }
    }
}

impl Traversal {
    /// Begins the resolution of a query.
    ///
    /// `entities` are the editions that the filter of the query selected.
    /// Each becomes a vertex and a root of the subgraph. Then the traversal
    /// enters them in order, each with `graph_resolve_depths`, and runs
    /// until it needs a read or has entered them all.
    pub fn start(entities: Vec<Entity>, graph_resolve_depths: GraphResolveDepths) -> (traversal:
        Traversal)
        ensures
            traversal@ == begin(entities@, graph_resolve_depths),
    {
        let ghost given = entities@;
        let count = entities.len();
        let mut rest = reversed(entities);
        assert forall|j: int| 0 <= j < rest@.len() implies rest@[j] == given[given.len() - 1 - j] by {}
        let mut subgraph = Subgraph::new(graph_resolve_depths);
        let mut roots: Vec<EntityEditionId> = Vec::new();
        while rest.len() > 0
            invariant
                rest@.len() + roots@.len() == given.len(),
                forall|j: int| 0 <= j < rest@.len() ==> rest@[j] == given[given.len() - 1 - j],
                roots@ == edition_ids(given.take(roots@.len() as int)),
                subgraph@ == seeded(
                    SubgraphView::empty(graph_resolve_depths),
                    given.take(roots@.len() as int),
                ),
            decreases rest@.len(),
        {
            let ghost done = roots@.len() as int;
            let entity = rest.pop().unwrap();
            assert(entity == given[done]);
            let edition_id = entity.metadata.edition_id;
            proof {
                let longer = given.take(done + 1);
                assert(longer.drop_last() =~= given.take(done));
                assert(longer.last() == entity);
                assert(edition_ids(longer) =~= edition_ids(given.take(done)).push(edition_id));
            }
            subgraph.insert_entity(edition_id, KnowledgeGraphVertex::Entity(entity));
            subgraph.insert_root(GraphElementEditionId::KnowledgeGraph(edition_id));
            roots.push(edition_id);
        }
        assert(given.take(roots@.len() as int) =~= given);
        let mut traversal = Traversal {
            subgraph,
            context: DependencyContext::new(),
            roots,
            next_root: 0,
            stack: Vec::new(),
            pending: Pending::Idle,
            failure: None,
        };
        assert(traversal@.stack =~= Seq::<FrameModel>::empty());
        traversal.advance();
        traversal
    }

    /// Whether the traversal has failed.
    pub fn has_failed(&self) -> (failed: bool)
        ensures
            failed == self@.failure is Some,
    {
        self.failure.is_some()
    }

    /// Whether the traversal has come to its end without a failure.
    pub fn is_complete(&self) -> (complete: bool)
        ensures
            complete == is_complete(self@),
    {
        self.failure.is_none() && matches!(self.pending, Pending::Idle) && self.stack.len() == 0
            && self.next_root >= self.roots.len()
    }

    /// The read that the traversal needs next, if it needs one.
    pub fn request(&self) -> (request: Option<ReadRequest>)
        ensures
            match request {
                Some(asked) => request_of(self@) == Some(asked@),
                None => request_of(self@) is None,
            },
    {
        if self.failure.is_some() || self.stack.len() == 0 {
            return None;
        }
        let top = &self.stack[self.stack.len() - 1];
        proof {
            lemma_frames_drop_last(self.stack@);
        }
        match &self.pending {
            Pending::Idle => None,
            Pending::Vertex => Some(
                ReadRequest::Entity(Filter::for_entity_by_edition_id(top.edition_id)),
            ),
            Pending::TypeVertex(entity_type) => Some(ReadRequest::EntityType(entity_type.clone())),
            Pending::Related => match Filter::for_direction(top.direction, top.edition_id) {
                Some(filter) => Some(ReadRequest::Entities(filter)),
                None => None,
            },
            Pending::Editions => if top.position < top.related.len() {
                Some(
                    ReadRequest::Entities(
                        Filter::for_entity_by_entity_id(top.related[top.position].base_id),
                    ),
                )
            } else {
                None
            },
        }
    }

    /// Marks the entity that the top of the stack was dealing with as done.
    fn bump(&mut self)
        ensures
            final(self)@ == (Model { stack: bumped(old(self)@.stack), ..old(self)@ }),
    {
        let ghost before = self.stack@;
        match self.stack.pop() {
            None => {
                assert(self.stack@ =~= before);
            },
            Some(top) => {
                let mut top = top;
                proof {
                    lemma_frames_drop_last(before);
                }
                if top.position < top.related.len() {
                    top.position = top.position + 1;
                    proof {
                        lemma_frames_push(before.drop_last(), top);
                    }
                    self.stack.push(top);
                } else {
                    self.stack.push(top);
                    assert(self.stack@ =~= before);
                }
            },
        }
    }

    /// Comes to the entity edition `edition_id` with the budgets `depths`.
    fn traverse_entity(&mut self, edition_id: EntityEditionId, depths: GraphResolveDepths)
        ensures
            final(self)@ == enter(old(self)@, edition_id, depths),
    {
        let status = self.context.knowledge_dependency_map.insert(edition_id, depths);
        match status {
            DependencyStatus::Resolved => {
                self.bump();
            },
            DependencyStatus::Unresolved => {
                let frame = Frame {
                    edition_id,
                    depths,
                    cursor: Some(EdgeDirection::IsOfTypeOutgoing),
                    direction: EdgeDirection::IsOfTypeOutgoing,
                    onward: depths,
                    related: Vec::new(),
                    position: 0,
                };
                proof {
                    lemma_frames_push(self.stack@, frame);
                }
                self.stack.push(frame);
                if !self.subgraph.contains_entity(&edition_id) {
                    self.pending = Pending::Vertex;
                } else {
                    self.pending = Pending::Idle;
                }
            },
        }
    }

    /// Joins the entity at the top of the stack to its type and comes to
    /// that type with one hop less.
    fn traverse_entity_type(&mut self)
        requires
            old(self)@.stack.len() > 0,
            old(self)@.stack.last().depths.budget(EdgeDirection::IsOfTypeOutgoing) > 0,
        ensures
            final(self)@ == classify(old(self)@),
    {
        proof {
            lemma_frames_drop_last(self.stack@);
        }
        let source = self.stack[self.stack.len() - 1].edition_id;
        let depths = self.stack[self.stack.len() - 1].depths;
        let entity_type = match self.subgraph.entity(&source) {
            Some(KnowledgeGraphVertex::Entity(entity)) => OntologyTypeEditionId::from_uri(
                &entity.metadata.entity_type_id,
            ),
            None => {
                return ;
            },
        };
        self.subgraph.insert_edge(
            Edge::KnowledgeGraph {
                edition_id: source,
                outward_edge: KnowledgeGraphOutwardEdges::ToOntology(
                    OutwardEdge {
                        kind: SharedEdgeKind::IsOfType,
                        reversed: false,
                        right_endpoint: entity_type.clone(),
                    },
                ),
            },
        );
        let status = self.context.ontology_dependency_map.insert(
            entity_type.clone(),
            depths.decrement(EdgeDirection::IsOfTypeOutgoing),
        );
        let missing = !self.subgraph.contains_type(&entity_type);
        match status {
            DependencyStatus::Unresolved => {
                if missing {
                    self.pending = Pending::TypeVertex(entity_type);
                } else {
                    self.pending = Pending::Idle;
                }
            },
            DependencyStatus::Resolved => {
                self.pending = Pending::Idle;
            },
        }
    }

    /// Runs until the traversal needs a read or has come to its end.
    fn advance(&mut self)
        ensures
            final(self)@ == advance(old(self)@),
    {
        let ghost start = self@;
        loop
            invariant
                advance(self@) == advance(start),
            ensures
                self@ == advance(start),
            decreases
                    self@.roots.len() - self@.next_root,
                    self@.stack.len(),
                    remaining(
                        if self@.stack.len() > 0 {
                            self@.stack.last().cursor
                        } else {
                            None
                        },
                    ),
        {
            if self.failure.is_some() || !matches!(self.pending, Pending::Idle) {
                break ;
            }
            if self.stack.len() == 0 {
                if self.next_root >= self.roots.len() {
                    break ;
                }
                let root = self.roots[self.next_root];
                self.next_root = self.next_root + 1;
                let depths = self.subgraph.depths();
                self.traverse_entity(root, depths);
            } else {
                let ghost before = self@;
                let ghost stack_before = self.stack@;
                proof {
                    lemma_frames_drop_last(stack_before);
                }
                let mut top = self.stack.pop().unwrap();
                if top.position < top.related.len() {
                    self.stack.push(top);
                    assert(self.stack@ =~= stack_before);
                    self.pending = Pending::Editions;
                    break ;
                }
                match top.cursor {
                    None => {
                        assert(self@ == (Model { stack: before.stack.drop_last(), ..before }));
                        self.bump();
                        assert(self@ == leave(before));
                    },
                    Some(direction) => {
                        top.cursor = direction.next();
                        if top.depths.depth(direction) == 0 {
                            proof {
                                lemma_frames_push(stack_before.drop_last(), top);
                            }
                            self.stack.push(top);
                        } else if matches!(direction, EdgeDirection::IsOfTypeOutgoing) {
                            proof {
                                lemma_frames_push(stack_before.drop_last(), top);
                            }
                            self.stack.push(top);
                            self.traverse_entity_type();
                        } else {
                            top.direction = direction;
                            top.onward = top.depths.decrement(direction);
                            top.related = Vec::new();
                            top.position = 0;
                            proof {
                                lemma_frames_push(stack_before.drop_last(), top);
                            }
                            self.stack.push(top);
                            self.pending = Pending::Related;
                            break ;
                        }
                    },
                }
            }
        }
    }

    /// Ends the traversal with a failure about which `text` is said.
    fn fail_with(&mut self, text: &'static str)
        requires
            old(self)@.failure is None,
        ensures
            final(self)@ == failed(old(self)@, seq![text@]),
    {
        let report = Report::new(QueryError).attach(text);
        assert(report.chain() =~= seq![text@]);
        self.failure = Some(report);
    }

    /// Takes the answer of the store to the read that the traversal asked
    /// for, and runs until the traversal needs the next read or has come to
    /// its end.
    pub fn resume(&mut self, response: ReadResponse)
        ensures
            final(self)@ == resume(old(self)@, response),
    {
        let asked = self.request();
        if asked.is_none() {
            return ;
        }
        proof {
            lemma_frames_drop_last(self.stack@);
        }
        let ghost before = self@;
        let ghost stack_before = self.stack@;
        let mut pending = Pending::Idle;
        core::mem::swap(&mut self.pending, &mut pending);
        match (pending, response) {
            (other, ReadResponse::Failed(report)) => {
                self.pending = other;
                self.failure = Some(report);
            },
            (Pending::Vertex, ReadResponse::Entity(entity)) => {
                let edition_id = self.stack[self.stack.len() - 1].edition_id;
                self.subgraph.insert_entity(edition_id, KnowledgeGraphVertex::Entity(entity));
                self.advance();
            },
            (Pending::TypeVertex(entity_type), ReadResponse::EntityType(record)) => {
                self.subgraph.insert_type(entity_type, OntologyVertex::EntityType(record));
                self.advance();
            },
            (Pending::Related, ReadResponse::Entities(found)) => {
                let mut top = self.stack.pop().unwrap();
                top.related = collect_edition_ids(&found);
                top.position = 0;
                proof {
                    lemma_frames_push(stack_before.drop_last(), top);
                }
                self.stack.push(top);
                self.advance();
            },
            (Pending::Editions, ReadResponse::Entities(editions)) => {
                match earliest_decision_start(&editions) {
                    None => {
                        self.pending = Pending::Editions;
                        self.fail_with("an entity that was found has no edition");
                    },
                    Some(earliest) => {
                        let top = &self.stack[self.stack.len() - 1];
                        let source = top.edition_id;
                        let direction = top.direction;
                        let onward = top.onward;
                        let target = top.related[top.position];
                        self.subgraph.insert_edge(
                            Edge::KnowledgeGraph {
                                edition_id: source,
                                outward_edge: KnowledgeGraphOutwardEdges::ToKnowledgeGraph(
                                    OutwardEdge {
                                        kind: direction.kind(),
                                        reversed: direction.reversed(),
                                        right_endpoint: EntityIdAndTimestamp::new(
                                            target.base_id,
                                            earliest,
                                        ),
                                    },
                                ),
                            },
                        );
                        self.traverse_entity(target, onward);
                        self.advance();
                    },
                }
            },
            (other, _) => {
                self.pending = other;
                self.fail_with("the store answered with something that was not asked for");
            },
        }
    }

    /// The subgraph as far as it has been gathered.
    pub fn subgraph(&self) -> (subgraph: &Subgraph)
        ensures
            subgraph@ == self@.subgraph,
    {
        &self.subgraph
    }

    /// Ends the traversal: the subgraph of a traversal that has come to its
    /// end, the failure of one that has failed. Of a traversal that still
    /// waits for a read nothing is returned.
    pub fn finish(self) -> (outcome: Option<Result<Subgraph, Report<QueryError>>>)
        ensures
            match outcome {
                Some(Ok(subgraph)) => is_complete(self@) && subgraph@ == self@.subgraph,
                Some(Err(report)) => self@.failure == Some(report.chain()),
                None => self@.failure is None && !is_complete(self@),
            },
    {
        let complete = self.is_complete();
        let Traversal { subgraph, failure, .. } = self;
        match failure {
            Some(report) => Some(Err(report)),
            None => if complete {
                Some(Ok(subgraph))
            } else {
                None
            },
        }
    }
}

} // verus!
