//! How a traversal joins entities to their types.
//!
//! A hop between entities never uses up budget for the way to the type. So
//! where a query has budget for that way, every entity that the traversal
//! comes to is joined to its type: in a complete subgraph each of them has
//! its edge to its type, and the type is a vertex.

use crate::identifier::{EntityEditionId, GraphElementKey};
use crate::knowledge::Entity;
use crate::ontology::TypeKey;
use crate::store::dependency::{visit, DependencyStatus};
use crate::store::filter::ReadRequestKey;
use crate::store::traversal::coverage::{answered_by, lemma_every_state_is_faithful};
use crate::store::traversal::laws::{
    after, awaits_vertex, consistent, extends, lemma_advance_adds_edges_only,
    lemma_resume_adds_what_it_takes_in, lemma_classify, lemma_enter,
    lemma_every_state_is_consistent, lemma_extends_is_transitive, lemma_leave, lemma_resume,
    lemma_retop, lemma_seeded, lemma_seeded_model, lemma_seeds_do_not_depend_on_budgets,
    lemma_take_way, lemma_taken_in, seeded_model,
};
use crate::store::traversal::model::{
    advance, begin, classify, enter, fits, fresh_frame, is_complete, leave, remaining, request_of,
    resume, taken_in, type_edge, FrameModel, Model, PendingKey, ReadResponse,
};
use crate::store::traversal::one_way::only;
use crate::subgraph::edges::{EdgeDirection, EdgeKey, GraphResolveDepths};
use crate::subgraph::vertices::KnowledgeGraphVertex;
use crate::subgraph::SubgraphView;
use vstd::prelude::*;

verus! {

/// What identifies the type of the entity of a vertex.
pub open spec fn type_key_of(vertex: KnowledgeGraphVertex) -> TypeKey {
    vertex->Entity_0.metadata.entity_type_id@
}

/// Whether the entity edition `edition_id` has been joined to its type: it
/// has a vertex, the subgraph holds the edge from it to its type, and the
/// traversal has come to the type.
pub open spec fn classified(m: Model, edition_id: EntityEditionId) -> bool {
    &&& m.subgraph.entities.dom().contains(edition_id)
    &&& m.subgraph.edges.contains(
        type_edge(edition_id, type_key_of(m.subgraph.entities[edition_id])),
    )
    &&& m.ontology.dom().contains(type_key_of(m.subgraph.entities[edition_id]))
}

/// Whether the entity edition `edition_id` is under expansion and has not
/// been joined to its type yet.
pub open spec fn to_be_classified(m: Model, edition_id: EntityEditionId) -> bool {
    exists|i: int|
        0 <= i < m.stack.len() && (#[trigger] m.stack[i]).edition_id == edition_id
            && m.stack[i].cursor == Some(EdgeDirection::IsOfTypeOutgoing)
}

/// What holds of every state of a query that has budget for the way to the
/// type: every entity under expansion has all of that budget, every entity
/// that the traversal has come to is joined to its type or will be, and
/// every type that it has come to has a vertex or is asked for.
pub open spec fn typed(m: Model) -> bool {
    &&& m.subgraph.depths.is_of_type.outgoing > 0
    &&& forall|i: int|
        0 <= i < m.stack.len() ==> (#[trigger] m.stack[i]).depths.is_of_type
            == m.subgraph.depths.is_of_type && m.stack[i].onward.is_of_type
            == m.subgraph.depths.is_of_type
    &&& forall|id: EntityEditionId| #[trigger]
        m.knowledge.dom().contains(id) ==> classified(m, id) || to_be_classified(m, id)
    &&& forall|key: TypeKey| #[trigger]
        m.ontology.dom().contains(key) ==> m.subgraph.types.dom().contains(key) || m.pending
            == PendingKey::TypeVertex(key)
}

/// Who is joined to its type stays so in a state that holds everything the
/// earlier state held and has come to every type that it had come to.
proof fn lemma_classified_stays(later: Model, earlier: Model, edition_id: EntityEditionId)
    requires
        extends(later, earlier),
        earlier.ontology.dom().subset_of(later.ontology.dom()),
        classified(earlier, edition_id),
    ensures
        classified(later, edition_id),
{
    assert(earlier.subgraph.entities.submap_of(later.subgraph.entities));
    assert(later.subgraph.entities.dom().contains(edition_id));
    assert(later.subgraph.entities[edition_id] == earlier.subgraph.entities[edition_id]);
}

/// A state that differs from a typed one in nothing that joining to types
/// depends on is typed.
proof fn lemma_typed_stays(later: Model, earlier: Model)
    requires
        typed(earlier),
        extends(later, earlier),
        later.knowledge == earlier.knowledge,
        later.ontology == earlier.ontology,
        later.subgraph.types.dom() == earlier.subgraph.types.dom(),
        later.pending == earlier.pending || !(earlier.pending is TypeVertex),
        forall|i: int|
            0 <= i < later.stack.len() ==> i < earlier.stack.len() && (
            #[trigger] later.stack[i]).depths == earlier.stack[i].depths && later.stack[i].onward.is_of_type
                == earlier.stack[i].onward.is_of_type,
        forall|i: int|
            0 <= i < earlier.stack.len() && (#[trigger] earlier.stack[i]).cursor == Some(
                EdgeDirection::IsOfTypeOutgoing,
            ) ==> i < later.stack.len() && later.stack[i].edition_id == earlier.stack[i].edition_id
                && later.stack[i].cursor == earlier.stack[i].cursor,
    ensures
        typed(later),
{
    assert forall|id: EntityEditionId| #[trigger]
        later.knowledge.dom().contains(id) implies classified(later, id) || to_be_classified(
        later,
        id,
    ) by {
        if classified(earlier, id) {
            lemma_classified_stays(later, earlier, id);
        } else {
            let i = choose|i: int|
                0 <= i < earlier.stack.len() && (#[trigger] earlier.stack[i]).edition_id == id
                    && earlier.stack[i].cursor == Some(EdgeDirection::IsOfTypeOutgoing);
            assert(later.stack[i].edition_id == id);
        }
    }
}

/// Coming to an entity keeps the state typed.
proof fn lemma_enter_typed(m: Model, edition_id: EntityEditionId, depths: GraphResolveDepths)
    requires
        consistent(m),
        typed(m),
        m.pending == PendingKey::Idle,
        if m.stack.len() == 0 {
            depths == m.subgraph.depths
        } else {
            let top = m.stack.last();
            &&& top.position < top.related.len()
            &&& edition_id == top.related[top.position as int]
            &&& depths == top.onward
        },
    ensures
        typed(enter(m, edition_id, depths)),
{
    let next = enter(m, edition_id, depths);
    lemma_enter(m, edition_id, depths);
    let (knowledge, status) = visit(m.knowledge, edition_id, depths);
    if status == DependencyStatus::Resolved {
        if m.stack.len() > 0 {
            let top = m.stack.last();
            assert(next.stack == m.stack.drop_last().push(
                FrameModel { position: top.position + 1, ..top },
            ));
        } else {
            assert(next.stack =~= m.stack);
        }
        lemma_typed_stays(next, m);
    } else {
        let fresh = fresh_frame(edition_id, depths);
        assert(next.stack == m.stack.push(fresh));
        assert forall|i: int| 0 <= i < next.stack.len() implies (
        #[trigger] next.stack[i]).depths.is_of_type == next.subgraph.depths.is_of_type
            && next.stack[i].onward.is_of_type == next.subgraph.depths.is_of_type by {
            if i < m.stack.len() {
                assert(next.stack[i] == m.stack[i]);
            } else if m.stack.len() > 0 {
                assert(m.stack[m.stack.len() - 1].onward.is_of_type
                    == m.subgraph.depths.is_of_type);
            }
        }
        assert forall|id: EntityEditionId| #[trigger]
            next.knowledge.dom().contains(id) implies classified(next, id) || to_be_classified(
            next,
            id,
        ) by {
            if id == edition_id {
                assert(next.stack[m.stack.len() as int].edition_id == id);
            } else if classified(m, id) {
                lemma_classified_stays(next, m, id);
            } else {
                let i = choose|i: int|
                    0 <= i < m.stack.len() && (#[trigger] m.stack[i]).edition_id == id
                        && m.stack[i].cursor == Some(EdgeDirection::IsOfTypeOutgoing);
                assert(next.stack[i] == m.stack[i]);
            }
        }
    }
}

/// Joining the entity at the top of the stack to its type keeps the state
/// typed, where the way to the type was the next to be considered.
proof fn lemma_classify_typed(m: Model)
    requires
        consistent(m),
        typed(m),
        m.pending == PendingKey::Idle,
        m.stack.len() > 0,
        m.stack.last().cursor == Some(EdgeDirection::IsOfTypeOutgoing),
    ensures
        ({
            let top = m.stack.last();
            let moved = FrameModel {
                cursor: EdgeDirection::IsOfTypeOutgoing.successor(),
                ..top
            };
            let turned = Model { stack: m.stack.drop_last().push(moved), ..m };
            typed(classify(turned))
        }),
{
    let top = m.stack.last();
    let last = m.stack.len() - 1;
    let moved = FrameModel { cursor: EdgeDirection::IsOfTypeOutgoing.successor(), ..top };
    let turned = Model { stack: m.stack.drop_last().push(moved), ..m };
    let next = classify(turned);
    lemma_retop(m, moved);
    lemma_classify(turned);
    lemma_extends_is_transitive(next, turned, m);
    assert(!awaits_vertex(m, last));
    assert(m.subgraph.entities.dom().contains(top.edition_id));
    assert(turned.stack.last() == moved);
    assert(next.stack == turned.stack);
    assert forall|i: int| 0 <= i < next.stack.len() implies (
    #[trigger] next.stack[i]).depths.is_of_type == next.subgraph.depths.is_of_type
        && next.stack[i].onward.is_of_type == next.subgraph.depths.is_of_type by {
        if i < last {
            assert(next.stack[i] == m.stack[i]);
        } else {
            assert(next.stack[i] == moved);
        }
    }
    assert(classified(next, top.edition_id));
    assert forall|id: EntityEditionId| #[trigger]
        next.knowledge.dom().contains(id) implies classified(next, id) || to_be_classified(
        next,
        id,
    ) by {
        if id == top.edition_id {
        } else if classified(m, id) {
            lemma_classified_stays(next, m, id);
        } else {
            let i = choose|i: int|
                0 <= i < m.stack.len() && (#[trigger] m.stack[i]).edition_id == id
                    && m.stack[i].cursor == Some(EdgeDirection::IsOfTypeOutgoing);
            assert(i < last);
            assert(next.stack[i] == m.stack[i]);
        }
    }
}

/// Going on without the store keeps the state typed.
pub proof fn lemma_advance_typed(m: Model)
    requires
        consistent(m),
        typed(m),
    ensures
        typed(advance(m)),
    decreases m.roots.len() - m.next_root, m.stack.len(), remaining(
        if m.stack.len() > 0 {
            m.stack.last().cursor
        } else {
            None
        },
    ),
{
    if m.failure is Some || m.pending != PendingKey::Idle {
    } else if m.stack.len() == 0 {
        if m.next_root < m.roots.len() {
            let taken = Model { next_root: m.next_root + 1, ..m };
            let root = m.roots[m.next_root as int];
            lemma_typed_stays(taken, m);
            lemma_enter(taken, root, m.subgraph.depths);
            lemma_enter_typed(taken, root, m.subgraph.depths);
            lemma_advance_typed(enter(taken, root, m.subgraph.depths));
        }
    } else {
        let top = m.stack.last();
        let last = m.stack.len() - 1;
        if top.position < top.related.len() {
            lemma_typed_stays(Model { pending: PendingKey::Editions, ..m }, m);
        } else {
            match top.cursor {
                None => {
                    lemma_leave(m);
                    let rest = m.stack.drop_last();
                    assert forall|i: int| 0 <= i < leave(m).stack.len() implies (
                    #[trigger] leave(m).stack[i]).depths == m.stack[i].depths
                        && leave(m).stack[i].onward == m.stack[i].onward && leave(
                        m,
                    ).stack[i].edition_id == m.stack[i].edition_id && leave(m).stack[i].cursor
                        == m.stack[i].cursor by {
                        assert(rest[i] == m.stack[i]);
                    }
                    lemma_typed_stays(leave(m), m);
                    lemma_advance_typed(leave(m));
                },
                Some(direction) => {
                    let moved = FrameModel { cursor: direction.successor(), ..top };
                    let turned = Model { stack: m.stack.drop_last().push(moved), ..m };
                    assert forall|i: int| 0 <= i < turned.stack.len() - 1 implies #[trigger] turned.stack[i]
                        == m.stack[i] by {}
                    assert(turned.stack[last] == moved);
                    if top.depths.budget(direction) == 0 {
                        lemma_retop(m, moved);
                        lemma_typed_stays(turned, m);
                        lemma_advance_typed(turned);
                    } else if direction == EdgeDirection::IsOfTypeOutgoing {
                        lemma_retop(m, moved);
                        lemma_classify(turned);
                        lemma_classify_typed(m);
                        lemma_advance_typed(classify(turned));
                    } else {
                        let taken = Model {
                            stack: m.stack.drop_last().push(
                                FrameModel {
                                    direction,
                                    onward: top.depths.after_hop(direction),
                                    related: Seq::empty(),
                                    position: 0,
                                    ..moved
                                },
                            ),
                            pending: PendingKey::Related,
                            ..m
                        };
                        lemma_take_way(m, direction);
                        assert forall|i: int| 0 <= i < taken.stack.len() - 1 implies #[trigger] taken.stack[i]
                            == m.stack[i] by {}
                        lemma_typed_stays(taken, m);
                    }
                },
            }
        }
    }
}

/// An answer of the store keeps the state typed.
pub proof fn lemma_resume_typed(m: Model, response: ReadResponse)
    requires
        consistent(m),
        typed(m),
    ensures
        typed(resume(m, response)),
{
    if request_of(m) is None {
    } else if response is Failed || !fits(m, response) {
        lemma_resume(m, response);
        lemma_typed_stays(resume(m, response), m);
    } else {
        let next = taken_in(m, response);
        let top = m.stack.last();
        let last = m.stack.len() - 1;
        lemma_taken_in(m, response);
        if m.pending is TypeVertex {
            assert forall|id: EntityEditionId| #[trigger]
                next.knowledge.dom().contains(id) implies classified(next, id) || to_be_classified(
                next,
                id,
            ) by {
                if classified(m, id) {
                    lemma_classified_stays(next, m, id);
                } else {
                    let i = choose|i: int|
                        0 <= i < m.stack.len() && (#[trigger] m.stack[i]).edition_id == id
                            && m.stack[i].cursor == Some(EdgeDirection::IsOfTypeOutgoing);
                    assert(next.stack[i] == m.stack[i]);
                }
            }
        } else {
            if m.pending == PendingKey::Related {
                assert forall|i: int| 0 <= i < next.stack.len() - 1 implies #[trigger] next.stack[i]
                    == m.stack[i] by {}
            }
            lemma_typed_stays(next, m);
        }
        if m.pending == PendingKey::Editions {
            let target = top.related[top.position as int];
            lemma_enter(next, target, top.onward);
            lemma_enter_typed(next, target, top.onward);
            lemma_advance_typed(enter(next, target, top.onward));
        } else {
            lemma_advance_typed(next);
        }
    }
}

/// Every state of a query that has budget for the way to the type is typed.
pub proof fn lemma_every_state_is_typed(
    entities: Seq<Entity>,
    depths: GraphResolveDepths,
    responses: Seq<ReadResponse>,
)
    requires
        depths.is_of_type.outgoing > 0,
    ensures
        typed(after(begin(entities, depths), responses)),
    decreases responses.len(),
{
    if responses.len() == 0 {
        let seeds = seeded_model(entities, depths);
        lemma_seeded_model(entities, depths);
        lemma_seeded(SubgraphView::empty(depths), entities);
        assert(typed(seeds));
        lemma_advance_typed(seeds);
    } else {
        lemma_every_state_is_typed(entities, depths, responses.drop_last());
        lemma_every_state_is_consistent(entities, depths, responses.drop_last());
        lemma_resume_typed(after(begin(entities, depths), responses.drop_last()), responses.last());
    }
}

/// In a complete subgraph of a query that has budget for the way to the
/// type, every entity that the traversal has come to is joined to its type:
/// the subgraph holds its vertex, the edge from it to its type, and the
/// vertex of the type.
pub proof fn lemma_every_entity_is_classified(
    entities: Seq<Entity>,
    depths: GraphResolveDepths,
    responses: Seq<ReadResponse>,
    edition_id: EntityEditionId,
)
    requires
        depths.is_of_type.outgoing > 0,
        is_complete(after(begin(entities, depths), responses)),
        after(begin(entities, depths), responses).knowledge.dom().contains(edition_id),
    ensures
        ({
            let end = after(begin(entities, depths), responses);
            &&& end.subgraph.entities.dom().contains(edition_id)
            &&& end.subgraph.edges.contains(
                type_edge(edition_id, type_key_of(end.subgraph.entities[edition_id])),
            )
            &&& end.subgraph.types.dom().contains(
                type_key_of(end.subgraph.entities[edition_id]),
            )
        }),
{
    let end = after(begin(entities, depths), responses);
    lemma_every_state_is_typed(entities, depths, responses);
    assert(!to_be_classified(end, edition_id));
    assert(classified(end, edition_id));
}

/// Whether `id` is a root with a vertex, and `key` identifies its type.
pub open spec fn root_of_type(m: Model, id: EntityEditionId, key: TypeKey) -> bool {
    &&& m.roots.contains(id)
    &&& m.subgraph.entities.dom().contains(id)
    &&& key == type_key_of(m.subgraph.entities[id])
}

/// What holds of every state of a query that has no budget for any way
/// between entities: nothing is gathered but the roots, the edges from
/// roots to their types, and those types.
pub open spec fn rooted(m: Model, vertices: Map<EntityEditionId, KnowledgeGraphVertex>) -> bool {
    &&& forall|way: EdgeDirection|
        way != EdgeDirection::IsOfTypeOutgoing ==> #[trigger] m.subgraph.depths.budget(way) == 0
    &&& m.subgraph.entities == vertices
    &&& m.pending == PendingKey::Idle || m.pending is TypeVertex
    &&& forall|i: int|
        0 <= i < m.stack.len() ==> (#[trigger] m.stack[i]).depths == m.subgraph.depths
            && m.stack[i].related.len() == 0 && m.roots.contains(m.stack[i].edition_id)
    &&& forall|id: EntityEditionId| #[trigger]
        m.subgraph.entities.dom().contains(id) ==> m.roots.contains(id)
    &&& forall|edge: EdgeKey| #[trigger]
        m.subgraph.edges.contains(edge) ==> exists|id: EntityEditionId|
            #[trigger] root_of_type(m, id, edge.outward_edge->ToOntology_0.right_endpoint) && edge
                == type_edge(id, type_key_of(m.subgraph.entities[id]))
    &&& forall|key: TypeKey| #[trigger]
        m.subgraph.types.dom().contains(key) ==> exists|id: EntityEditionId| #[trigger]
            root_of_type(m, id, key)
    &&& m.pending is TypeVertex ==> exists|id: EntityEditionId| #[trigger]
        root_of_type(m, id, m.pending->TypeVertex_0)
}

/// A state that has the subgraph of a rooted state, and frames of it, is rooted.
proof fn lemma_rooted_stays(
    later: Model,
    earlier: Model,
    vertices: Map<EntityEditionId, KnowledgeGraphVertex>,
)
    requires
        rooted(earlier, vertices),
        later.subgraph == earlier.subgraph,
        later.roots == earlier.roots,
        later.pending == earlier.pending,
        forall|i: int|
            0 <= i < later.stack.len() ==> i < earlier.stack.len() && (
            #[trigger] later.stack[i]).depths == earlier.stack[i].depths
                && later.stack[i].related == earlier.stack[i].related
                && later.stack[i].edition_id == earlier.stack[i].edition_id,
    ensures
        rooted(later, vertices),
{
    assert forall|edge: EdgeKey| #[trigger]
        later.subgraph.edges.contains(edge) implies exists|id: EntityEditionId|
        #[trigger] root_of_type(later, id, edge.outward_edge->ToOntology_0.right_endpoint) && edge
            == type_edge(id, type_key_of(later.subgraph.entities[id])) by {
        let id = choose|id: EntityEditionId|
            #[trigger] root_of_type(earlier, id, edge.outward_edge->ToOntology_0.right_endpoint)
                && edge == type_edge(id, type_key_of(earlier.subgraph.entities[id]));
        assert(root_of_type(later, id, edge.outward_edge->ToOntology_0.right_endpoint));
    }
    assert forall|key: TypeKey| #[trigger]
        later.subgraph.types.dom().contains(key) implies exists|id: EntityEditionId| #[trigger]
        root_of_type(later, id, key) by {
        let id = choose|id: EntityEditionId| #[trigger] root_of_type(earlier, id, key);
        assert(root_of_type(later, id, key));
    }
    if later.pending is TypeVertex {
        let key = later.pending->TypeVertex_0;
        let id = choose|id: EntityEditionId| #[trigger] root_of_type(earlier, id, key);
        assert(root_of_type(later, id, key));
    }
}

/// Going on without the store keeps the state rooted.
proof fn lemma_advance_rooted(m: Model, vertices: Map<EntityEditionId, KnowledgeGraphVertex>)
    requires
        consistent(m),
        rooted(m, vertices),
    ensures
        rooted(advance(m), vertices),
    decreases m.roots.len() - m.next_root, m.stack.len(), remaining(
        if m.stack.len() > 0 {
            m.stack.last().cursor
        } else {
            None
        },
    ),
{
    if m.failure is Some || m.pending != PendingKey::Idle {
    } else if m.stack.len() == 0 {
        if m.next_root < m.roots.len() {
            let taken = Model { next_root: m.next_root + 1, ..m };
            let root = m.roots[m.next_root as int];
            let entered = enter(taken, root, m.subgraph.depths);
            lemma_rooted_stays(taken, m, vertices);
            lemma_enter(taken, root, m.subgraph.depths);
            assert(m.subgraph.entities.dom().contains(root));
            let (knowledge, status) = visit(m.knowledge, root, m.subgraph.depths);
            if status == DependencyStatus::Resolved {
                assert(entered.stack =~= m.stack);
            } else {
                assert(entered.stack == m.stack.push(fresh_frame(root, m.subgraph.depths)));
                assert(entered.pending == PendingKey::Idle);
            }
            lemma_rooted_bridge(entered, taken, vertices);
            lemma_advance_rooted(entered, vertices);
        }
    } else {
        let top = m.stack.last();
        let last = m.stack.len() - 1;
        assert(m.stack[last].related.len() == 0);
        match top.cursor {
            None => {
                lemma_leave(m);
                let rest = m.stack.drop_last();
                assert forall|i: int| 0 <= i < leave(m).stack.len() implies i < m.stack.len() && (
                #[trigger] leave(m).stack[i]).depths == m.stack[i].depths && leave(
                    m,
                ).stack[i].related == m.stack[i].related && leave(m).stack[i].edition_id
                    == m.stack[i].edition_id by {
                    assert(rest[i] == m.stack[i]);
                }
                lemma_rooted_stays(leave(m), m, vertices);
                lemma_advance_rooted(leave(m), vertices);
            },
            Some(direction) => {
                let moved = FrameModel { cursor: direction.successor(), ..top };
                let turned = Model { stack: m.stack.drop_last().push(moved), ..m };
                assert forall|i: int| 0 <= i < turned.stack.len() - 1 implies #[trigger] turned.stack[i]
                    == m.stack[i] by {}
                assert(turned.stack[last] == moved);
                lemma_retop(m, moved);
                lemma_rooted_stays(turned, m, vertices);
                if top.depths.budget(direction) == 0 {
                    lemma_advance_rooted(turned, vertices);
                } else {
                    assert(direction == EdgeDirection::IsOfTypeOutgoing);
                    let next = classify(turned);
                    lemma_classify(turned);
                    assert(!awaits_vertex(turned, last));
                    assert(turned.subgraph.entities.dom().contains(moved.edition_id));
                    let key = type_key_of(turned.subgraph.entities[moved.edition_id]);
                    assert(root_of_type(next, moved.edition_id, key));
                    assert forall|edge: EdgeKey| #[trigger]
                        next.subgraph.edges.contains(edge) implies exists|id: EntityEditionId|
                        #[trigger] root_of_type(
                            next,
                            id,
                            edge.outward_edge->ToOntology_0.right_endpoint,
                        ) && edge == type_edge(id, type_key_of(next.subgraph.entities[id])) by {
                        if edge == type_edge(moved.edition_id, key) {
                            assert(root_of_type(
                                next,
                                moved.edition_id,
                                edge.outward_edge->ToOntology_0.right_endpoint,
                            ));
                        } else {
                            let id = choose|id: EntityEditionId|
                                #[trigger] root_of_type(
                                    turned,
                                    id,
                                    edge.outward_edge->ToOntology_0.right_endpoint,
                                ) && edge == type_edge(
                                    id,
                                    type_key_of(turned.subgraph.entities[id]),
                                );
                            assert(root_of_type(
                                next,
                                id,
                                edge.outward_edge->ToOntology_0.right_endpoint,
                            ));
                        }
                    }
                    assert forall|other: TypeKey| #[trigger]
                        next.subgraph.types.dom().contains(other) implies exists|
                        id: EntityEditionId,
                    | #[trigger] root_of_type(next, id, other) by {
                        let id = choose|id: EntityEditionId| #[trigger]
                            root_of_type(turned, id, other);
                        assert(root_of_type(next, id, other));
                    }
                    lemma_advance_rooted(next, vertices);
                }
            },
        }
    }
}

/// A state that has the subgraph of a rooted state and whose frames are
/// those of a root without editions found is rooted.
proof fn lemma_rooted_bridge(
    later: Model,
    earlier: Model,
    vertices: Map<EntityEditionId, KnowledgeGraphVertex>,
)
    requires
        rooted(earlier, vertices),
        later.subgraph == earlier.subgraph,
        later.roots == earlier.roots,
        later.pending == earlier.pending,
        forall|i: int|
            0 <= i < later.stack.len() ==> (#[trigger] later.stack[i]).depths
                == later.subgraph.depths && later.stack[i].related.len() == 0
                && later.roots.contains(later.stack[i].edition_id),
    ensures
        rooted(later, vertices),
{
    assert forall|edge: EdgeKey| #[trigger]
        later.subgraph.edges.contains(edge) implies exists|id: EntityEditionId|
        #[trigger] root_of_type(later, id, edge.outward_edge->ToOntology_0.right_endpoint) && edge
            == type_edge(id, type_key_of(later.subgraph.entities[id])) by {
        let id = choose|id: EntityEditionId|
            #[trigger] root_of_type(earlier, id, edge.outward_edge->ToOntology_0.right_endpoint)
                && edge == type_edge(id, type_key_of(earlier.subgraph.entities[id]));
        assert(root_of_type(later, id, edge.outward_edge->ToOntology_0.right_endpoint));
    }
    assert forall|key: TypeKey| #[trigger]
        later.subgraph.types.dom().contains(key) implies exists|id: EntityEditionId| #[trigger]
        root_of_type(later, id, key) by {
        let id = choose|id: EntityEditionId| #[trigger] root_of_type(earlier, id, key);
        assert(root_of_type(later, id, key));
    }
    if later.pending is TypeVertex {
        let key = later.pending->TypeVertex_0;
        let id = choose|id: EntityEditionId| #[trigger] root_of_type(earlier, id, key);
        assert(root_of_type(later, id, key));
    }
}

/// An answer of the store keeps the state rooted.
proof fn lemma_resume_rooted(
    m: Model,
    vertices: Map<EntityEditionId, KnowledgeGraphVertex>,
    response: ReadResponse,
)
    requires
        consistent(m),
        rooted(m, vertices),
    ensures
        rooted(resume(m, response), vertices),
{
    if request_of(m) is None {
    } else if response is Failed || !fits(m, response) {
        lemma_rooted_stays(resume(m, response), m, vertices);
    } else {
        let next = taken_in(m, response);
        lemma_taken_in(m, response);
        let key = m.pending->TypeVertex_0;
        assert(m.pending == PendingKey::TypeVertex(key));
        assert forall|edge: EdgeKey| #[trigger]
            next.subgraph.edges.contains(edge) implies exists|id: EntityEditionId|
            #[trigger] root_of_type(next, id, edge.outward_edge->ToOntology_0.right_endpoint)
                && edge == type_edge(id, type_key_of(next.subgraph.entities[id])) by {
            let id = choose|id: EntityEditionId|
                #[trigger] root_of_type(m, id, edge.outward_edge->ToOntology_0.right_endpoint)
                    && edge == type_edge(id, type_key_of(m.subgraph.entities[id]));
            assert(root_of_type(next, id, edge.outward_edge->ToOntology_0.right_endpoint));
        }
        assert forall|other: TypeKey| #[trigger]
            next.subgraph.types.dom().contains(other) implies exists|id: EntityEditionId|
            #[trigger] root_of_type(next, id, other) by {
            let id = choose|id: EntityEditionId| #[trigger] root_of_type(m, id, other);
            assert(root_of_type(next, id, other));
        }
        lemma_advance_rooted(next, vertices);
    }
}

/// Every state of a query that has no budget for any way between entities
/// is rooted in the seeds of the query.
pub proof fn lemma_every_state_is_rooted(
    entities: Seq<Entity>,
    budget: u8,
    responses: Seq<ReadResponse>,
)
    ensures
        rooted(
            after(begin(entities, only(EdgeDirection::IsOfTypeOutgoing, budget)), responses),
            seeded_model(
                entities,
                only(EdgeDirection::IsOfTypeOutgoing, budget),
            ).subgraph.entities,
        ),
    decreases responses.len(),
{
    let depths = only(EdgeDirection::IsOfTypeOutgoing, budget);
    let seeds = seeded_model(entities, depths);
    if responses.len() == 0 {
        lemma_seeded_model(entities, depths);
        lemma_seeded(SubgraphView::empty(depths), entities);
        assert(rooted(seeds, seeds.subgraph.entities));
        lemma_advance_rooted(seeds, seeds.subgraph.entities);
    } else {
        lemma_every_state_is_rooted(entities, budget, responses.drop_last());
        lemma_every_state_is_consistent(entities, depths, responses.drop_last());
        lemma_resume_rooted(
            after(begin(entities, depths), responses.drop_last()),
            seeds.subgraph.entities,
            responses.last(),
        );
    }
}

/// A query that has budget for the way to the type only never finds less
/// when its budgets are raised: whatever the larger budgets are, the
/// complete subgraph of the query with them holds every vertex, every edge
/// and every root that the complete subgraph of the query with the smaller
/// budgets holds, provided a store answers the reads of the larger query.
pub proof fn lemma_expansion_to_types_is_monotone(
    store: spec_fn(ReadRequestKey) -> ReadResponse,
    entities: Seq<Entity>,
    budget: u8,
    larger: GraphResolveDepths,
    first: Seq<ReadResponse>,
    second: Seq<ReadResponse>,
)
    requires
        budget > 0,
        larger.covers_spec(only(EdgeDirection::IsOfTypeOutgoing, budget)),
        is_complete(after(begin(entities, only(EdgeDirection::IsOfTypeOutgoing, budget)), first)),
        answered_by(store, begin(entities, larger), second),
        is_complete(after(begin(entities, larger), second)),
    ensures
        ({
            let less = after(
                begin(entities, only(EdgeDirection::IsOfTypeOutgoing, budget)),
                first,
            ).subgraph;
            let more = after(begin(entities, larger), second).subgraph;
            &&& less.entities.submap_of(more.entities)
            &&& less.edges.subset_of(more.edges)
            &&& less.roots == more.roots
            &&& less.types.dom().subset_of(more.types.dom())
        }),
{
    let smaller = only(EdgeDirection::IsOfTypeOutgoing, budget);
    let less = after(begin(entities, smaller), first);
    let more = after(begin(entities, larger), second);
    let seeds = seeded_model(entities, smaller);
    lemma_every_state_is_rooted(entities, budget, first);
    lemma_every_state_is_consistent(entities, smaller, first);
    lemma_every_state_is_consistent(entities, larger, second);
    lemma_every_state_is_faithful(store, entities, larger, second);
    lemma_seeds_do_not_depend_on_budgets(entities, smaller, larger);
    lemma_seeded(SubgraphView::empty(smaller), entities);
    lemma_seeded(SubgraphView::empty(larger), entities);
    assert(less.subgraph.entities == seeds.subgraph.entities);
    assert(less.subgraph.entities.submap_of(more.subgraph.entities));
    assert(less.subgraph.roots =~= more.subgraph.roots) by {
        assert(seeds.subgraph.roots.subset_of(less.subgraph.roots));
        assert forall|root: GraphElementKey| #[trigger]
            less.subgraph.roots.contains(root) implies more.subgraph.roots.contains(root) by {
            lemma_roots_of_subgraph(entities, smaller, first, root);
        }
        assert forall|root: GraphElementKey| #[trigger]
            more.subgraph.roots.contains(root) implies less.subgraph.roots.contains(root) by {
            lemma_roots_of_subgraph(entities, larger, second, root);
        }
    }
    assert forall|id: EntityEditionId| less.roots.contains(id) implies #[trigger] more.knowledge.dom().contains(
        id,
    ) by {
        let i = choose|i: int| 0 <= i < less.roots.len() && less.roots[i] == id;
        assert(more.knowledge.dom().contains(more.roots[i]));
    }
    assert forall|edge: EdgeKey| #[trigger]
        less.subgraph.edges.contains(edge) implies more.subgraph.edges.contains(edge) by {
        let id = choose|id: EntityEditionId|
            #[trigger] root_of_type(less, id, edge.outward_edge->ToOntology_0.right_endpoint)
                && edge == type_edge(id, type_key_of(less.subgraph.entities[id]));
        assert(more.knowledge.dom().contains(id));
        lemma_every_entity_is_classified(entities, larger, second, id);
        assert(more.subgraph.entities[id] == less.subgraph.entities[id]);
    }
    assert forall|key: TypeKey| #[trigger]
        less.subgraph.types.dom().contains(key) implies more.subgraph.types.dom().contains(key) by {
        let id = choose|id: EntityEditionId| #[trigger] root_of_type(less, id, key);
        assert(more.knowledge.dom().contains(id));
        lemma_every_entity_is_classified(entities, larger, second, id);
        assert(more.subgraph.entities[id] == less.subgraph.entities[id]);
    }
}

/// The roots of a subgraph are the seeds of its query, at every moment.
pub proof fn lemma_roots_of_subgraph(
    entities: Seq<Entity>,
    depths: GraphResolveDepths,
    responses: Seq<ReadResponse>,
    root: GraphElementKey,
)
    ensures
        after(begin(entities, depths), responses).subgraph.roots.contains(root) <==> seeded_model(
            entities,
            depths,
        ).subgraph.roots.contains(root),
    decreases responses.len(),
{
    let seeds = seeded_model(entities, depths);
    lemma_seeded_model(entities, depths);
    lemma_advance_adds_edges_only(seeds);
    if responses.len() > 0 {
        let before = after(begin(entities, depths), responses.drop_last());
        lemma_roots_of_subgraph(entities, depths, responses.drop_last(), root);
        lemma_every_state_is_consistent(entities, depths, responses.drop_last());
        lemma_resume_adds_what_it_takes_in(before, responses.last());
    }
}

} // verus!
