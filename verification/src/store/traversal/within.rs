//! Nothing is gathered beyond the budgets.
//!
//! Of a traversal whose reads a store answers, this module shows that every
//! vertex of an entity is a root or lies at the end of a path from a root
//! which the budgets of the query allow, hop by hop; that every edge between
//! entities leaves such a vertex on a way for which budget was left; and
//! that every edge to a type, and every vertex of a type, belongs to an
//! entity of the subgraph.

use crate::identifier::EntityEditionId;
use crate::knowledge::Entity;
use crate::ontology::TypeKey;
use crate::store::dependency::{visit, DependencyStatus};
use crate::store::filter::ReadRequestKey;
use crate::store::traversal::coverage::{
    answered_by, editions_of, faithful, faithful_within, found_on, frame_faithful,
    frames_faithful, is_link_way, lemma_answered_before, lemma_classify_keeps, lemma_enter_keeps,
    lemma_every_state_is_faithful, lemma_leave_keeps, lemma_retop_keeps, lemma_roots_stay,
    lemma_take_way_keeps, lemma_taken_in_keeps, roots_entered, ways_followed,
};
use crate::store::traversal::laws::{
    after, awaits_vertex, consistent, extends, lemma_classify, lemma_enter,
    lemma_every_state_is_consistent, lemma_extends_is_transitive, lemma_hop_uses_budget,
    lemma_leave, lemma_resume, lemma_retop, lemma_seeded, lemma_seeded_model, lemma_take_way,
    lemma_taken_in, seeded_model,
};
use crate::store::traversal::model::{
    advance, begin, classify, earliest_start, enter, fits, fresh_frame, leave, link_edge,
    remaining, request_of, resume, taken_in, type_edge, FrameModel, Model, PendingKey,
    ReadResponse,
};
use crate::store::traversal::one_way::found_edge;
use crate::store::traversal::typed::type_key_of;
use crate::subgraph::edges::{EdgeDirection, EdgeKey, GraphResolveDepths};
use crate::subgraph::SubgraphView;
use vstd::prelude::*;

verus! {

/// Whether a hop on `way` from `from`, made with the budgets `before`,
/// finds `edition_id` and leaves the budgets `left`.
pub open spec fn hop(
    store: spec_fn(ReadRequestKey) -> ReadResponse,
    edition_id: EntityEditionId,
    left: GraphResolveDepths,
    way: EdgeDirection,
    from: EntityEditionId,
    before: GraphResolveDepths,
) -> bool {
    &&& is_link_way(way)
    &&& before.budget(way) > 0
    &&& left == before.after_hop(way)
    &&& found_on(store, way, from).contains(edition_id)
}

/// Whether a query with the budgets `total` can come to `edition_id` in
/// `hops` hops with the budgets `left`: it is a root and nothing is spent,
/// or a hop finds it from where the query can come with one hop less.
pub open spec fn reached_in(
    store: spec_fn(ReadRequestKey) -> ReadResponse,
    roots: Seq<EntityEditionId>,
    total: GraphResolveDepths,
    edition_id: EntityEditionId,
    left: GraphResolveDepths,
    hops: nat,
) -> bool
    decreases hops,
{
    if hops == 0 {
        left == total && roots.contains(edition_id)
    } else {
        exists|way: EdgeDirection, from: EntityEditionId, before: GraphResolveDepths|
            #[trigger] hop(store, edition_id, left, way, from, before) && reached_in(
                store,
                roots,
                total,
                from,
                before,
                (hops - 1) as nat,
            )
    }
}

/// Whether a query can come to `edition_id` with the budgets `left` after
/// `hops` hops, as `reached_in` says.
pub open spec fn reaches(
    m: Model,
    store: spec_fn(ReadRequestKey) -> ReadResponse,
    edition_id: EntityEditionId,
    left: GraphResolveDepths,
    hops: nat,
) -> bool {
    reached_in(store, m.roots, m.subgraph.depths, edition_id, left, hops)
}

/// Whether `edge` is the edge from `from` to `to`, found on `way` from
/// `from`, to which the query can come with budget for that way.
pub open spec fn leaves_reached(
    m: Model,
    store: spec_fn(ReadRequestKey) -> ReadResponse,
    edge: EdgeKey,
    way: EdgeDirection,
    from: EntityEditionId,
    to: EntityEditionId,
    before: GraphResolveDepths,
    hops: nat,
) -> bool {
    &&& is_link_way(way)
    &&& before.budget(way) > 0
    &&& reaches(m, store, from, before, hops)
    &&& found_on(store, way, from).contains(to)
    &&& edge == found_edge(store, way, from, to)
}

/// Whether `key` identifies the type of the entity of the vertex of
/// `edition_id`, in a query that has budget for the way to the type.
pub open spec fn type_of_vertex(m: Model, edition_id: EntityEditionId, key: TypeKey) -> bool {
    &&& m.subgraph.depths.is_of_type.outgoing > 0
    &&& m.subgraph.entities.dom().contains(edition_id)
    &&& key == type_key_of(m.subgraph.entities[edition_id])
}

/// Whether `edge` is accounted for: it is an edge between entities that
/// leaves where the query can come with budget for its way, or the edge
/// from a vertex to the type of its entity.
pub open spec fn edge_accounted(
    m: Model,
    store: spec_fn(ReadRequestKey) -> ReadResponse,
    edge: EdgeKey,
) -> bool {
    ||| exists|
        way: EdgeDirection,
        from: EntityEditionId,
        to: EntityEditionId,
        before: GraphResolveDepths,
        hops: nat,
    | #[trigger] leaves_reached(m, store, edge, way, from, to, before, hops)
    ||| exists|id: EntityEditionId, key: TypeKey| #[trigger]
        type_of_vertex(m, id, key) && edge == type_edge(id, key)
}

/// Whether the vertex of `edition_id` is accounted for: the query can come
/// to the edition.
pub open spec fn vertex_accounted(
    m: Model,
    store: spec_fn(ReadRequestKey) -> ReadResponse,
    edition_id: EntityEditionId,
) -> bool {
    exists|left: GraphResolveDepths, hops: nat| #[trigger] reaches(m, store, edition_id, left, hops)
}

/// What holds of every state of a traversal whose reads a store answers:
/// nothing is under expansion or in the subgraph that the budgets of the
/// query do not account for.
pub open spec fn accounted(m: Model, store: spec_fn(ReadRequestKey) -> ReadResponse) -> bool {
    &&& forall|i: int|
        0 <= i < m.stack.len() ==> reaches(
            m,
            store,
            (#[trigger] m.stack[i]).edition_id,
            m.stack[i].depths,
            i as nat,
        )
    &&& forall|id: EntityEditionId| #[trigger]
        m.subgraph.entities.dom().contains(id) ==> vertex_accounted(m, store, id)
    &&& forall|edge: EdgeKey| #[trigger]
        m.subgraph.edges.contains(edge) ==> edge_accounted(m, store, edge)
    &&& forall|key: TypeKey| #[trigger]
        m.subgraph.types.dom().contains(key) ==> exists|id: EntityEditionId| #[trigger]
            type_of_vertex(m, id, key)
    &&& m.pending is TypeVertex ==> exists|id: EntityEditionId| #[trigger]
        type_of_vertex(m, id, m.pending->TypeVertex_0)
}

/// Where a query can come, it has spent one unit of budget for each hop,
/// and no more than it had for any way.
pub proof fn lemma_reached_within_budgets(
    store: spec_fn(ReadRequestKey) -> ReadResponse,
    roots: Seq<EntityEditionId>,
    total: GraphResolveDepths,
    edition_id: EntityEditionId,
    left: GraphResolveDepths,
    hops: nat,
)
    requires
        reached_in(store, roots, total, edition_id, left, hops),
    ensures
        total.covers_spec(left),
        left.total() + hops == total.total(),
    decreases hops,
{
    if hops > 0 {
        let (way, from, before) = choose|
            way: EdgeDirection,
            from: EntityEditionId,
            before: GraphResolveDepths,
        |
            #[trigger] hop(store, edition_id, left, way, from, before) && reached_in(
                store,
                roots,
                total,
                from,
                before,
                (hops - 1) as nat,
            );
        lemma_reached_within_budgets(store, roots, total, from, before, (hops - 1) as nat);
        lemma_hop_uses_budget(before, way);
    }
}

/// What is accounted for in a state is accounted for in a state that has
/// the same roots, budgets and vertices.
proof fn lemma_accounts_stay(
    later: Model,
    earlier: Model,
    store: spec_fn(ReadRequestKey) -> ReadResponse,
)
    requires
        later.roots == earlier.roots,
        later.subgraph.depths == earlier.subgraph.depths,
        earlier.subgraph.entities.submap_of(later.subgraph.entities),
    ensures
        forall|id: EntityEditionId, left: GraphResolveDepths, hops: nat|
            reaches(earlier, store, id, left, hops) ==> #[trigger] reaches(
                later,
                store,
                id,
                left,
                hops,
            ),
        forall|id: EntityEditionId|
            vertex_accounted(earlier, store, id) ==> #[trigger] vertex_accounted(later, store, id),
        forall|edge: EdgeKey|
            edge_accounted(earlier, store, edge) ==> #[trigger] edge_accounted(later, store, edge),
        forall|id: EntityEditionId, key: TypeKey|
            type_of_vertex(earlier, id, key) ==> #[trigger] type_of_vertex(later, id, key),
{
    assert forall|id: EntityEditionId, key: TypeKey|
        type_of_vertex(earlier, id, key) implies #[trigger] type_of_vertex(later, id, key) by {
        assert(later.subgraph.entities.dom().contains(id));
    }
    assert forall|id: EntityEditionId|
        vertex_accounted(earlier, store, id) implies #[trigger] vertex_accounted(
        later,
        store,
        id,
    ) by {
        let (left, hops) = choose|left: GraphResolveDepths, hops: nat| #[trigger]
            reaches(earlier, store, id, left, hops);
        assert(reaches(later, store, id, left, hops));
    }
    assert forall|edge: EdgeKey| edge_accounted(earlier, store, edge) implies #[trigger] edge_accounted(
        later,
        store,
        edge,
    ) by {
        if exists|
            way: EdgeDirection,
            from: EntityEditionId,
            to: EntityEditionId,
            before: GraphResolveDepths,
            hops: nat,
        | #[trigger] leaves_reached(earlier, store, edge, way, from, to, before, hops) {
            let (way, from, to, before, hops) = choose|
                way: EdgeDirection,
                from: EntityEditionId,
                to: EntityEditionId,
                before: GraphResolveDepths,
                hops: nat,
            | #[trigger] leaves_reached(earlier, store, edge, way, from, to, before, hops);
            assert(leaves_reached(later, store, edge, way, from, to, before, hops));
        } else {
            let (id, key) = choose|id: EntityEditionId, key: TypeKey| #[trigger]
                type_of_vertex(earlier, id, key) && edge == type_edge(id, key);
            assert(type_of_vertex(later, id, key));
        }
    }
}

/// A state that holds what an accounted state holds, and frames of it, is
/// accounted for.
proof fn lemma_accounted_stays(
    later: Model,
    earlier: Model,
    store: spec_fn(ReadRequestKey) -> ReadResponse,
)
    requires
        accounted(earlier, store),
        later.subgraph == earlier.subgraph,
        later.roots == earlier.roots,
        later.pending == earlier.pending || !(later.pending is TypeVertex),
        forall|i: int|
            0 <= i < later.stack.len() ==> i < earlier.stack.len() && (
            #[trigger] later.stack[i]).edition_id == earlier.stack[i].edition_id
                && later.stack[i].depths == earlier.stack[i].depths,
    ensures
        accounted(later, store),
{
    lemma_accounts_stay(later, earlier, store);
    assert forall|i: int| 0 <= i < later.stack.len() implies reaches(
        later,
        store,
        (#[trigger] later.stack[i]).edition_id,
        later.stack[i].depths,
        i as nat,
    ) by {
        assert(reaches(earlier, store, earlier.stack[i].edition_id, earlier.stack[i].depths, i as nat));
    }
    assert forall|key: TypeKey| #[trigger]
        later.subgraph.types.dom().contains(key) implies exists|id: EntityEditionId| #[trigger]
        type_of_vertex(later, id, key) by {
        let id = choose|id: EntityEditionId| #[trigger] type_of_vertex(earlier, id, key);
        assert(type_of_vertex(later, id, key));
    }
    if later.pending is TypeVertex {
        let key = later.pending->TypeVertex_0;
        let id = choose|id: EntityEditionId| #[trigger] type_of_vertex(earlier, id, key);
        assert(type_of_vertex(later, id, key));
    }
}

/// Coming to an entity keeps the state accounted for.
proof fn lemma_enter_accounted(
    m: Model,
    store: spec_fn(ReadRequestKey) -> ReadResponse,
    edition_id: EntityEditionId,
    depths: GraphResolveDepths,
)
    requires
        consistent(m),
        faithful_within(m, store),
        accounted(m, store),
        m.pending == PendingKey::Idle,
        if m.stack.len() == 0 {
            depths == m.subgraph.depths && m.roots.contains(edition_id)
        } else {
            let top = m.stack.last();
            &&& is_link_way(top.direction)
            &&& top.position < top.related.len()
            &&& edition_id == top.related[top.position as int]
            &&& depths == top.onward
        },
    ensures
        accounted(enter(m, edition_id, depths), store),
{
    let next = enter(m, edition_id, depths);
    let (knowledge, status) = visit(m.knowledge, edition_id, depths);
    if status == DependencyStatus::Resolved {
        if m.stack.len() > 0 {
            let top = m.stack.last();
            assert(next.stack == m.stack.drop_last().push(
                FrameModel { position: top.position + 1, ..top },
            ));
        } else {
            assert(next.stack =~= m.stack);
        }
        lemma_accounted_stays(next, m, store);
    } else {
        let fresh = fresh_frame(edition_id, depths);
        assert(next.stack == m.stack.push(fresh));
        lemma_accounts_stay(next, m, store);
        assert forall|i: int| 0 <= i < next.stack.len() implies reaches(
            next,
            store,
            (#[trigger] next.stack[i]).edition_id,
            next.stack[i].depths,
            i as nat,
        ) by {
            if i < m.stack.len() {
                assert(next.stack[i] == m.stack[i]);
                assert(reaches(m, store, m.stack[i].edition_id, m.stack[i].depths, i as nat));
            } else if m.stack.len() > 0 {
                let last = m.stack.len() - 1;
                let top = m.stack.last();
                assert(frame_faithful(m, store, last));
                assert(reaches(m, store, top.edition_id, top.depths, last as nat));
                assert(hop(store, edition_id, depths, top.direction, top.edition_id, top.depths));
                assert(reached_in(
                    store,
                    m.roots,
                    m.subgraph.depths,
                    top.edition_id,
                    top.depths,
                    (i - 1) as nat,
                ));
            } else {
            }
        }
        assert forall|key: TypeKey| #[trigger]
            next.subgraph.types.dom().contains(key) implies exists|id: EntityEditionId| #[trigger]
            type_of_vertex(next, id, key) by {
            let id = choose|id: EntityEditionId| #[trigger] type_of_vertex(m, id, key);
            assert(type_of_vertex(next, id, key));
        }
    }
}

/// Taking in the answer of the store keeps the state accounted for.
proof fn lemma_taken_in_accounted(
    m: Model,
    store: spec_fn(ReadRequestKey) -> ReadResponse,
    response: ReadResponse,
)
    requires
        consistent(m),
        faithful(m, store),
        accounted(m, store),
        request_of(m) is Some,
        response == store(request_of(m)->0),
        fits(m, response),
    ensures
        accounted(taken_in(m, response), store),
{
    let top = m.stack.last();
    let last = m.stack.len() - 1;
    let next = taken_in(m, response);
    lemma_taken_in(m, response);
    assert(frame_faithful(m, store, last));
    assert(reaches(m, store, top.edition_id, top.depths, last as nat));
    if m.pending == PendingKey::Related {
        lemma_accounted_stays(next, m, store);
    } else {
        assert(next.stack == m.stack);
        lemma_accounts_stay(next, m, store);
        assert forall|i: int| 0 <= i < next.stack.len() implies reaches(
            next,
            store,
            (#[trigger] next.stack[i]).edition_id,
            next.stack[i].depths,
            i as nat,
        ) by {
            assert(reaches(m, store, m.stack[i].edition_id, m.stack[i].depths, i as nat));
        }
        assert forall|key: TypeKey| #[trigger]
            next.subgraph.types.dom().contains(key) implies exists|id: EntityEditionId| #[trigger]
            type_of_vertex(next, id, key) by {
            if m.subgraph.types.dom().contains(key) {
                let id = choose|id: EntityEditionId| #[trigger] type_of_vertex(m, id, key);
                assert(type_of_vertex(next, id, key));
            } else {
                assert(m.pending == PendingKey::TypeVertex(key));
                let id = choose|id: EntityEditionId| #[trigger] type_of_vertex(m, id, key);
                assert(type_of_vertex(next, id, key));
            }
        }
        if m.pending == PendingKey::Vertex {
            assert(reaches(next, store, top.edition_id, top.depths, last as nat));
            assert(vertex_accounted(next, store, top.edition_id));
        } else if m.pending == PendingKey::Editions {
            let target = top.related[top.position as int];
            let edge = link_edge(
                top.edition_id,
                top.direction,
                target,
                earliest_start(response->Entities_0@),
            );
            assert(editions_of(store, target.base_id) == response->Entities_0@);
            assert(found_on(store, top.direction, top.edition_id).contains(target));
            assert(leaves_reached(
                next,
                store,
                edge,
                top.direction,
                top.edition_id,
                target,
                top.depths,
                last as nat,
            ));
            assert(edge_accounted(next, store, edge));
        }
    }
}

/// Going on without the store keeps the state accounted for.
proof fn lemma_advance_accounted(m: Model, store: spec_fn(ReadRequestKey) -> ReadResponse)
    requires
        consistent(m),
        faithful(m, store),
        accounted(m, store),
    ensures
        accounted(advance(m), store),
    decreases m.roots.len() - m.next_root, m.stack.len(), remaining(
        if m.stack.len() > 0 {
            m.stack.last().cursor
        } else {
            None
        },
    ),
{
    if m.failure is Some || m.pending != PendingKey::Idle {
    } else if m.stack.len() == 0 {
        if m.next_root < m.roots.len() {
            let taken = Model { next_root: m.next_root + 1, ..m };
            let root = m.roots[m.next_root as int];
            let entered = enter(taken, root, m.subgraph.depths);
            lemma_accounted_stays(taken, m, store);
            assert(frames_faithful(taken, store));
            assert(ways_followed(taken, store));
            lemma_enter(taken, root, m.subgraph.depths);
            lemma_enter_keeps(taken, store, root, m.subgraph.depths);
            lemma_enter_accounted(taken, store, root, m.subgraph.depths);
            assert(roots_entered(entered)) by {
                assert forall|i: int|
                    0 <= i < entered.next_root && i < entered.roots.len() implies entered.knowledge.dom().contains(
                    #[trigger] entered.roots[i],
                ) && entered.knowledge[entered.roots[i]].covers_spec(entered.subgraph.depths) by {
                    if i < m.next_root {
                        assert(m.knowledge.dom().contains(m.roots[i]));
                    }
                }
            }
            lemma_advance_accounted(entered, store);
        }
    } else {
        let top = m.stack.last();
        let last = m.stack.len() - 1;
        if top.position < top.related.len() {
            lemma_accounted_stays(Model { pending: PendingKey::Editions, ..m }, m, store);
        } else {
            match top.cursor {
                None => {
                    lemma_leave(m);
                    lemma_leave_keeps(m, store);
                    lemma_roots_stay(leave(m), m);
                    assert forall|i: int| 0 <= i < leave(m).stack.len() implies i < m.stack.len()
                        && (#[trigger] leave(m).stack[i]).edition_id == m.stack[i].edition_id
                        && leave(m).stack[i].depths == m.stack[i].depths by {
                        let rest = m.stack.drop_last();
                        assert(rest[i] == m.stack[i]);
                    }
                    lemma_accounted_stays(leave(m), m, store);
                    lemma_advance_accounted(leave(m), store);
                },
                Some(direction) => {
                    let moved = FrameModel { cursor: direction.successor(), ..top };
                    let turned = Model { stack: m.stack.drop_last().push(moved), ..m };
                    assert forall|i: int| 0 <= i < turned.stack.len() - 1 implies #[trigger] turned.stack[i]
                        == m.stack[i] by {}
                    assert(turned.stack[last] == moved);
                    if top.depths.budget(direction) == 0 {
                        lemma_retop(m, moved);
                        lemma_retop_keeps(m, store, moved);
                        lemma_roots_stay(turned, m);
                        lemma_accounted_stays(turned, m, store);
                        lemma_advance_accounted(turned, store);
                    } else if direction == EdgeDirection::IsOfTypeOutgoing {
                        lemma_retop(m, moved);
                        lemma_retop_keeps(m, store, moved);
                        lemma_roots_stay(turned, m);
                        lemma_accounted_stays(turned, m, store);
                        lemma_classify(turned);
                        lemma_classify_keeps(turned, store);
                        lemma_roots_stay(classify(turned), turned);
                        lemma_classify_accounted(turned, store);
                        lemma_advance_accounted(classify(turned), store);
                    } else {
                        let taken = Model {
                            stack: m.stack.drop_last().push(
                                FrameModel {
                                    direction,
                                    onward: top.depths.after_hop(direction),
                                    related: Seq::empty(),
                                    position: 0,
                                    ..moved
                                },
                            ),
                            pending: PendingKey::Related,
                            ..m
                        };
                        assert forall|i: int| 0 <= i < taken.stack.len() - 1 implies #[trigger] taken.stack[i]
                            == m.stack[i] by {}
                        lemma_accounted_stays(taken, m, store);
                    }
                },
            }
        }
    }
}

/// Joining the entity at the top of the stack to its type keeps the state
/// accounted for.
proof fn lemma_classify_accounted(m: Model, store: spec_fn(ReadRequestKey) -> ReadResponse)
    requires
        consistent(m),
        accounted(m, store),
        m.pending == PendingKey::Idle,
        m.stack.len() > 0,
        m.stack.last().depths.budget(EdgeDirection::IsOfTypeOutgoing) > 0,
    ensures
        accounted(classify(m), store),
{
    let next = classify(m);
    let top = m.stack.last();
    let last = m.stack.len() - 1;
    lemma_classify(m);
    lemma_accounts_stay(next, m, store);
    assert(!awaits_vertex(m, last));
    assert(m.subgraph.entities.dom().contains(top.edition_id));
    assert(reaches(m, store, top.edition_id, top.depths, last as nat));
    lemma_reached_within_budgets(
        store,
        m.roots,
        m.subgraph.depths,
        top.edition_id,
        top.depths,
        last as nat,
    );
    let key = type_key_of(m.subgraph.entities[top.edition_id]);
    assert(type_of_vertex(next, top.edition_id, key));
    assert forall|i: int| 0 <= i < next.stack.len() implies reaches(
        next,
        store,
        (#[trigger] next.stack[i]).edition_id,
        next.stack[i].depths,
        i as nat,
    ) by {
        assert(reaches(m, store, m.stack[i].edition_id, m.stack[i].depths, i as nat));
    }
    assert forall|edge: EdgeKey| #[trigger]
        next.subgraph.edges.contains(edge) implies edge_accounted(next, store, edge) by {
        if edge == type_edge(top.edition_id, key) {
            assert(type_of_vertex(next, top.edition_id, key) && edge == type_edge(
                top.edition_id,
                key,
            ));
        } else {
            assert(m.subgraph.edges.contains(edge));
        }
    }
    assert forall|other: TypeKey| #[trigger]
        next.subgraph.types.dom().contains(other) implies exists|id: EntityEditionId| #[trigger]
        type_of_vertex(next, id, other) by {
        let id = choose|id: EntityEditionId| #[trigger] type_of_vertex(m, id, other);
        assert(type_of_vertex(next, id, other));
    }
}

/// The answer of the store to what the traversal asks keeps the state
/// accounted for.
proof fn lemma_resume_accounted(
    m: Model,
    store: spec_fn(ReadRequestKey) -> ReadResponse,
    response: ReadResponse,
)
    requires
        consistent(m),
        faithful(m, store),
        accounted(m, store),
        request_of(m) is Some,
        response == store(request_of(m)->0),
    ensures
        accounted(resume(m, response), store),
{
    if response is Failed || !fits(m, response) {
        lemma_accounted_stays(resume(m, response), m, store);
    } else {
        let next = taken_in(m, response);
        lemma_taken_in(m, response);
        lemma_taken_in_keeps(m, store, response);
        lemma_taken_in_accounted(m, store, response);
        if m.pending == PendingKey::Editions {
            let top = m.stack.last();
            let target = top.related[top.position as int];
            lemma_enter(next, target, top.onward);
            lemma_enter_keeps(next, store, target, top.onward);
            lemma_enter_accounted(next, store, target, top.onward);
            let entered = enter(next, target, top.onward);
            lemma_roots_stay(entered, next);
            lemma_advance_accounted(entered, store);
        } else {
            lemma_advance_accounted(next, store);
        }
    }
}

/// Every state of a query whose reads a store answers is accounted for:
/// the subgraph holds nothing beyond what the budgets of the query allow.
pub proof fn lemma_nothing_is_gathered_beyond_the_budgets(
    store: spec_fn(ReadRequestKey) -> ReadResponse,
    entities: Seq<Entity>,
    depths: GraphResolveDepths,
    responses: Seq<ReadResponse>,
)
    requires
        answered_by(store, begin(entities, depths), responses),
    ensures
        accounted(after(begin(entities, depths), responses), store),
    decreases responses.len(),
{
    let start = begin(entities, depths);
    if responses.len() == 0 {
        let seeds = seeded_model(entities, depths);
        lemma_seeded_model(entities, depths);
        lemma_seeded(SubgraphView::empty(depths), entities);
        assert(faithful(seeds, store));
        assert forall|id: EntityEditionId| #[trigger]
            seeds.subgraph.entities.dom().contains(id) implies vertex_accounted(
            seeds,
            store,
            id,
        ) by {
            assert(reaches(seeds, store, id, depths, 0));
        }
        assert(accounted(seeds, store));
        lemma_advance_accounted(seeds, store);
    } else {
        lemma_answered_before(store, start, responses);
        lemma_nothing_is_gathered_beyond_the_budgets(
            store,
            entities,
            depths,
            responses.drop_last(),
        );
        lemma_every_state_is_faithful(store, entities, depths, responses.drop_last());
        lemma_resume_accounted(after(start, responses.drop_last()), store, responses.last());
    }
}

} // verus!
