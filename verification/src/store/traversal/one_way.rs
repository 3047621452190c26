//! Queries that have budget for one way only.
//!
//! With budget for a single way between entities, a traversal gathers
//! exactly what can be reached from the roots on that way within the
//! budget. So such a query never finds less when its budgets are raised,
//! whatever the other budgets are raised to.

use crate::identifier::EntityEditionId;
use crate::knowledge::Entity;
use crate::store::dependency::{visit, DependencyStatus};
use crate::store::filter::ReadRequestKey;
use crate::store::traversal::coverage::{
    answered_by, editions_of, faithful, faithful_within, found_on, frame_faithful, is_link_way,
    lemma_answered_before, lemma_enter_keeps, lemma_every_edge_within_budget_is_found,
    lemma_every_state_is_faithful, lemma_everything_within_budget_is_found,
    lemma_vertices_hold_seeds_or_answers, lemma_leave_keeps, lemma_retop_keeps, lemma_roots_stay,
    lemma_taken_in_keeps, within_hops,
};
use crate::store::traversal::laws::{
    after, consistent, lemma_enter, lemma_leave, lemma_retop, lemma_seeded, lemma_seeded_model,
    lemma_seeds_do_not_depend_on_budgets, lemma_taken_in, seeded_model,
};
use crate::store::traversal::model::{
    advance, begin, earliest_start, enter, fits, fresh_frame, is_complete, leave, link_edge,
    remaining, request_of, resume, taken_in, FrameModel, Model, PendingKey, ReadResponse,
};
use crate::subgraph::edges::{EdgeDirection, EdgeKey, GraphResolveDepths};
use crate::subgraph::SubgraphView;
use vstd::prelude::*;

verus! {

/// The budgets that allow `budget` hops on `way` and none on any other way.
pub open spec fn only(way: EdgeDirection, budget: u8) -> GraphResolveDepths {
    GraphResolveDepths::zero_spec().with_budget(way, budget)
}

/// The edge that is recorded for `to`, found by `store` on `way` from `from`.
pub open spec fn found_edge(
    store: spec_fn(ReadRequestKey) -> ReadResponse,
    way: EdgeDirection,
    from: EntityEditionId,
    to: EntityEditionId,
) -> EdgeKey {
    link_edge(from, way, to, earliest_start(editions_of(store, to.base_id)))
}

/// Whether `edge` is the edge from `from` to `to`, where `from` is reached
/// from a root in `hops` hops, fewer than `budget`, and `to` is found from it.
pub open spec fn justifies(
    store: spec_fn(ReadRequestKey) -> ReadResponse,
    roots: Seq<EntityEditionId>,
    way: EdgeDirection,
    budget: nat,
    edge: EdgeKey,
    from: EntityEditionId,
    to: EntityEditionId,
    hops: nat,
) -> bool {
    &&& edge == found_edge(store, way, from, to)
    &&& hops < budget
    &&& within_hops(store, roots, way, from, hops)
    &&& found_on(store, way, from).contains(to)
}

/// Whether `edge` leaves something that is reached from a root within the
/// budget, for something that is found from it.
pub open spec fn justified(
    store: spec_fn(ReadRequestKey) -> ReadResponse,
    roots: Seq<EntityEditionId>,
    way: EdgeDirection,
    budget: nat,
    edge: EdgeKey,
) -> bool {
    exists|from: EntityEditionId, to: EntityEditionId, hops: nat| #[trigger]
        justifies(store, roots, way, budget, edge, from, to, hops)
}

/// Whether the frame at `index` is that many hops from a root and has that
/// many units of budget less than the query.
pub open spec fn frame_bounded(
    m: Model,
    store: spec_fn(ReadRequestKey) -> ReadResponse,
    way: EdgeDirection,
    budget: nat,
    index: int,
) -> bool {
    let frame = m.stack[index];
    &&& index <= budget
    &&& frame.depths == only(way, (budget - index) as u8)
    &&& within_hops(store, m.roots, way, frame.edition_id, index as nat)
}

/// What holds of every state of a query with `budget` hops on `way` only:
/// nothing is gathered that is not within the budget.
pub open spec fn bounded(
    m: Model,
    store: spec_fn(ReadRequestKey) -> ReadResponse,
    way: EdgeDirection,
    budget: nat,
) -> bool {
    &&& budget <= 255
    &&& is_link_way(way)
    &&& m.subgraph.depths == only(way, budget as u8)
    &&& m.subgraph.types == Map::<crate::ontology::TypeKey, crate::subgraph::vertices::OntologyVertex>::empty()
    &&& !(m.pending is TypeVertex)
    &&& forall|i: int| 0 <= i < m.stack.len() ==> #[trigger] frame_bounded(m, store, way, budget, i)
    &&& forall|id: EntityEditionId| #[trigger]
        m.subgraph.entities.dom().contains(id) ==> within_hops(store, m.roots, way, id, budget)
    &&& forall|edge: EdgeKey| #[trigger]
        m.subgraph.edges.contains(edge) ==> justified(store, m.roots, way, budget, edge)
}

/// What is within some hops is within more hops.
pub proof fn lemma_within_more_hops(
    store: spec_fn(ReadRequestKey) -> ReadResponse,
    roots: Seq<EntityEditionId>,
    way: EdgeDirection,
    edition_id: EntityEditionId,
    hops: nat,
    more: nat,
)
    requires
        within_hops(store, roots, way, edition_id, hops),
        hops <= more,
    ensures
        within_hops(store, roots, way, edition_id, more),
    decreases hops,
{
    if !roots.contains(edition_id) {
        let from = choose|from: EntityEditionId|
            within_hops(store, roots, way, from, (hops - 1) as nat) && #[trigger] found_on(
                store,
                way,
                from,
            ).contains(edition_id);
        lemma_within_more_hops(store, roots, way, from, (hops - 1) as nat, (more - 1) as nat);
    }
}

/// With budget for one way only, a hop on that way leaves budget for that
/// way only, and no other way can be taken.
pub proof fn lemma_only_one_way(way: EdgeDirection, budget: u8, other: EdgeDirection)
    ensures
        only(way, budget).budget(way) == budget,
        other != way ==> only(way, budget).budget(other) == 0,
        budget > 0 ==> only(way, budget).after_hop(way) == only(way, (budget - 1) as u8),
{
}

/// A state that has the subgraph and some of the frames of a bounded state
/// is bounded.
proof fn lemma_bounded_stays(
    later: Model,
    earlier: Model,
    store: spec_fn(ReadRequestKey) -> ReadResponse,
    way: EdgeDirection,
    budget: nat,
)
    requires
        bounded(earlier, store, way, budget),
        later.subgraph == earlier.subgraph,
        later.roots == earlier.roots,
        !(later.pending is TypeVertex),
        later.stack.len() <= earlier.stack.len(),
        forall|i: int|
            0 <= i < later.stack.len() ==> (#[trigger] later.stack[i]).edition_id
                == earlier.stack[i].edition_id && later.stack[i].depths == earlier.stack[i].depths,
    ensures
        bounded(later, store, way, budget),
{
    assert forall|i: int| 0 <= i < later.stack.len() implies #[trigger] frame_bounded(
        later,
        store,
        way,
        budget,
        i,
    ) by {
        assert(frame_bounded(earlier, store, way, budget, i));
    }
}

/// Coming to an entity keeps the state bounded.
proof fn lemma_enter_bounded(
    m: Model,
    store: spec_fn(ReadRequestKey) -> ReadResponse,
    way: EdgeDirection,
    budget: nat,
    edition_id: EntityEditionId,
    depths: GraphResolveDepths,
)
    requires
        consistent(m),
        faithful_within(m, store),
        bounded(m, store, way, budget),
        m.pending == PendingKey::Idle,
        if m.stack.len() == 0 {
            depths == m.subgraph.depths && m.roots.contains(edition_id)
        } else {
            let top = m.stack.last();
            &&& is_link_way(top.direction)
            &&& top.position < top.related.len()
            &&& edition_id == top.related[top.position as int]
            &&& depths == top.onward
        },
    ensures
        bounded(enter(m, edition_id, depths), store, way, budget),
{
    let next = enter(m, edition_id, depths);
    let (knowledge, status) = visit(m.knowledge, edition_id, depths);
    if status == DependencyStatus::Resolved {
        if m.stack.len() > 0 {
            let top = m.stack.last();
            assert(next.stack == m.stack.drop_last().push(
                FrameModel { position: top.position + 1, ..top },
            ));
        } else {
            assert(next.stack =~= m.stack);
        }
        lemma_bounded_stays(next, m, store, way, budget);
    } else {
        let fresh = fresh_frame(edition_id, depths);
        assert(next.stack == m.stack.push(fresh));
        assert forall|i: int| 0 <= i < next.stack.len() implies #[trigger] frame_bounded(
            next,
            store,
            way,
            budget,
            i,
        ) by {
            if i < m.stack.len() {
                assert(frame_bounded(m, store, way, budget, i));
                assert(next.stack[i] == m.stack[i]);
            } else if m.stack.len() > 0 {
                let last = m.stack.len() - 1;
                let top = m.stack.last();
                assert(frame_bounded(m, store, way, budget, last));
                assert(frame_faithful(m, store, last));
                lemma_only_one_way(way, (budget - last) as u8, top.direction);
                assert(top.direction == way);
                assert(found_on(store, way, top.edition_id).contains(edition_id));
            } else {
            }
        }
    }
}

/// Taking in the answer of the store keeps the state bounded.
proof fn lemma_taken_in_bounded(
    m: Model,
    store: spec_fn(ReadRequestKey) -> ReadResponse,
    way: EdgeDirection,
    budget: nat,
    response: ReadResponse,
)
    requires
        consistent(m),
        faithful(m, store),
        bounded(m, store, way, budget),
        request_of(m) is Some,
        response == store(request_of(m)->0),
        fits(m, response),
    ensures
        bounded(taken_in(m, response), store, way, budget),
{
    let top = m.stack.last();
    let last = m.stack.len() - 1;
    let next = taken_in(m, response);
    assert(frame_bounded(m, store, way, budget, last));
    assert(frame_faithful(m, store, last));
    if m.pending == PendingKey::Related {
        lemma_bounded_stays(next, m, store, way, budget);
    } else {
        assert(next.stack == m.stack);
        assert forall|i: int| 0 <= i < next.stack.len() implies #[trigger] frame_bounded(
            next,
            store,
            way,
            budget,
            i,
        ) by {
            assert(frame_bounded(m, store, way, budget, i));
        }
        if m.pending == PendingKey::Vertex {
            lemma_within_more_hops(store, m.roots, way, top.edition_id, last as nat, budget);
        } else {
            let target = top.related[top.position as int];
            let edge = link_edge(
                top.edition_id,
                top.direction,
                target,
                earliest_start(response->Entities_0@),
            );
            lemma_only_one_way(way, (budget - last) as u8, top.direction);
            assert(top.direction == way);
            assert(editions_of(store, target.base_id) == response->Entities_0@);
            assert(found_on(store, way, top.edition_id).contains(target));
            assert(justifies(
                store,
                m.roots,
                way,
                budget,
                edge,
                top.edition_id,
                target,
                last as nat,
            ));
        }
    }
}

/// Going on without the store keeps the state bounded.
proof fn lemma_advance_bounded(
    m: Model,
    store: spec_fn(ReadRequestKey) -> ReadResponse,
    way: EdgeDirection,
    budget: nat,
)
    requires
        consistent(m),
        faithful(m, store),
        bounded(m, store, way, budget),
    ensures
        bounded(advance(m), store, way, budget),
    decreases m.roots.len() - m.next_root, m.stack.len(), remaining(
        if m.stack.len() > 0 {
            m.stack.last().cursor
        } else {
            None
        },
    ),
{
    if m.failure is Some || m.pending != PendingKey::Idle {
    } else if m.stack.len() == 0 {
        if m.next_root < m.roots.len() {
            let taken = Model { next_root: m.next_root + 1, ..m };
            let root = m.roots[m.next_root as int];
            let entered = enter(taken, root, m.subgraph.depths);
            lemma_bounded_stays(taken, m, store, way, budget);
            assert(crate::store::traversal::coverage::frames_faithful(taken, store));
            assert(crate::store::traversal::coverage::ways_followed(taken, store));
            lemma_enter(taken, root, m.subgraph.depths);
            lemma_enter_keeps(taken, store, root, m.subgraph.depths);
            lemma_enter_bounded(taken, store, way, budget, root, m.subgraph.depths);
            assert(crate::store::traversal::coverage::roots_entered(entered)) by {
                assert forall|i: int|
                    0 <= i < entered.next_root && i < entered.roots.len() implies entered.knowledge.dom().contains(
                    #[trigger] entered.roots[i],
                ) && entered.knowledge[entered.roots[i]].covers_spec(entered.subgraph.depths) by {
                    if i < m.next_root {
                        assert(m.knowledge.dom().contains(m.roots[i]));
                    }
                }
            }
            lemma_advance_bounded(entered, store, way, budget);
        }
    } else {
        let top = m.stack.last();
        let last = m.stack.len() - 1;
        assert(frame_bounded(m, store, way, budget, last));
        if top.position < top.related.len() {
            lemma_bounded_stays(Model { pending: PendingKey::Editions, ..m }, m, store, way, budget);
        } else {
            match top.cursor {
                None => {
                    lemma_leave(m);
                    lemma_leave_keeps(m, store);
                    lemma_roots_stay(leave(m), m);
                    assert forall|i: int| 0 <= i < leave(m).stack.len() implies (
                    #[trigger] leave(m).stack[i]).edition_id == m.stack[i].edition_id
                        && leave(m).stack[i].depths == m.stack[i].depths by {
                        let rest = m.stack.drop_last();
                        assert(rest[i] == m.stack[i]);
                    }
                    lemma_bounded_stays(leave(m), m, store, way, budget);
                    lemma_advance_bounded(leave(m), store, way, budget);
                },
                Some(direction) => {
                    let moved = FrameModel { cursor: direction.successor(), ..top };
                    let turned = Model { stack: m.stack.drop_last().push(moved), ..m };
                    lemma_only_one_way(way, (budget - last) as u8, direction);
                    if top.depths.budget(direction) == 0 {
                        lemma_retop(m, moved);
                        lemma_retop_keeps(m, store, moved);
                        lemma_roots_stay(turned, m);
                        lemma_bounded_stays(turned, m, store, way, budget);
                        lemma_advance_bounded(turned, store, way, budget);
                    } else {
                        assert(direction == way);
                        let taken = Model {
                            stack: m.stack.drop_last().push(
                                FrameModel {
                                    direction,
                                    onward: top.depths.after_hop(direction),
                                    related: Seq::empty(),
                                    position: 0,
                                    ..moved
                                },
                            ),
                            pending: PendingKey::Related,
                            ..m
                        };
                        lemma_bounded_stays(taken, m, store, way, budget);
                    }
                },
            }
        }
    }
}

/// The answer of the store to what the traversal asks keeps the state bounded.
proof fn lemma_resume_bounded(
    m: Model,
    store: spec_fn(ReadRequestKey) -> ReadResponse,
    way: EdgeDirection,
    budget: nat,
    response: ReadResponse,
)
    requires
        consistent(m),
        faithful(m, store),
        bounded(m, store, way, budget),
        request_of(m) is Some,
        response == store(request_of(m)->0),
    ensures
        bounded(resume(m, response), store, way, budget),
{
    if response is Failed || !fits(m, response) {
        lemma_bounded_stays(resume(m, response), m, store, way, budget);
    } else {
        let next = taken_in(m, response);
        lemma_taken_in(m, response);
        lemma_taken_in_keeps(m, store, response);
        lemma_taken_in_bounded(m, store, way, budget, response);
        if m.pending == PendingKey::Editions {
            let top = m.stack.last();
            let target = top.related[top.position as int];
            lemma_enter(next, target, top.onward);
            lemma_enter_keeps(next, store, target, top.onward);
            lemma_enter_bounded(next, store, way, budget, target, top.onward);
            let entered = enter(next, target, top.onward);
            lemma_roots_stay(entered, next);
            lemma_advance_bounded(entered, store, way, budget);
        } else {
            lemma_advance_bounded(next, store, way, budget);
        }
    }
}

/// Every state of a query that has budget for one way only is bounded.
pub proof fn lemma_every_state_is_bounded(
    store: spec_fn(ReadRequestKey) -> ReadResponse,
    entities: Seq<Entity>,
    way: EdgeDirection,
    budget: u8,
    responses: Seq<ReadResponse>,
)
    requires
        is_link_way(way),
        answered_by(store, begin(entities, only(way, budget)), responses),
    ensures
        bounded(after(begin(entities, only(way, budget)), responses), store, way, budget as nat),
    decreases responses.len(),
{
    let depths = only(way, budget);
    let start = begin(entities, depths);
    if responses.len() == 0 {
        let seeds = seeded_model(entities, depths);
        lemma_seeded_model(entities, depths);
        lemma_seeded(SubgraphView::empty(depths), entities);
        assert(faithful(seeds, store));
        assert(bounded(seeds, store, way, budget as nat));
        lemma_advance_bounded(seeds, store, way, budget as nat);
    } else {
        lemma_answered_before(store, start, responses);
        lemma_every_state_is_bounded(store, entities, way, budget, responses.drop_last());
        lemma_every_state_is_faithful(store, entities, depths, responses.drop_last());
        lemma_resume_bounded(
            after(start, responses.drop_last()),
            store,
            way,
            budget as nat,
            responses.last(),
        );
    }
}

/// A query that has budget for one way between entities only never finds
/// less when its budgets are raised: whatever the larger budgets are, the
/// complete subgraph of the query with them holds every vertex, every edge
/// and every root that the complete subgraph of the query with the smaller
/// budgets holds, provided the same store answers both.
pub proof fn lemma_expansion_on_one_way_is_monotone(
    store: spec_fn(ReadRequestKey) -> ReadResponse,
    entities: Seq<Entity>,
    way: EdgeDirection,
    budget: u8,
    larger: GraphResolveDepths,
    first: Seq<ReadResponse>,
    second: Seq<ReadResponse>,
)
    requires
        is_link_way(way),
        larger.covers_spec(only(way, budget)),
        answered_by(store, begin(entities, only(way, budget)), first),
        is_complete(after(begin(entities, only(way, budget)), first)),
        answered_by(store, begin(entities, larger), second),
        is_complete(after(begin(entities, larger), second)),
    ensures
        ({
            let less = after(begin(entities, only(way, budget)), first).subgraph;
            let more = after(begin(entities, larger), second).subgraph;
            &&& less.entities.submap_of(more.entities)
            &&& less.edges.subset_of(more.edges)
            &&& less.roots == more.roots
            &&& less.types.dom().subset_of(more.types.dom())
        }),
{
    let smaller = only(way, budget);
    let less = after(begin(entities, smaller), first);
    let more = after(begin(entities, larger), second);
    lemma_only_one_way(way, budget, way);
    lemma_every_state_is_bounded(store, entities, way, budget, first);
    lemma_every_state_is_faithful(store, entities, smaller, first);
    lemma_every_state_is_faithful(store, entities, larger, second);
    lemma_seeds_do_not_depend_on_budgets(entities, smaller, larger);
    assert forall|id: EntityEditionId| #[trigger]
        less.subgraph.entities.dom().contains(id) implies #[trigger] more.subgraph.entities.dom().contains(
        id,
    ) && less.subgraph.entities[id] == more.subgraph.entities[id] by {
        lemma_everything_within_budget_is_found(
            store,
            entities,
            larger,
            second,
            way,
            id,
            budget as nat,
        );
        lemma_vertices_hold_seeds_or_answers(store, entities, smaller, first, id);
        lemma_vertices_hold_seeds_or_answers(store, entities, larger, second, id);
    }
    assert forall|edge: EdgeKey| #[trigger]
        less.subgraph.edges.contains(edge) implies more.subgraph.edges.contains(edge) by {
        let (from, to, hops) = choose|from: EntityEditionId, to: EntityEditionId, hops: nat| #[trigger]
            justifies(store, less.roots, way, budget as nat, edge, from, to, hops);
        lemma_every_edge_within_budget_is_found(store, entities, larger, second, way, from, to, hops);
    }
}

/// A query that has budget for one way only never finds less when its
/// budgets are raised.
///
/// Let a store answer the reads of two queries for the same entities, the
/// first with budget for a single way, the second with budgets that are
/// nowhere smaller. Then the complete subgraph of the second holds every
/// vertex of the first with the same entity, every edge of the first, the
/// vertex of every type of the first, and the same roots.
pub proof fn lemma_budgets_for_one_way_are_monotone(
    store: spec_fn(ReadRequestKey) -> ReadResponse,
    entities: Seq<Entity>,
    way: EdgeDirection,
    budget: u8,
    larger: GraphResolveDepths,
    first: Seq<ReadResponse>,
    second: Seq<ReadResponse>,
)
    requires
        larger.covers_spec(only(way, budget)),
        answered_by(store, begin(entities, only(way, budget)), first),
        is_complete(after(begin(entities, only(way, budget)), first)),
        answered_by(store, begin(entities, larger), second),
        is_complete(after(begin(entities, larger), second)),
    ensures
        ({
            let less = after(begin(entities, only(way, budget)), first).subgraph;
            let more = after(begin(entities, larger), second).subgraph;
            &&& less.entities.submap_of(more.entities)
            &&& less.edges.subset_of(more.edges)
            &&& less.roots == more.roots
            &&& less.types.dom().subset_of(more.types.dom())
        }),
{
    if is_link_way(way) {
        lemma_expansion_on_one_way_is_monotone(store, entities, way, budget, larger, first, second);
    } else if budget > 0 {
        crate::store::traversal::typed::lemma_expansion_to_types_is_monotone(
            store,
            entities,
            budget,
            larger,
            first,
            second,
        );
    } else {
        let other = EdgeDirection::HasLeftEntityIncoming;
        assert(only(way, budget) == only(other, 0));
        lemma_expansion_on_one_way_is_monotone(store, entities, other, 0, larger, first, second);
    }
}

} // verus!
