//! What a traversal finds in a store that answers every read the same way.
//!
//! A store is taken as a function from reads to answers. Of a traversal
//! whose reads are answered by such a store, this module shows that the
//! budget of each way is honoured: whoever is entered with budget for a way
//! has, in the end, an edge to everything that is found on that way, and
//! everything that is found on it was entered with at most one unit less.

use crate::identifier::{EntityEditionId, EntityId};
use crate::knowledge::Entity;
use crate::store::dependency::{visit, DependencyStatus};
use crate::store::filter::{Filter, ReadRequestKey};
use crate::store::traversal::laws::{
    after, consistent, found_by, lemma_after, lemma_begin, lemma_classify, lemma_enter,
    lemma_leave, lemma_resume, lemma_retop, lemma_seeded_model, lemma_taken_in, seeded_model,
};
use crate::store::traversal::model::{
    advance, begin, classify, earliest_start, edition_ids, enter, failed, fits, fresh_frame,
    is_complete, leave, link_edge, remaining, request_of, resume, taken_in, FrameModel, Model,
    PendingKey, ReadResponse,
};
use crate::subgraph::edges::{EdgeDirection, GraphResolveDepths};
use crate::subgraph::vertices::KnowledgeGraphVertex;
use crate::subgraph::SubgraphView;
use vstd::prelude::*;

verus! {

/// The editions that `store` finds on the way `direction` from `edition_id`.
pub open spec fn found_on(
    store: spec_fn(ReadRequestKey) -> ReadResponse,
    direction: EdgeDirection,
    edition_id: EntityEditionId,
) -> Seq<EntityEditionId> {
    match Filter::related(direction, edition_id) {
        Some(filter) => match store(ReadRequestKey::Entities(filter)) {
            ReadResponse::Entities(found) => edition_ids(found@),
            _ => Seq::empty(),
        },
        None => Seq::empty(),
    }
}

/// All editions that `store` holds of the entity `entity_id`.
pub open spec fn editions_of(
    store: spec_fn(ReadRequestKey) -> ReadResponse,
    entity_id: EntityId,
) -> Seq<Entity> {
    match store(ReadRequestKey::Entities(Filter::EntityByEntityId(entity_id))) {
        ReadResponse::Entities(editions) => editions@,
        _ => Seq::empty(),
    }
}

/// Whether the response at `index` is the answer of `store` to what the
/// traversal asked after the responses before it.
pub open spec fn answers_at(
    store: spec_fn(ReadRequestKey) -> ReadResponse,
    m: Model,
    responses: Seq<ReadResponse>,
    index: int,
) -> bool {
    let asked = request_of(after(m, responses.take(index)));
    asked is Some && responses[index] == store(asked->0)
}

/// Whether each of `responses` is the answer of `store` to what the
/// traversal asked when it got it.
pub open spec fn answered_by(
    store: spec_fn(ReadRequestKey) -> ReadResponse,
    m: Model,
    responses: Seq<ReadResponse>,
) -> bool {
    forall|i: int| 0 <= i < responses.len() ==> #[trigger] answers_at(store, m, responses, i)
}

/// Whether `target`, found on the way `direction` from `source`, has been
/// dealt with: the subgraph holds the edge to it, and it was entered with
/// at least `need` units of budget for the same way.
pub open spec fn handled(
    m: Model,
    store: spec_fn(ReadRequestKey) -> ReadResponse,
    source: EntityEditionId,
    direction: EdgeDirection,
    target: EntityEditionId,
    need: int,
) -> bool {
    &&& m.subgraph.edges.contains(
        link_edge(source, direction, target, earliest_start(editions_of(store, target.base_id))),
    )
    &&& m.knowledge.dom().contains(target)
    &&& m.knowledge[target].budget(direction) >= need
}

/// Whether the way `direction` from `edition_id` has been followed to its
/// end with `budget` units: everything that is found on it has been dealt
/// with, with one unit less.
pub open spec fn followed(
    m: Model,
    store: spec_fn(ReadRequestKey) -> ReadResponse,
    edition_id: EntityEditionId,
    direction: EdgeDirection,
    budget: int,
) -> bool {
    forall|j: int|
        0 <= j < found_on(store, direction, edition_id).len() ==> handled(
            m,
            store,
            edition_id,
            direction,
            #[trigger] found_on(store, direction, edition_id)[j],
            budget - 1,
        )
}

/// The rank of the next way to consider, or five when none is left.
pub open spec fn cursor_rank(cursor: Option<EdgeDirection>) -> nat {
    match cursor {
        Some(direction) => direction.rank(),
        None => 5,
    }
}

/// Whether `direction` is a way from an entity to an entity.
pub open spec fn is_link_way(direction: EdgeDirection) -> bool {
    direction != EdgeDirection::IsOfTypeOutgoing
}

/// Whether the frame at `index` has done what its place in the expansion
/// asks of it: the ways before the one it follows are followed to their end
/// or have no budget, and on the way it follows, it holds what the store
/// finds there and has dealt with everything before its position.
pub open spec fn frame_faithful(
    m: Model,
    store: spec_fn(ReadRequestKey) -> ReadResponse,
    index: int,
) -> bool {
    let frame = m.stack[index];
    let asking = index == m.stack.len() - 1 && m.pending == PendingKey::Related;
    &&& frame.direction.rank() < cursor_rank(frame.cursor) || (frame.direction
        == EdgeDirection::IsOfTypeOutgoing && frame.cursor == Some(
        EdgeDirection::IsOfTypeOutgoing,
    ))
    &&& forall|way: EdgeDirection|
        is_link_way(way) && way.rank() < frame.direction.rank() && #[trigger] frame.depths.budget(
            way,
        ) > 0 ==> followed(m, store, frame.edition_id, way, frame.depths.budget(way) as int)
    &&& forall|way: EdgeDirection|
        frame.direction.rank() < way.rank() < cursor_rank(frame.cursor)
            ==> #[trigger] frame.depths.budget(way) == 0
    &&& is_link_way(frame.direction) ==> {
        &&& frame.depths.budget(frame.direction) > 0
        &&& frame.onward == frame.depths.after_hop(frame.direction)
        &&& !asking ==> frame.related == found_on(store, frame.direction, frame.edition_id)
        &&& forall|j: int|
            0 <= j < frame.related.len() && (j < frame.position || (j == frame.position && index
                < m.stack.len() - 1)) ==> handled(
                m,
                store,
                frame.edition_id,
                frame.direction,
                #[trigger] frame.related[j],
                frame.onward.budget(frame.direction) as int,
            )
    }
    &&& !is_link_way(frame.direction) ==> frame.related.len() == 0
}

/// Whether the entity `edition_id` is under expansion with at least
/// `budget` units for the way `direction`.
pub open spec fn under_expansion(
    m: Model,
    edition_id: EntityEditionId,
    direction: EdgeDirection,
    budget: int,
) -> bool {
    exists|i: int|
        0 <= i < m.stack.len() && (#[trigger] m.stack[i]).edition_id == edition_id
            && m.stack[i].depths.budget(direction) >= budget
}

/// Whether every frame is faithful.
pub open spec fn frames_faithful(m: Model, store: spec_fn(ReadRequestKey) -> ReadResponse) -> bool {
    forall|i: int| 0 <= i < m.stack.len() ==> #[trigger] frame_faithful(m, store, i)
}

/// Whether whoever was entered with budget for a way has that way followed
/// to its end, or is still under expansion.
pub open spec fn ways_followed(m: Model, store: spec_fn(ReadRequestKey) -> ReadResponse) -> bool {
    forall|id: EntityEditionId, way: EdgeDirection|
        #![trigger m.knowledge[id].budget(way)]
        m.knowledge.dom().contains(id) && is_link_way(way) && m.knowledge[id].budget(way) > 0
            ==> followed(m, store, id, way, m.knowledge[id].budget(way) as int) || under_expansion(
            m,
            id,
            way,
            m.knowledge[id].budget(way) as int,
        )
}

/// Whether whoever was entered has a vertex, or is the one whose vertex is
/// asked for.
pub open spec fn entered_have_vertices(m: Model) -> bool {
    forall|id: EntityEditionId| #[trigger]
        m.knowledge.dom().contains(id) ==> m.subgraph.entities.dom().contains(id) || (
        m.stack.len() > 0 && m.stack.last().edition_id == id && m.pending == PendingKey::Vertex)
}

/// Whether every root that was taken was entered with the budgets of the query.
pub open spec fn roots_entered(m: Model) -> bool {
    forall|i: int|
        0 <= i < m.next_root && i < m.roots.len() ==> m.knowledge.dom().contains(
            #[trigger] m.roots[i],
        ) && m.knowledge[m.roots[i]].covers_spec(m.subgraph.depths)
}

/// What holds of every state of a traversal whose reads a store answers,
/// but for what is said of the roots.
pub open spec fn faithful_within(
    m: Model,
    store: spec_fn(ReadRequestKey) -> ReadResponse,
) -> bool {
    &&& frames_faithful(m, store)
    &&& ways_followed(m, store)
    &&& entered_have_vertices(m)
}

/// What holds of every state of a traversal whose reads a store answers.
pub open spec fn faithful(m: Model, store: spec_fn(ReadRequestKey) -> ReadResponse) -> bool {
    &&& faithful_within(m, store)
    &&& roots_entered(m)
}

/// Whether `later` has entered everything that `earlier` has, with budgets
/// that are nowhere smaller, and holds every edge that `earlier` holds.
pub open spec fn grown(later: Model, earlier: Model) -> bool {
    &&& earlier.subgraph.edges.subset_of(later.subgraph.edges)
    &&& earlier.subgraph.entities.dom().subset_of(later.subgraph.entities.dom())
    &&& earlier.subgraph.depths == later.subgraph.depths
    &&& earlier.subgraph.roots == later.subgraph.roots
    &&& earlier.roots == later.roots
    &&& forall|id: EntityEditionId| #[trigger]
        earlier.knowledge.dom().contains(id) ==> later.knowledge.dom().contains(id)
            && later.knowledge[id].covers_spec(earlier.knowledge[id])
}

/// What has been dealt with stays dealt with.
pub proof fn lemma_handled_stays(
    later: Model,
    earlier: Model,
    store: spec_fn(ReadRequestKey) -> ReadResponse,
    source: EntityEditionId,
    direction: EdgeDirection,
    target: EntityEditionId,
    need: int,
    less: int,
)
    requires
        grown(later, earlier),
        handled(earlier, store, source, direction, target, need),
        less <= need,
    ensures
        handled(later, store, source, direction, target, less),
{
    assert(earlier.knowledge.dom().contains(target));
    assert(later.knowledge[target].covers_spec(earlier.knowledge[target]));
}

/// A way that was followed to its end stays so, also for a smaller budget.
pub proof fn lemma_followed_stays(
    later: Model,
    earlier: Model,
    store: spec_fn(ReadRequestKey) -> ReadResponse,
    edition_id: EntityEditionId,
    direction: EdgeDirection,
    budget: int,
    less: int,
)
    requires
        grown(later, earlier),
        followed(earlier, store, edition_id, direction, budget),
        less <= budget,
    ensures
        followed(later, store, edition_id, direction, less),
{
    assert forall|j: int| 0 <= j < found_on(store, direction, edition_id).len() implies handled(
        later,
        store,
        edition_id,
        direction,
        #[trigger] found_on(store, direction, edition_id)[j],
        less - 1,
    ) by {
        lemma_handled_stays(
            later,
            earlier,
            store,
            edition_id,
            direction,
            found_on(store, direction, edition_id)[j],
            budget - 1,
            less - 1,
        );
    }
}

/// A frame that is as it was, in a state that has grown, is faithful if it was.
proof fn lemma_frame_stays(
    later: Model,
    earlier: Model,
    store: spec_fn(ReadRequestKey) -> ReadResponse,
    index: int,
)
    requires
        grown(later, earlier),
        0 <= index < earlier.stack.len(),
        index < later.stack.len(),
        later.stack[index] == earlier.stack[index],
        frame_faithful(earlier, store, index),
        (index == earlier.stack.len() - 1 && earlier.pending == PendingKey::Related) ==> (index
            == later.stack.len() - 1 && later.pending == PendingKey::Related),
        index < later.stack.len() - 1 ==> index < earlier.stack.len() - 1,
    ensures
        frame_faithful(later, store, index),
{
    let frame = earlier.stack[index];
    assert forall|way: EdgeDirection|
        is_link_way(way) && way.rank() < frame.direction.rank() && #[trigger] frame.depths.budget(
            way,
        ) > 0 implies followed(later, store, frame.edition_id, way, frame.depths.budget(way) as int) by {
        lemma_followed_stays(
            later,
            earlier,
            store,
            frame.edition_id,
            way,
            frame.depths.budget(way) as int,
            frame.depths.budget(way) as int,
        );
    }
    if is_link_way(frame.direction) {
        assert forall|j: int|
            0 <= j < frame.related.len() && (j < frame.position || (j == frame.position && index
                < later.stack.len() - 1)) implies handled(
            later,
            store,
            frame.edition_id,
            frame.direction,
            #[trigger] frame.related[j],
            frame.onward.budget(frame.direction) as int,
        ) by {
            lemma_handled_stays(
                later,
                earlier,
                store,
                frame.edition_id,
                frame.direction,
                frame.related[j],
                frame.onward.budget(frame.direction) as int,
                frame.onward.budget(frame.direction) as int,
            );
        }
    }
}

/// Ways that were followed, or are under expansion, stay so in a state that
/// has grown and has every frame that the earlier state had.
proof fn lemma_way_stays(
    later: Model,
    earlier: Model,
    store: spec_fn(ReadRequestKey) -> ReadResponse,
    id: EntityEditionId,
    way: EdgeDirection,
    budget: int,
)
    requires
        grown(later, earlier),
        followed(earlier, store, id, way, budget) || under_expansion(earlier, id, way, budget),
        forall|i: int|
            0 <= i < earlier.stack.len() ==> i < later.stack.len() && (
            #[trigger] later.stack[i]).edition_id == earlier.stack[i].edition_id
                && later.stack[i].depths == earlier.stack[i].depths,
    ensures
        followed(later, store, id, way, budget) || under_expansion(later, id, way, budget),
{
    if followed(earlier, store, id, way, budget) {
        lemma_followed_stays(later, earlier, store, id, way, budget, budget);
    } else {
        let i = choose|i: int|
            0 <= i < earlier.stack.len() && (#[trigger] earlier.stack[i]).edition_id == id
                && earlier.stack[i].depths.budget(way) >= budget;
        assert(later.stack[i].edition_id == id);
    }
}

/// Coming to an entity keeps the state faithful.
pub(crate) proof fn lemma_enter_keeps(
    m: Model,
    store: spec_fn(ReadRequestKey) -> ReadResponse,
    edition_id: EntityEditionId,
    depths: GraphResolveDepths,
)
    requires
        consistent(m),
        faithful_within(m, store),
        m.pending == PendingKey::Idle,
        m.stack.len() > 0 ==> {
            let top = m.stack.last();
            &&& is_link_way(top.direction)
            &&& top.position < top.related.len()
            &&& edition_id == top.related[top.position as int]
            &&& depths == top.onward
            &&& m.subgraph.edges.contains(
                link_edge(
                    top.edition_id,
                    top.direction,
                    edition_id,
                    earliest_start(editions_of(store, edition_id.base_id)),
                ),
            )
        },
    ensures
        faithful_within(enter(m, edition_id, depths), store),
        grown(enter(m, edition_id, depths), m),
        enter(m, edition_id, depths).knowledge.dom().contains(edition_id),
        enter(m, edition_id, depths).knowledge[edition_id].covers_spec(depths),
{
    let next = enter(m, edition_id, depths);
    let (knowledge, status) = visit(m.knowledge, edition_id, depths);
    assert(grown(next, m));
    if status == DependencyStatus::Resolved {
        assert(next.knowledge == m.knowledge);
        if m.stack.len() > 0 {
            let top = m.stack.last();
            let last = m.stack.len() - 1;
            assert(next.stack == m.stack.drop_last().push(
                FrameModel { position: top.position + 1, ..top },
            ));
            assert forall|i: int| 0 <= i < next.stack.len() implies #[trigger] frame_faithful(
                next,
                store,
                i,
            ) by {
                assert(frame_faithful(m, store, i));
                if i < last {
                    assert(next.stack[i] == m.stack[i]);
                    lemma_frame_stays(next, m, store, i);
                } else {
                    let frame = next.stack[i];
                    assert(frame == (FrameModel { position: top.position + 1, ..top }));
                    assert(handled(
                        next,
                        store,
                        top.edition_id,
                        top.direction,
                        edition_id,
                        top.onward.budget(top.direction) as int,
                    ));
                    assert forall|way: EdgeDirection|
                        is_link_way(way) && way.rank() < frame.direction.rank()
                            && #[trigger] frame.depths.budget(way) > 0 implies followed(
                        next,
                        store,
                        frame.edition_id,
                        way,
                        frame.depths.budget(way) as int,
                    ) by {
                        lemma_followed_stays(
                            next,
                            m,
                            store,
                            top.edition_id,
                            way,
                            top.depths.budget(way) as int,
                            top.depths.budget(way) as int,
                        );
                    }
                    assert forall|j: int|
                        0 <= j < frame.related.len() && (j < frame.position || (j
                            == frame.position && i < next.stack.len() - 1)) implies handled(
                        next,
                        store,
                        frame.edition_id,
                        frame.direction,
                        #[trigger] frame.related[j],
                        frame.onward.budget(frame.direction) as int,
                    ) by {
                        if j < top.position {
                            lemma_handled_stays(
                                next,
                                m,
                                store,
                                top.edition_id,
                                top.direction,
                                top.related[j],
                                top.onward.budget(top.direction) as int,
                                top.onward.budget(top.direction) as int,
                            );
                        }
                    }
                }
            }
            assert forall|id: EntityEditionId, way: EdgeDirection|
                #![trigger next.knowledge[id].budget(way)]
                next.knowledge.dom().contains(id) && is_link_way(way) && next.knowledge[id].budget(
                    way,
                ) > 0 implies followed(next, store, id, way, next.knowledge[id].budget(way) as int)
                || under_expansion(next, id, way, next.knowledge[id].budget(way) as int) by {
                assert(m.knowledge[id].budget(way) > 0);
                lemma_way_stays(next, m, store, id, way, m.knowledge[id].budget(way) as int);
            }
        } else {
            assert(next.stack =~= m.stack);
            assert forall|id: EntityEditionId, way: EdgeDirection|
                #![trigger next.knowledge[id].budget(way)]
                next.knowledge.dom().contains(id) && is_link_way(way) && next.knowledge[id].budget(
                    way,
                ) > 0 implies followed(next, store, id, way, next.knowledge[id].budget(way) as int)
                || under_expansion(next, id, way, next.knowledge[id].budget(way) as int) by {
                assert(m.knowledge[id].budget(way) > 0);
                lemma_way_stays(next, m, store, id, way, m.knowledge[id].budget(way) as int);
            }
        }
    } else {
        let fresh = fresh_frame(edition_id, depths);
        assert(next.stack == m.stack.push(fresh));
        assert forall|i: int| 0 <= i < next.stack.len() implies #[trigger] frame_faithful(
            next,
            store,
            i,
        ) by {
            if i < m.stack.len() {
                assert(frame_faithful(m, store, i));
                assert(next.stack[i] == m.stack[i]);
                let frame = m.stack[i];
                assert forall|way: EdgeDirection|
                    is_link_way(way) && way.rank() < frame.direction.rank()
                        && #[trigger] frame.depths.budget(way) > 0 implies followed(
                    next,
                    store,
                    frame.edition_id,
                    way,
                    frame.depths.budget(way) as int,
                ) by {
                    lemma_followed_stays(
                        next,
                        m,
                        store,
                        frame.edition_id,
                        way,
                        frame.depths.budget(way) as int,
                        frame.depths.budget(way) as int,
                    );
                }
                if is_link_way(frame.direction) {
                    assert forall|j: int|
                        0 <= j < frame.related.len() && (j < frame.position || (j
                            == frame.position && i < next.stack.len() - 1)) implies handled(
                        next,
                        store,
                        frame.edition_id,
                        frame.direction,
                        #[trigger] frame.related[j],
                        frame.onward.budget(frame.direction) as int,
                    ) by {
                        if j < frame.position || i < m.stack.len() - 1 {
                            lemma_handled_stays(
                                next,
                                m,
                                store,
                                frame.edition_id,
                                frame.direction,
                                frame.related[j],
                                frame.onward.budget(frame.direction) as int,
                                frame.onward.budget(frame.direction) as int,
                            );
                        }
                    }
                }
            } else {
                assert(next.stack[i] == fresh);
            }
        }
        assert forall|id: EntityEditionId, way: EdgeDirection|
            #![trigger next.knowledge[id].budget(way)]
            next.knowledge.dom().contains(id) && is_link_way(way) && next.knowledge[id].budget(way)
                > 0 implies followed(next, store, id, way, next.knowledge[id].budget(way) as int)
            || under_expansion(next, id, way, next.knowledge[id].budget(way) as int) by {
            let budget = next.knowledge[id].budget(way) as int;
            if id == edition_id && depths.budget(way) >= budget {
                assert(next.stack[m.stack.len() as int].edition_id == id);
            } else {
                assert(m.knowledge.dom().contains(id));
                assert(m.knowledge[id].budget(way) == budget);
                lemma_way_stays(next, m, store, id, way, budget);
            }
        }
    }
}

/// What a frame at the end of its expansion has followed: every way
/// between entities for which it had budget.
proof fn lemma_exhausted_frame(
    m: Model,
    store: spec_fn(ReadRequestKey) -> ReadResponse,
    index: int,
    way: EdgeDirection,
)
    requires
        0 <= index < m.stack.len(),
        frame_faithful(m, store, index),
        !(index == m.stack.len() - 1 && m.pending == PendingKey::Related),
        m.stack[index].position >= m.stack[index].related.len(),
        is_link_way(way),
        m.stack[index].depths.budget(way) > 0,
        way.rank() < cursor_rank(m.stack[index].cursor),
    ensures
        followed(
            m,
            store,
            m.stack[index].edition_id,
            way,
            m.stack[index].depths.budget(way) as int,
        ),
{
    let frame = m.stack[index];
    if way.rank() < frame.direction.rank() {
    } else if way == frame.direction {
        assert forall|j: int|
            0 <= j < found_on(store, way, frame.edition_id).len() implies handled(
            m,
            store,
            frame.edition_id,
            way,
            #[trigger] found_on(store, way, frame.edition_id)[j],
            frame.depths.budget(way) - 1,
        ) by {
            assert(handled(
                m,
                store,
                frame.edition_id,
                frame.direction,
                frame.related[j],
                frame.onward.budget(frame.direction) as int,
            ));
        }
    } else {
        assert(way.rank() != frame.direction.rank());
        assert(frame.depths.budget(way) == 0);
    }
}

/// Ending the expansion of an entity keeps the state faithful.
pub(crate) proof fn lemma_leave_keeps(m: Model, store: spec_fn(ReadRequestKey) -> ReadResponse)
    requires
        consistent(m),
        faithful_within(m, store),
        m.pending == PendingKey::Idle,
        m.stack.len() > 0,
        m.stack.last().cursor is None,
        m.stack.last().position >= m.stack.last().related.len(),
    ensures
        faithful_within(leave(m), store),
        grown(leave(m), m),
{
    let next = leave(m);
    let last = m.stack.len() - 1;
    let rest = m.stack.drop_last();
    assert(frame_faithful(m, store, last));
    assert forall|i: int| 0 <= i < rest.len() implies #[trigger] rest[i] == m.stack[i] by {}
    if rest.len() > 0 {
        let parent = rest.last();
        assert(found_by(m.stack[last], m.stack[last - 1]));
        assert(next.stack == rest.drop_last().push(
            FrameModel { position: parent.position + 1, ..parent },
        ));
        assert forall|i: int| 0 <= i < next.stack.len() implies #[trigger] frame_faithful(
            next,
            store,
            i,
        ) by {
            assert(frame_faithful(m, store, i));
            if i < last - 1 {
                assert(next.stack[i] == m.stack[i]);
                lemma_frame_stays(next, m, store, i);
            } else {
                let frame = next.stack[i];
                assert(frame == (FrameModel { position: parent.position + 1, ..parent }));
                assert(m.stack[i] == parent);
                assert(is_link_way(parent.direction));
                assert forall|j: int|
                    0 <= j < frame.related.len() && (j < frame.position || (j == frame.position
                        && i < next.stack.len() - 1)) implies handled(
                    next,
                    store,
                    frame.edition_id,
                    frame.direction,
                    #[trigger] frame.related[j],
                    frame.onward.budget(frame.direction) as int,
                ) by {
                    assert(handled(
                        m,
                        store,
                        parent.edition_id,
                        parent.direction,
                        parent.related[j],
                        parent.onward.budget(parent.direction) as int,
                    ));
                }
            }
        }
    } else {
        assert(next.stack =~= Seq::<FrameModel>::empty());
    }
    assert forall|id: EntityEditionId, way: EdgeDirection|
        #![trigger next.knowledge[id].budget(way)]
        next.knowledge.dom().contains(id) && is_link_way(way) && next.knowledge[id].budget(way)
            > 0 implies followed(next, store, id, way, next.knowledge[id].budget(way) as int)
        || under_expansion(next, id, way, next.knowledge[id].budget(way) as int) by {
        let budget = m.knowledge[id].budget(way) as int;
        if followed(m, store, id, way, budget) {
        } else {
            let i = choose|i: int|
                0 <= i < m.stack.len() && (#[trigger] m.stack[i]).edition_id == id
                    && m.stack[i].depths.budget(way) >= budget;
            if i == last {
                lemma_exhausted_frame(m, store, last, way);
                lemma_followed_stays(
                    m,
                    m,
                    store,
                    id,
                    way,
                    m.stack[last].depths.budget(way) as int,
                    budget,
                );
            } else {
                assert(next.stack[i].edition_id == id && next.stack[i].depths
                    == m.stack[i].depths);
            }
        }
    }
}

/// Passing over a way that has no budget, or over the way to the type,
/// keeps the state faithful.
pub(crate) proof fn lemma_retop_keeps(
    m: Model,
    store: spec_fn(ReadRequestKey) -> ReadResponse,
    moved: FrameModel,
)
    requires
        consistent(m),
        faithful_within(m, store),
        m.pending == PendingKey::Idle,
        m.stack.len() > 0,
        m.stack.last().cursor is Some,
        m.stack.last().position >= m.stack.last().related.len(),
        moved == (FrameModel {
            cursor: m.stack.last().cursor->0.successor(),
            ..m.stack.last()
        }),
        m.stack.last().depths.budget(m.stack.last().cursor->0) == 0 || m.stack.last().cursor->0
            == EdgeDirection::IsOfTypeOutgoing,
    ensures
        faithful_within(Model { stack: m.stack.drop_last().push(moved), ..m }, store),
        grown(Model { stack: m.stack.drop_last().push(moved), ..m }, m),
{
    let next = Model { stack: m.stack.drop_last().push(moved), ..m };
    let last = m.stack.len() - 1;
    let top = m.stack.last();
    let passed = top.cursor->0;
    assert forall|i: int| 0 <= i < next.stack.len() implies #[trigger] frame_faithful(
        next,
        store,
        i,
    ) by {
        assert(frame_faithful(m, store, i));
        if i < last {
            assert(next.stack[i] == m.stack[i]);
            lemma_frame_stays(next, m, store, i);
        } else {
            assert(next.stack[i] == moved);
            assert forall|way: EdgeDirection|
                moved.direction.rank() < way.rank() < cursor_rank(moved.cursor)
                    implies #[trigger] moved.depths.budget(way) == 0 by {
                if way.rank() < cursor_rank(top.cursor) {
                } else {
                    assert(way == passed);
                }
            }
        }
    }
    assert forall|id: EntityEditionId, way: EdgeDirection|
        #![trigger next.knowledge[id].budget(way)]
        next.knowledge.dom().contains(id) && is_link_way(way) && next.knowledge[id].budget(way)
            > 0 implies followed(next, store, id, way, next.knowledge[id].budget(way) as int)
        || under_expansion(next, id, way, next.knowledge[id].budget(way) as int) by {
        lemma_way_stays(next, m, store, id, way, m.knowledge[id].budget(way) as int);
    }
}

/// Taking a way between entities keeps the state faithful.
pub(crate) proof fn lemma_take_way_keeps(
    m: Model,
    store: spec_fn(ReadRequestKey) -> ReadResponse,
    direction: EdgeDirection,
)
    requires
        consistent(m),
        faithful_within(m, store),
        m.pending == PendingKey::Idle,
        m.stack.len() > 0,
        m.stack.last().cursor == Some(direction),
        m.stack.last().position >= m.stack.last().related.len(),
        m.stack.last().depths.budget(direction) > 0,
        is_link_way(direction),
    ensures
        ({
            let top = m.stack.last();
            let next = Model {
                stack: m.stack.drop_last().push(
                    FrameModel {
                        direction,
                        onward: top.depths.after_hop(direction),
                        related: Seq::empty(),
                        position: 0,
                        cursor: direction.successor(),
                        ..top
                    },
                ),
                pending: PendingKey::Related,
                ..m
            };
            faithful_within(next, store) && grown(next, m)
        }),
{
    let top = m.stack.last();
    let taken = FrameModel {
        direction,
        onward: top.depths.after_hop(direction),
        related: Seq::empty(),
        position: 0,
        cursor: direction.successor(),
        ..top
    };
    let next = Model { stack: m.stack.drop_last().push(taken), pending: PendingKey::Related, ..m };
    let last = m.stack.len() - 1;
    assert forall|i: int| 0 <= i < next.stack.len() implies #[trigger] frame_faithful(
        next,
        store,
        i,
    ) by {
        assert(frame_faithful(m, store, i));
        if i < last {
            assert(next.stack[i] == m.stack[i]);
            lemma_frame_stays(next, m, store, i);
        } else {
            assert(next.stack[i] == taken);
            assert forall|way: EdgeDirection|
                is_link_way(way) && way.rank() < taken.direction.rank()
                    && #[trigger] taken.depths.budget(way) > 0 implies followed(
                next,
                store,
                taken.edition_id,
                way,
                taken.depths.budget(way) as int,
            ) by {
                lemma_exhausted_frame(m, store, last, way);
                lemma_followed_stays(
                    next,
                    m,
                    store,
                    top.edition_id,
                    way,
                    top.depths.budget(way) as int,
                    top.depths.budget(way) as int,
                );
            }
        }
    }
    assert forall|id: EntityEditionId, way: EdgeDirection|
        #![trigger next.knowledge[id].budget(way)]
        next.knowledge.dom().contains(id) && is_link_way(way) && next.knowledge[id].budget(way)
            > 0 implies followed(next, store, id, way, next.knowledge[id].budget(way) as int)
        || under_expansion(next, id, way, next.knowledge[id].budget(way) as int) by {
        lemma_way_stays(next, m, store, id, way, m.knowledge[id].budget(way) as int);
    }
}

/// Joining an entity to its type keeps the state faithful.
pub(crate) proof fn lemma_classify_keeps(m: Model, store: spec_fn(ReadRequestKey) -> ReadResponse)
    requires
        consistent(m),
        faithful_within(m, store),
        m.pending == PendingKey::Idle,
        m.stack.len() > 0,
    ensures
        faithful_within(classify(m), store),
        grown(classify(m), m),
{
    let next = classify(m);
    assert(next.stack == m.stack);
    assert forall|i: int| 0 <= i < next.stack.len() implies #[trigger] frame_faithful(
        next,
        store,
        i,
    ) by {
        assert(frame_faithful(m, store, i));
        lemma_frame_stays(next, m, store, i);
    }
    assert forall|id: EntityEditionId, way: EdgeDirection|
        #![trigger next.knowledge[id].budget(way)]
        next.knowledge.dom().contains(id) && is_link_way(way) && next.knowledge[id].budget(way)
            > 0 implies followed(next, store, id, way, next.knowledge[id].budget(way) as int)
        || under_expansion(next, id, way, next.knowledge[id].budget(way) as int) by {
        lemma_way_stays(next, m, store, id, way, m.knowledge[id].budget(way) as int);
    }
}

/// Growing is transitive.
pub(crate) proof fn lemma_grown_twice(last: Model, middle: Model, first: Model)
    requires
        grown(last, middle),
        grown(middle, first),
    ensures
        grown(last, first),
{
    assert forall|id: EntityEditionId| #[trigger]
        first.knowledge.dom().contains(id) implies last.knowledge.dom().contains(id)
        && last.knowledge[id].covers_spec(first.knowledge[id]) by {
        assert(middle.knowledge.dom().contains(id));
    }
}

/// Roots that were entered stay entered.
pub(crate) proof fn lemma_roots_stay(later: Model, earlier: Model)
    requires
        grown(later, earlier),
        roots_entered(earlier),
        later.next_root == earlier.next_root,
    ensures
        roots_entered(later),
{
    assert forall|i: int| 0 <= i < later.next_root && i < later.roots.len() implies later.knowledge.dom().contains(
        #[trigger] later.roots[i],
    ) && later.knowledge[later.roots[i]].covers_spec(later.subgraph.depths) by {
        assert(earlier.knowledge.dom().contains(earlier.roots[i]));
    }
}

/// Going on without the store keeps a faithful state faithful.
pub proof fn lemma_advance_keeps(m: Model, store: spec_fn(ReadRequestKey) -> ReadResponse)
    requires
        consistent(m),
        faithful(m, store),
    ensures
        faithful(advance(m), store),
        grown(advance(m), m),
    decreases m.roots.len() - m.next_root, m.stack.len(), remaining(
        if m.stack.len() > 0 {
            m.stack.last().cursor
        } else {
            None
        },
    ),
{
    if m.failure is Some || m.pending != PendingKey::Idle {
    } else if m.stack.len() == 0 {
        if m.next_root < m.roots.len() {
            let taken = Model { next_root: m.next_root + 1, ..m };
            let root = m.roots[m.next_root as int];
            let entered = enter(taken, root, m.subgraph.depths);
            assert(frames_faithful(taken, store));
            assert(ways_followed(taken, store));
            lemma_enter(taken, root, m.subgraph.depths);
            lemma_enter_keeps(taken, store, root, m.subgraph.depths);
            assert(roots_entered(entered)) by {
                assert forall|i: int|
                    0 <= i < entered.next_root && i < entered.roots.len() implies entered.knowledge.dom().contains(
                    #[trigger] entered.roots[i],
                ) && entered.knowledge[entered.roots[i]].covers_spec(entered.subgraph.depths) by {
                    if i < m.next_root {
                        assert(m.knowledge.dom().contains(m.roots[i]));
                    }
                }
            }
            lemma_advance_keeps(entered, store);
            lemma_grown_twice(advance(entered), entered, m);
        }
    } else {
        let top = m.stack.last();
        let last = m.stack.len() - 1;
        if top.position < top.related.len() {
            let next = Model { pending: PendingKey::Editions, ..m };
            assert forall|i: int| 0 <= i < next.stack.len() implies #[trigger] frame_faithful(
                next,
                store,
                i,
            ) by {
                assert(frame_faithful(m, store, i));
                lemma_frame_stays(next, m, store, i);
            }
            assert forall|id: EntityEditionId, way: EdgeDirection|
                #![trigger next.knowledge[id].budget(way)]
                next.knowledge.dom().contains(id) && is_link_way(way) && next.knowledge[id].budget(
                    way,
                ) > 0 implies followed(next, store, id, way, next.knowledge[id].budget(way) as int)
                || under_expansion(next, id, way, next.knowledge[id].budget(way) as int) by {
                lemma_way_stays(next, m, store, id, way, m.knowledge[id].budget(way) as int);
            }
        } else {
            match top.cursor {
                None => {
                    lemma_leave(m);
                    lemma_leave_keeps(m, store);
                    lemma_roots_stay(leave(m), m);
                    lemma_advance_keeps(leave(m), store);
                    lemma_grown_twice(advance(leave(m)), leave(m), m);
                },
                Some(direction) => {
                    let moved = FrameModel { cursor: direction.successor(), ..top };
                    let turned = Model { stack: m.stack.drop_last().push(moved), ..m };
                    if top.depths.budget(direction) == 0 {
                        lemma_retop(m, moved);
                        lemma_retop_keeps(m, store, moved);
                        lemma_roots_stay(turned, m);
                        lemma_advance_keeps(turned, store);
                        lemma_grown_twice(advance(turned), turned, m);
                    } else if direction == EdgeDirection::IsOfTypeOutgoing {
                        lemma_retop(m, moved);
                        lemma_retop_keeps(m, store, moved);
                        lemma_roots_stay(turned, m);
                        lemma_classify(turned);
                        lemma_classify_keeps(turned, store);
                        lemma_roots_stay(classify(turned), turned);
                        lemma_grown_twice(classify(turned), turned, m);
                        lemma_advance_keeps(classify(turned), store);
                        lemma_grown_twice(advance(classify(turned)), classify(turned), m);
                    } else {
                        lemma_take_way_keeps(m, store, direction);
                    }
                },
            }
        }
    }
}

/// Taking in the answer of the store keeps a faithful state faithful.
pub(crate) proof fn lemma_taken_in_keeps(
    m: Model,
    store: spec_fn(ReadRequestKey) -> ReadResponse,
    response: ReadResponse,
)
    requires
        consistent(m),
        faithful(m, store),
        request_of(m) is Some,
        response == store(request_of(m)->0),
        fits(m, response),
    ensures
        faithful(taken_in(m, response), store),
        grown(taken_in(m, response), m),
        m.pending == PendingKey::Editions ==> {
            let top = m.stack.last();
            let target = top.related[top.position as int];
            &&& is_link_way(top.direction)
            &&& taken_in(m, response).subgraph.edges.contains(
                link_edge(
                    top.edition_id,
                    top.direction,
                    target,
                    earliest_start(editions_of(store, target.base_id)),
                ),
            )
        },
{
    let top = m.stack.last();
    let last = m.stack.len() - 1;
    let next = taken_in(m, response);
    assert(frame_faithful(m, store, last));
    lemma_taken_in(m, response);
    if m.pending == PendingKey::Related {
        let found = response->Entities_0;
        let answered = FrameModel { related: edition_ids(found@), position: 0, ..top };
        assert(found_on(store, top.direction, top.edition_id) == edition_ids(found@));
        assert forall|i: int| 0 <= i < next.stack.len() implies #[trigger] frame_faithful(
            next,
            store,
            i,
        ) by {
            assert(frame_faithful(m, store, i));
            if i < last {
                assert(next.stack[i] == m.stack[i]);
                lemma_frame_stays(next, m, store, i);
            } else {
                assert(next.stack[i] == answered);
            }
        }
        assert forall|id: EntityEditionId, way: EdgeDirection|
            #![trigger next.knowledge[id].budget(way)]
            next.knowledge.dom().contains(id) && is_link_way(way) && next.knowledge[id].budget(way)
                > 0 implies followed(next, store, id, way, next.knowledge[id].budget(way) as int)
            || under_expansion(next, id, way, next.knowledge[id].budget(way) as int) by {
            lemma_way_stays(next, m, store, id, way, m.knowledge[id].budget(way) as int);
        }
        lemma_roots_stay(next, m);
    } else {
        if m.pending == PendingKey::Editions {
            let target = top.related[top.position as int];
            assert(editions_of(store, target.base_id) == response->Entities_0@);
        }
        lemma_settled_keeps(m, store, next);
    }
}

/// The answer of the store to what the traversal asks keeps a faithful
/// state faithful.
pub proof fn lemma_resume_keeps(
    m: Model,
    store: spec_fn(ReadRequestKey) -> ReadResponse,
    response: ReadResponse,
)
    requires
        consistent(m),
        faithful(m, store),
        request_of(m) is Some,
        response == store(request_of(m)->0),
    ensures
        faithful(resume(m, response), store),
        grown(resume(m, response), m),
{
    if response is Failed {
        lemma_frozen_keeps(m, store, failed(m, response->Failed_0.chain()));
    } else if !fits(m, response) {
        lemma_frozen_keeps(
            m,
            store,
            failed(m, seq![crate::store::traversal::model::missing_editions()]),
        );
        lemma_frozen_keeps(
            m,
            store,
            failed(m, seq![crate::store::traversal::model::unexpected_answer()]),
        );
    } else {
        let next = taken_in(m, response);
        lemma_taken_in(m, response);
        lemma_taken_in_keeps(m, store, response);
        if m.pending == PendingKey::Editions {
            let top = m.stack.last();
            let target = top.related[top.position as int];
            lemma_enter(next, target, top.onward);
            lemma_enter_keeps(next, store, target, top.onward);
            let entered = enter(next, target, top.onward);
            lemma_grown_twice(entered, next, m);
            lemma_roots_stay(entered, m);
            lemma_advance_keeps(entered, store);
            lemma_grown_twice(advance(entered), entered, m);
        } else {
            lemma_advance_keeps(next, store);
            lemma_grown_twice(advance(next), next, m);
        }
    }
}

/// A state that differs from a faithful one only in its failure is faithful.
pub(crate) proof fn lemma_frozen_keeps(
    m: Model,
    store: spec_fn(ReadRequestKey) -> ReadResponse,
    next: Model,
)
    requires
        faithful(m, store),
        next == (Model { failure: next.failure, ..m }),
    ensures
        faithful(next, store),
        grown(next, m),
{
    assert forall|i: int| 0 <= i < next.stack.len() implies #[trigger] frame_faithful(
        next,
        store,
        i,
    ) by {
        assert(frame_faithful(m, store, i));
        lemma_frame_stays(next, m, store, i);
    }
    assert forall|id: EntityEditionId, way: EdgeDirection|
        #![trigger next.knowledge[id].budget(way)]
        next.knowledge.dom().contains(id) && is_link_way(way) && next.knowledge[id].budget(way)
            > 0 implies followed(next, store, id, way, next.knowledge[id].budget(way) as int)
        || under_expansion(next, id, way, next.knowledge[id].budget(way) as int) by {
        lemma_way_stays(next, m, store, id, way, m.knowledge[id].budget(way) as int);
    }
}

/// A state that has the stack and the visits of a faithful one, holds at
/// least its vertices and edges, and waits for nothing, is faithful.
proof fn lemma_settled_keeps(
    m: Model,
    store: spec_fn(ReadRequestKey) -> ReadResponse,
    next: Model,
)
    requires
        faithful(m, store),
        m.stack.len() > 0,
        next == (Model { subgraph: next.subgraph, pending: PendingKey::Idle, ..m }),
        m.subgraph.edges.subset_of(next.subgraph.edges),
        m.subgraph.entities.dom().subset_of(next.subgraph.entities.dom()),
        m.subgraph.depths == next.subgraph.depths,
        m.subgraph.roots == next.subgraph.roots,
        m.pending == PendingKey::Vertex ==> next.subgraph.entities.dom().contains(
            m.stack.last().edition_id,
        ),
        m.pending != PendingKey::Related,
    ensures
        faithful(next, store),
        grown(next, m),
{
    assert forall|i: int| 0 <= i < next.stack.len() implies #[trigger] frame_faithful(
        next,
        store,
        i,
    ) by {
        assert(frame_faithful(m, store, i));
        lemma_frame_stays(next, m, store, i);
    }
    assert forall|id: EntityEditionId, way: EdgeDirection|
        #![trigger next.knowledge[id].budget(way)]
        next.knowledge.dom().contains(id) && is_link_way(way) && next.knowledge[id].budget(way)
            > 0 implies followed(next, store, id, way, next.knowledge[id].budget(way) as int)
        || under_expansion(next, id, way, next.knowledge[id].budget(way) as int) by {
        lemma_way_stays(next, m, store, id, way, m.knowledge[id].budget(way) as int);
    }
    lemma_roots_stay(next, m);
}

/// What was answered by a store was so at every moment before.
pub(crate) proof fn lemma_answered_before(
    store: spec_fn(ReadRequestKey) -> ReadResponse,
    m: Model,
    responses: Seq<ReadResponse>,
)
    requires
        answered_by(store, m, responses),
        responses.len() > 0,
    ensures
        answered_by(store, m, responses.drop_last()),
        request_of(after(m, responses.drop_last())) is Some,
        responses.last() == store(request_of(after(m, responses.drop_last()))->0),
{
    let shorter = responses.drop_last();
    assert forall|i: int| 0 <= i < shorter.len() implies #[trigger] answers_at(
        store,
        m,
        shorter,
        i,
    ) by {
        assert(answers_at(store, m, responses, i));
        assert(shorter.take(i) =~= responses.take(i));
    }
    assert(answers_at(store, m, responses, responses.len() - 1));
    assert(responses.take(responses.len() - 1) =~= shorter);
}

/// Every state of a query whose reads are answered by a store is faithful
/// to that store.
pub proof fn lemma_every_state_is_faithful(
    store: spec_fn(ReadRequestKey) -> ReadResponse,
    entities: Seq<Entity>,
    depths: GraphResolveDepths,
    responses: Seq<ReadResponse>,
)
    requires
        answered_by(store, begin(entities, depths), responses),
    ensures
        consistent(after(begin(entities, depths), responses)),
        faithful(after(begin(entities, depths), responses), store),
        after(begin(entities, depths), responses).roots == edition_ids(entities),
        after(begin(entities, depths), responses).subgraph.depths == depths,
        after(begin(entities, depths), responses).subgraph.roots == seeded_model(
            entities,
            depths,
        ).subgraph.roots,
    decreases responses.len(),
{
    let start = begin(entities, depths);
    lemma_begin(entities, depths);
    lemma_after(start, responses);
    if responses.len() == 0 {
        let seeds = seeded_model(entities, depths);
        lemma_seeded_model(entities, depths);
        assert(faithful(seeds, store));
        lemma_advance_keeps(seeds, store);
        crate::store::traversal::laws::lemma_seeded(SubgraphView::empty(depths), entities);
    } else {
        lemma_answered_before(store, start, responses);
        lemma_every_state_is_faithful(store, entities, depths, responses.drop_last());
        lemma_resume_keeps(after(start, responses.drop_last()), store, responses.last());
    }
}

/// Whether `edition_id` is a root or can be reached from a root in at most
/// `hops` hops, all on the way `way`.
pub open spec fn within_hops(
    store: spec_fn(ReadRequestKey) -> ReadResponse,
    roots: Seq<EntityEditionId>,
    way: EdgeDirection,
    edition_id: EntityEditionId,
    hops: nat,
) -> bool
    decreases hops,
{
    roots.contains(edition_id) || (hops > 0 && exists|from: EntityEditionId|
        within_hops(store, roots, way, from, (hops - 1) as nat) && #[trigger] found_on(
            store,
            way,
            from,
        ).contains(edition_id))
}

/// In a complete subgraph the budget of every way between entities is
/// honoured. Whoever can be reached from a root in `hops` hops on one way,
/// where the query has at least `hops` units of budget for that way, is a
/// vertex of the subgraph, and was entered with at most `hops` units less
/// than the query has for that way.
pub proof fn lemma_everything_within_budget_is_found(
    store: spec_fn(ReadRequestKey) -> ReadResponse,
    entities: Seq<Entity>,
    depths: GraphResolveDepths,
    responses: Seq<ReadResponse>,
    way: EdgeDirection,
    edition_id: EntityEditionId,
    hops: nat,
)
    requires
        answered_by(store, begin(entities, depths), responses),
        is_complete(after(begin(entities, depths), responses)),
        is_link_way(way),
        hops <= depths.budget(way),
        within_hops(store, edition_ids(entities), way, edition_id, hops),
    ensures
        after(begin(entities, depths), responses).subgraph.entities.dom().contains(edition_id),
        after(begin(entities, depths), responses).knowledge.dom().contains(edition_id),
        after(begin(entities, depths), responses).knowledge[edition_id].budget(way) + hops
            >= depths.budget(way),
    decreases hops,
{
    let end = after(begin(entities, depths), responses);
    let roots = edition_ids(entities);
    lemma_every_state_is_faithful(store, entities, depths, responses);
    if roots.contains(edition_id) {
        let i = choose|i: int| 0 <= i < roots.len() && roots[i] == edition_id;
        assert(end.knowledge.dom().contains(end.roots[i]));
    } else {
        let from = choose|from: EntityEditionId|
            within_hops(store, roots, way, from, (hops - 1) as nat) && #[trigger] found_on(
                store,
                way,
                from,
            ).contains(edition_id);
        lemma_everything_within_budget_is_found(
            store,
            entities,
            depths,
            responses,
            way,
            from,
            (hops - 1) as nat,
        );
        let budget = end.knowledge[from].budget(way);
        assert(budget > 0);
        assert(!under_expansion(end, from, way, budget as int));
        assert(followed(end, store, from, way, budget as int));
        let j = choose|j: int|
            0 <= j < found_on(store, way, from).len() && found_on(store, way, from)[j]
                == edition_id;
        assert(handled(end, store, from, way, found_on(store, way, from)[j], budget - 1));
    }
    assert(end.knowledge.dom().contains(edition_id));
}

/// In a complete subgraph every edge is present that the budget of a way
/// between entities allows: from whoever can be reached from a root in
/// fewer hops on that way than the query has budget for it, to everything
/// that is found on that way.
pub proof fn lemma_every_edge_within_budget_is_found(
    store: spec_fn(ReadRequestKey) -> ReadResponse,
    entities: Seq<Entity>,
    depths: GraphResolveDepths,
    responses: Seq<ReadResponse>,
    way: EdgeDirection,
    from: EntityEditionId,
    to: EntityEditionId,
    hops: nat,
)
    requires
        answered_by(store, begin(entities, depths), responses),
        is_complete(after(begin(entities, depths), responses)),
        is_link_way(way),
        hops < depths.budget(way),
        within_hops(store, edition_ids(entities), way, from, hops),
        found_on(store, way, from).contains(to),
    ensures
        after(begin(entities, depths), responses).subgraph.edges.contains(
            link_edge(from, way, to, earliest_start(editions_of(store, to.base_id))),
        ),
{
    let end = after(begin(entities, depths), responses);
    lemma_every_state_is_faithful(store, entities, depths, responses);
    lemma_everything_within_budget_is_found(store, entities, depths, responses, way, from, hops);
    let budget = end.knowledge[from].budget(way);
    assert(budget > 0);
    assert(!under_expansion(end, from, way, budget as int));
    assert(followed(end, store, from, way, budget as int));
    let j = choose|j: int|
        0 <= j < found_on(store, way, from).len() && found_on(store, way, from)[j] == to;
    assert(handled(end, store, from, way, found_on(store, way, from)[j], budget - 1));
}

/// The vertex that `store` holds for the entity edition `edition_id`.
pub open spec fn vertex_of(
    store: spec_fn(ReadRequestKey) -> ReadResponse,
    edition_id: EntityEditionId,
) -> KnowledgeGraphVertex {
    KnowledgeGraphVertex::Entity(
        store(ReadRequestKey::Entity(Filter::EntityByEditionId(edition_id)))->Entity_0,
    )
}

/// Every vertex of an entity holds what the query was begun with, if the
/// edition is one of those that the query was begun with, and what the
/// store holds for the edition otherwise.
pub proof fn lemma_vertices_hold_seeds_or_answers(
    store: spec_fn(ReadRequestKey) -> ReadResponse,
    entities: Seq<Entity>,
    depths: GraphResolveDepths,
    responses: Seq<ReadResponse>,
    edition_id: EntityEditionId,
)
    requires
        answered_by(store, begin(entities, depths), responses),
        after(begin(entities, depths), responses).subgraph.entities.dom().contains(edition_id),
    ensures
        after(begin(entities, depths), responses).subgraph.entities[edition_id] == (if seeded_model(
            entities,
            depths,
        ).subgraph.entities.dom().contains(edition_id) {
            seeded_model(entities, depths).subgraph.entities[edition_id]
        } else {
            vertex_of(store, edition_id)
        }),
    decreases responses.len(),
{
    let start = begin(entities, depths);
    let seeds = seeded_model(entities, depths);
    lemma_seeded_model(entities, depths);
    if responses.len() == 0 {
        crate::store::traversal::laws::lemma_advance_adds_edges_only(seeds);
    } else {
        let before = after(start, responses.drop_last());
        let response = responses.last();
        lemma_answered_before(store, start, responses);
        crate::store::traversal::laws::lemma_every_state_is_consistent(
            entities,
            depths,
            responses.drop_last(),
        );
        crate::store::traversal::laws::lemma_resume_adds_what_it_takes_in(before, response);
        if before.subgraph.entities.dom().contains(edition_id) {
            lemma_vertices_hold_seeds_or_answers(
                store,
                entities,
                depths,
                responses.drop_last(),
                edition_id,
            );
            lemma_resume(before, response);
        } else {
            assert(before.pending == PendingKey::Vertex);
            assert(edition_id == before.stack.last().edition_id);
        }
    }
}

/// Two runs of one query that the same store answers agree as far as both go.
proof fn lemma_answers_agree(
    store: spec_fn(ReadRequestKey) -> ReadResponse,
    m: Model,
    first: Seq<ReadResponse>,
    second: Seq<ReadResponse>,
    upto: int,
)
    requires
        answered_by(store, m, first),
        answered_by(store, m, second),
        0 <= upto <= first.len(),
        upto <= second.len(),
    ensures
        first.take(upto) == second.take(upto),
    decreases upto,
{
    if upto == 0 {
        assert(first.take(0) =~= second.take(0));
    } else {
        lemma_answers_agree(store, m, first, second, upto - 1);
        assert(answers_at(store, m, first, upto - 1));
        assert(answers_at(store, m, second, upto - 1));
        assert(first[upto - 1] == second[upto - 1]);
        assert(first.take(upto) =~= first.take(upto - 1).push(first[upto - 1]));
        assert(second.take(upto) =~= second.take(upto - 1).push(second[upto - 1]));
    }
}

/// The subgraph of a query is determined by the query and the store: two
/// runs of one query that the same store answers, and that have both come
/// to their end or failed, took the same answers and end in the same state.
pub proof fn lemma_the_store_determines_the_subgraph(
    store: spec_fn(ReadRequestKey) -> ReadResponse,
    entities: Seq<Entity>,
    depths: GraphResolveDepths,
    first: Seq<ReadResponse>,
    second: Seq<ReadResponse>,
)
    requires
        answered_by(store, begin(entities, depths), first),
        answered_by(store, begin(entities, depths), second),
        request_of(after(begin(entities, depths), first)) is None,
        request_of(after(begin(entities, depths), second)) is None,
    ensures
        first == second,
        after(begin(entities, depths), first) == after(begin(entities, depths), second),
{
    let start = begin(entities, depths);
    if first.len() <= second.len() {
        lemma_answers_agree(store, start, first, second, first.len() as int);
        assert(first.take(first.len() as int) =~= first);
        if first.len() < second.len() {
            assert(answers_at(store, start, second, first.len() as int));
        }
        assert(second.take(second.len() as int) =~= second);
    } else {
        lemma_answers_agree(store, start, first, second, second.len() as int);
        assert(second.take(second.len() as int) =~= second);
        assert(answers_at(store, start, first, second.len() as int));
    }
}

} // verus!
