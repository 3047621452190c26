//! Every traversal ends.
//!
//! For a store that answers every read the same way, the reads that a
//! traversal can still need are counted here, generously. Every answer
//! lowers the count, so no traversal takes more answers than the count of
//! the state in which it began.

use crate::identifier::EntityEditionId;
use crate::knowledge::Entity;
use crate::store::dependency::{visit, DependencyStatus};
use crate::store::filter::ReadRequestKey;
use crate::store::traversal::coverage::{answered_by, answers_at, found_on, lemma_answered_before};
use crate::store::traversal::laws::{after, seeded_model};
use crate::store::traversal::model::{
    advance, begin, bumped, classify, edition_ids, enter, fits, fresh_frame, leave, remaining,
    request_of, resume, taken_in, FrameModel, Model, PendingKey, ReadResponse,
};
use crate::subgraph::edges::{EdgeDirection, GraphResolveDepths};
use vstd::prelude::*;

verus! {

/// A piece of the work of a traversal.
pub enum Task {
    /// To take the ways of an entity, from `cursor` on, with `depths`.
    Ways { edition_id: EntityEditionId, depths: GraphResolveDepths, cursor: Option<EdgeDirection> },
    /// To deal with the editions found on a way, from `position` on, each
    /// of which is entered with `onward`.
    Found { onward: GraphResolveDepths, related: Seq<EntityEditionId>, position: nat },
}

/// The budgets with which a task is done.
pub open spec fn budgets_of(task: Task) -> GraphResolveDepths {
    match task {
        Task::Ways { depths, .. } => depths,
        Task::Found { onward, .. } => onward,
    }
}

/// Which of two tasks with the same budgets is the larger: one for found
/// editions is larger than one for the ways of one of them.
pub open spec fn rank_of(task: Task) -> nat {
    match task {
        Task::Ways { .. } => 0,
        Task::Found { .. } => 1,
    }
}

/// How far a task is from its end.
pub open spec fn rest_of(task: Task) -> nat {
    match task {
        Task::Ways { cursor, .. } => remaining(cursor),
        Task::Found { related, position, .. } => (related.len() - position) as nat,
    }
}

/// The number of reads that `task` can need at most, with a store that
/// answers as `store` does.
///
/// A way without budget needs none. The way to the type needs one, for the
/// type. A way between entities needs one for what is found on it, and for
/// each edition that is found, one for its editions, one for its vertex
/// and those of its own ways, taken with one unit less.
pub open spec fn cost(store: spec_fn(ReadRequestKey) -> ReadResponse, task: Task) -> nat
    decreases budgets_of(task).total(), rank_of(task), rest_of(task),
{
    match task {
        Task::Ways { edition_id, depths, cursor } => match cursor {
            None => 0,
            Some(way) => cost(
                store,
                Task::Ways { edition_id, depths, cursor: way.successor() },
            ) + (if depths.budget(way) == 0 {
                0
            } else if way == EdgeDirection::IsOfTypeOutgoing {
                1
            } else {
                1 + cost(
                    store,
                    Task::Found {
                        onward: depths.after_hop(way),
                        related: found_on(store, way, edition_id),
                        position: 0,
                    },
                )
            }),
        },
        Task::Found { onward, related, position } => if position >= related.len() {
            0
        } else {
            2 + cost(
                store,
                Task::Ways {
                    edition_id: related[position as int],
                    depths: onward,
                    cursor: Some(EdgeDirection::IsOfTypeOutgoing),
                },
            ) + cost(store, Task::Found { onward, related, position: position + 1 })
        },
    }
}

/// The reads that coming to `edition_id` with `depths` can need: one for
/// its vertex, and those of its ways.
pub open spec fn visit_cost(
    store: spec_fn(ReadRequestKey) -> ReadResponse,
    edition_id: EntityEditionId,
    depths: GraphResolveDepths,
) -> nat {
    1 + cost(
        store,
        Task::Ways { edition_id, depths, cursor: Some(EdgeDirection::IsOfTypeOutgoing) },
    )
}

/// The reads that the ways of `frame` can still need, from its cursor on.
pub open spec fn ways_left(store: spec_fn(ReadRequestKey) -> ReadResponse, frame: FrameModel) -> nat {
    cost(
        store,
        Task::Ways { edition_id: frame.edition_id, depths: frame.depths, cursor: frame.cursor },
    )
}

/// The reads that the editions which `frame` has found can still need, from
/// `position` on.
pub open spec fn found_left(
    store: spec_fn(ReadRequestKey) -> ReadResponse,
    frame: FrameModel,
    position: nat,
) -> nat {
    cost(store, Task::Found { onward: frame.onward, related: frame.related, position })
}

/// The reads that a frame can still need while another frame stands on it:
/// the edition at its position is being dealt with by that frame.
pub open spec fn waiting_cost(
    store: spec_fn(ReadRequestKey) -> ReadResponse,
    frame: FrameModel,
) -> nat {
    ways_left(store, frame) + found_left(store, frame, frame.position + 1)
}

/// The reads that the frames of `stack` can still need while a frame
/// stands on them.
pub open spec fn below_cost(
    store: spec_fn(ReadRequestKey) -> ReadResponse,
    stack: Seq<FrameModel>,
) -> nat
    decreases stack.len(),
{
    if stack.len() == 0 {
        0
    } else {
        below_cost(store, stack.drop_last()) + waiting_cost(store, stack.last())
    }
}

/// The reads that the frame at the top of the stack can still need, with
/// the read that the traversal waits for.
pub open spec fn top_cost(
    store: spec_fn(ReadRequestKey) -> ReadResponse,
    frame: FrameModel,
    pending: PendingKey,
) -> nat {
    ways_left(store, frame) + match pending {
        PendingKey::Idle => found_left(store, frame, frame.position),
        PendingKey::Editions => found_left(store, frame, frame.position),
        PendingKey::Vertex => 1 + found_left(store, frame, frame.position),
        PendingKey::TypeVertex(_) => 1 + found_left(store, frame, frame.position),
        PendingKey::Related => 1 + cost(
            store,
            Task::Found {
                onward: frame.onward,
                related: found_on(store, frame.direction, frame.edition_id),
                position: 0,
            },
        ),
    }
}

/// The reads that the roots from `next` on can still need.
pub open spec fn roots_cost(
    store: spec_fn(ReadRequestKey) -> ReadResponse,
    roots: Seq<EntityEditionId>,
    depths: GraphResolveDepths,
    next: nat,
) -> nat
    decreases roots.len() - next,
{
    if next >= roots.len() {
        0
    } else {
        visit_cost(store, roots[next as int], depths) + roots_cost(store, roots, depths, next + 1)
    }
}

/// The reads that the frames of a traversal can still need.
pub open spec fn stack_cost(
    store: spec_fn(ReadRequestKey) -> ReadResponse,
    stack: Seq<FrameModel>,
    pending: PendingKey,
) -> nat {
    if stack.len() == 0 {
        0
    } else {
        below_cost(store, stack.drop_last()) + top_cost(store, stack.last(), pending)
    }
}

/// The number of reads that a traversal in state `m` can need at most
/// before it ends, with a store that answers as `store` does. A traversal
/// that has failed needs none.
pub open spec fn work(m: Model, store: spec_fn(ReadRequestKey) -> ReadResponse) -> nat {
    if m.failure is Some {
        0
    } else {
        roots_cost(store, m.roots, m.subgraph.depths, m.next_root) + stack_cost(
            store,
            m.stack,
            m.pending,
        )
    }
}

/// Marking the edition at the position of the top frame as done turns the
/// reads it could need as a waiting frame into those it can need at the top.
proof fn lemma_bumped(store: spec_fn(ReadRequestKey) -> ReadResponse, stack: Seq<FrameModel>)
    ensures
        stack_cost(store, bumped(stack), PendingKey::Idle) == below_cost(store, stack),
{
    if stack.len() > 0 {
        let top = stack.last();
        if top.position < top.related.len() {
            let moved = FrameModel { position: top.position + 1, ..top };
            assert(bumped(stack).drop_last() =~= stack.drop_last());
            assert(bumped(stack).last() == moved);
        } else {
            assert(found_left(store, top, top.position) == 0);
            assert(found_left(store, top, top.position + 1) == 0);
        }
    }
}

/// Coming to an entity needs no more reads than were counted for it.
proof fn lemma_enter_work(
    m: Model,
    store: spec_fn(ReadRequestKey) -> ReadResponse,
    edition_id: EntityEditionId,
    depths: GraphResolveDepths,
)
    requires
        m.pending == PendingKey::Idle,
    ensures
        stack_cost(store, enter(m, edition_id, depths).stack, enter(m, edition_id, depths).pending)
            <= below_cost(store, m.stack) + visit_cost(store, edition_id, depths),
        enter(m, edition_id, depths).failure == m.failure,
        enter(m, edition_id, depths).roots == m.roots,
        enter(m, edition_id, depths).next_root == m.next_root,
        enter(m, edition_id, depths).subgraph.depths == m.subgraph.depths,
{
    let next = enter(m, edition_id, depths);
    let (knowledge, status) = visit(m.knowledge, edition_id, depths);
    if status == DependencyStatus::Resolved {
        lemma_bumped(store, m.stack);
    } else {
        let fresh = fresh_frame(edition_id, depths);
        assert(next.stack.drop_last() =~= m.stack);
        assert(next.stack.last() == fresh);
        assert(found_left(store, fresh, 0) == 0);
    }
}

/// Going on without the store never raises the number of reads that the
/// traversal can still need.
pub proof fn lemma_advance_work(m: Model, store: spec_fn(ReadRequestKey) -> ReadResponse)
    ensures
        work(advance(m), store) <= work(m, store),
        advance(m).failure == m.failure,
    decreases m.roots.len() - m.next_root, m.stack.len(), remaining(
        if m.stack.len() > 0 {
            m.stack.last().cursor
        } else {
            None
        },
    ),
{
    if m.failure is Some || m.pending != PendingKey::Idle {
    } else if m.stack.len() == 0 {
        if m.next_root < m.roots.len() {
            let taken = Model { next_root: m.next_root + 1, ..m };
            let root = m.roots[m.next_root as int];
            let entered = enter(taken, root, m.subgraph.depths);
            lemma_enter_work(taken, store, root, m.subgraph.depths);
            assert(below_cost(store, taken.stack) == 0);
            lemma_advance_work(entered, store);
        }
    } else {
        let top = m.stack.last();
        let rest = m.stack.drop_last();
        if top.position < top.related.len() {
        } else {
            assert(found_left(store, top, top.position) == 0);
            match top.cursor {
                None => {
                    assert(ways_left(store, top) == 0);
                    lemma_bumped(store, rest);
                    lemma_advance_work(leave(m), store);
                },
                Some(direction) => {
                    let moved = FrameModel { cursor: direction.successor(), ..top };
                    let turned = Model { stack: rest.push(moved), ..m };
                    assert(turned.stack.drop_last() =~= rest);
                    assert(turned.stack.last() == moved);
                    assert(found_left(store, moved, moved.position) == 0);
                    if top.depths.budget(direction) == 0 {
                        lemma_advance_work(turned, store);
                    } else if direction == EdgeDirection::IsOfTypeOutgoing {
                        let next = classify(turned);
                        assert(next.stack == turned.stack);
                        lemma_advance_work(next, store);
                    } else {
                        let taken = FrameModel {
                            direction,
                            onward: top.depths.after_hop(direction),
                            related: Seq::empty(),
                            position: 0,
                            ..moved
                        };
                        let next = Model {
                            stack: rest.push(taken),
                            pending: PendingKey::Related,
                            ..m
                        };
                        assert(next.stack.drop_last() =~= rest);
                        assert(next.stack.last() == taken);
                    }
                },
            }
        }
    }
}

/// Every answer of the store lowers the number of reads that the traversal
/// can still need.
pub proof fn lemma_every_answer_is_work_done(
    m: Model,
    store: spec_fn(ReadRequestKey) -> ReadResponse,
    response: ReadResponse,
)
    requires
        request_of(m) is Some,
        response == store(request_of(m)->0),
    ensures
        work(resume(m, response), store) < work(m, store),
{
    let top = m.stack.last();
    let rest = m.stack.drop_last();
    assert(work(m, store) >= 1) by {
        if m.pending == PendingKey::Editions {
            assert(found_left(store, top, top.position) >= 2);
        }
    }
    if response is Failed || !fits(m, response) {
    } else {
        let next = taken_in(m, response);
        if m.pending == PendingKey::Editions {
            let target = top.related[top.position as int];
            assert(found_left(store, top, top.position) == 1 + visit_cost(
                store,
                target,
                top.onward,
            ) + found_left(store, top, top.position + 1));
            assert(next.stack == m.stack);
            assert(below_cost(store, m.stack) == below_cost(store, rest) + waiting_cost(
                store,
                top,
            ));
            lemma_enter_work(next, store, target, top.onward);
            lemma_advance_work(enter(next, target, top.onward), store);
        } else if m.pending == PendingKey::Related {
            let found = response->Entities_0;
            let answered = FrameModel { related: edition_ids(found@), position: 0, ..top };
            assert(next.stack.drop_last() =~= rest);
            assert(next.stack.last() == answered);
            assert(found_on(store, top.direction, top.edition_id) == edition_ids(found@));
            lemma_advance_work(next, store);
        } else {
            assert(next.stack == m.stack);
            lemma_advance_work(next, store);
        }
    }
}

/// A run of a query that a store answers is no longer than the number of
/// reads that the query could need when it began.
pub proof fn lemma_runs_are_bounded(
    store: spec_fn(ReadRequestKey) -> ReadResponse,
    entities: Seq<Entity>,
    depths: GraphResolveDepths,
    responses: Seq<ReadResponse>,
)
    requires
        answered_by(store, begin(entities, depths), responses),
    ensures
        responses.len() + work(after(begin(entities, depths), responses), store) <= work(
            seeded_model(entities, depths),
            store,
        ),
        responses.len() <= roots_cost(store, edition_ids(entities), depths, 0),
    decreases responses.len(),
{
    let start = begin(entities, depths);
    let seeds = seeded_model(entities, depths);
    crate::store::traversal::laws::lemma_seeded(
        crate::subgraph::SubgraphView::empty(depths),
        entities,
    );
    assert(work(seeds, store) == roots_cost(store, edition_ids(entities), depths, 0));
    if responses.len() == 0 {
        lemma_advance_work(seeds, store);
    } else {
        lemma_answered_before(store, start, responses);
        lemma_runs_are_bounded(store, entities, depths, responses.drop_last());
        lemma_every_answer_is_work_done(
            after(start, responses.drop_last()),
            store,
            responses.last(),
        );
    }
}

} // verus!
