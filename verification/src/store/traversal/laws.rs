//! What holds of every traversal.

use crate::identifier::{EntityEditionId, GraphElementKey};
use crate::knowledge::Entity;
use crate::store::dependency::{visit, DependencyStatus};
use crate::store::traversal::model::{
    advance, begin, classify, decision_start, earliest_start, edition_ids, enter, failed, fits,
    fresh_frame, is_complete, leave, link_edge, remaining, request_of, resume, seeded, taken_in,
    FrameModel, Model, PendingKey, ReadResponse,
};
use crate::subgraph::edges::{EdgeDirection, EdgeKey, GraphResolveDepths};
use crate::subgraph::SubgraphView;
use vstd::prelude::*;

verus! {

/// The earliest start of some editions is the start of one of them, and no
/// edition starts before it.
pub proof fn lemma_earliest_start_is_minimum(editions: Seq<Entity>)
    requires
        editions.len() > 0,
    ensures
        exists|i: int| 0 <= i < editions.len() && earliest_start(editions) == decision_start(#[trigger] editions[i]),
        forall|i: int|
            0 <= i < editions.len() ==> earliest_start(editions).micros <= decision_start(
                #[trigger] editions[i],
            ).micros,
    decreases editions.len(),
{
    if editions.len() == 1 {
        assert(earliest_start(editions) == decision_start(editions[0]));
    } else {
        let shorter = editions.drop_last();
        lemma_earliest_start_is_minimum(shorter);
        let i = choose|i: int|
            0 <= i < shorter.len() && earliest_start(shorter) == decision_start(#[trigger] shorter[i]);
        assert(shorter[i] == editions[i]);
        if decision_start(editions.last()).micros < earliest_start(shorter).micros {
            assert(earliest_start(editions) == decision_start(editions[editions.len() - 1]));
        } else {
            assert(earliest_start(editions) == decision_start(editions[i]));
        }
        assert forall|j: int| 0 <= j < editions.len() implies earliest_start(editions).micros
            <= decision_start(#[trigger] editions[j]).micros by {
            if j < shorter.len() {
                assert(shorter[j] == editions[j]);
            }
        }
    }
}

/// The earliest start of the editions of an entity does not depend on the
/// order in which the editions were found, nor on how often one was found.
pub proof fn lemma_earliest_start_ignores_order(first: Seq<Entity>, second: Seq<Entity>)
    requires
        first.len() > 0,
        forall|entity: Entity| first.contains(entity) <==> second.contains(entity),
    ensures
        earliest_start(first) == earliest_start(second),
{
    assert(first.contains(first[0]));
    assert(second.contains(first[0]));
    lemma_earliest_start_is_minimum(first);
    lemma_earliest_start_is_minimum(second);
    let i = choose|i: int|
        0 <= i < first.len() && earliest_start(first) == decision_start(#[trigger] first[i]);
    let j = choose|j: int|
        0 <= j < second.len() && earliest_start(second) == decision_start(#[trigger] second[j]);
    assert(first.contains(first[i]));
    assert(second.contains(first[i]));
    let i2 = choose|k: int| 0 <= k < second.len() && second[k] == first[i];
    assert(earliest_start(second).micros <= decision_start(second[i2]).micros);
    assert(second.contains(second[j]));
    assert(first.contains(second[j]));
    let j1 = choose|k: int| 0 <= k < first.len() && first[k] == second[j];
    assert(earliest_start(first).micros <= decision_start(first[j1]).micros);
    assert(earliest_start(first).micros == earliest_start(second).micros);
}

/// One hop uses up exactly one unit of budget.
pub proof fn lemma_hop_uses_budget(depths: GraphResolveDepths, direction: EdgeDirection)
    requires
        depths.budget(direction) > 0,
    ensures
        depths.after_hop(direction).total() + 1 == depths.total(),
        depths.after_hop(direction).budget(direction) + 1 == depths.budget(direction),
        forall|other: EdgeDirection|
            other != direction ==> depths.after_hop(direction).budget(other) == depths.budget(
                other,
            ),
        depths.covers_spec(depths.after_hop(direction)),
{
}

/// Whether the frame at `index` of the stack of `m` waits for a vertex.
pub open spec fn awaits_vertex(m: Model, index: int) -> bool {
    index == m.stack.len() - 1 && m.pending == PendingKey::Vertex
}

/// Whether the frame at `index` of the stack of `m` follows a way on which
/// budget is spent.
pub open spec fn follows_way(m: Model, index: int) -> bool {
    m.stack[index].related.len() > 0 || (index == m.stack.len() - 1 && m.pending
        == PendingKey::Related)
}

/// Whether the frame `child` is that of an entity which the frame `parent`
/// has found and is dealing with.
pub open spec fn found_by(child: FrameModel, parent: FrameModel) -> bool {
    &&& parent.position < parent.related.len()
    &&& child.depths == parent.onward
    &&& child.edition_id == parent.related[parent.position as int]
}

/// What holds of every state that a traversal can reach.
///
/// The traversal asks for a vertex only where the subgraph has none. Every
/// entity under expansion has its vertex, but for the one that is asked
/// for. Every edge starts at a vertex of the subgraph, and every root is a
/// vertex. Each entity under expansion was found by the one below it, and
/// was entered with one unit of budget less.
pub open spec fn consistent(m: Model) -> bool {
    &&& m.next_root <= m.roots.len()
    &&& m.pending != PendingKey::Idle ==> m.stack.len() > 0
    &&& m.pending == PendingKey::Vertex ==> !m.subgraph.entities.dom().contains(
        m.stack.last().edition_id,
    )
    &&& m.pending matches PendingKey::TypeVertex(entity_type) ==> !m.subgraph.types.dom().contains(
        entity_type,
    )
    &&& m.pending == PendingKey::Related ==> m.stack.last().direction
        != EdgeDirection::IsOfTypeOutgoing && m.stack.last().related.len() == 0
    &&& m.pending == PendingKey::Editions ==> m.stack.last().position
        < m.stack.last().related.len()
    &&& forall|i: int|
        0 <= i < m.stack.len() && !awaits_vertex(m, i) ==> m.subgraph.entities.dom().contains(
            (#[trigger] m.stack[i]).edition_id,
        )
    &&& forall|i: int|
        0 <= i < m.stack.len() && follows_way(m, i) ==> (#[trigger] m.stack[i]).onward.total() + 1
            == m.stack[i].depths.total()
    &&& forall|i: int, j: int|
        0 <= i && j == i + 1 && j < m.stack.len() ==> found_by(
            #[trigger] m.stack[j],
            #[trigger] m.stack[i],
        )
    &&& m.stack.len() > 0 ==> m.stack[0].depths == m.subgraph.depths
    &&& forall|edge: EdgeKey| #[trigger]
        m.subgraph.edges.contains(edge) ==> m.subgraph.entities.dom().contains(edge.edition_id)
    &&& forall|i: int|
        0 <= i < m.roots.len() ==> m.subgraph.entities.dom().contains(#[trigger] m.roots[i])
}

/// Whether `later` holds everything that `earlier` holds: no vertex, edge
/// or root is lost or replaced, and the roots of the query are the same.
pub open spec fn extends(later: Model, earlier: Model) -> bool {
    &&& earlier.subgraph.within(later.subgraph)
    &&& earlier.roots == later.roots
}

pub(crate) proof fn lemma_enter(m: Model, edition_id: EntityEditionId, depths: GraphResolveDepths)
    requires
        consistent(m),
        m.pending == PendingKey::Idle,
        if m.stack.len() == 0 {
            depths == m.subgraph.depths
        } else {
            let top = m.stack.last();
            &&& top.position < top.related.len()
            &&& edition_id == top.related[top.position as int]
            &&& depths == top.onward
        },
    ensures
        consistent(enter(m, edition_id, depths)),
        extends(enter(m, edition_id, depths), m),
        enter(m, edition_id, depths).failure == m.failure,
        enter(m, edition_id, depths).next_root == m.next_root,
{
    let after = enter(m, edition_id, depths);
    let (knowledge, status) = visit(m.knowledge, edition_id, depths);
    if status == DependencyStatus::Resolved {
        if m.stack.len() > 0 {
            let top = m.stack.last();
            assert(after.stack == m.stack.drop_last().push(
                FrameModel { position: top.position + 1, ..top },
            ));
            assert forall|i: int| 0 <= i < after.stack.len() implies (#[trigger] after.stack[i]).edition_id
                == m.stack[i].edition_id && after.stack[i].depths == m.stack[i].depths
                && after.stack[i].onward == m.stack[i].onward && after.stack[i].related
                == m.stack[i].related by {}
            assert forall|i: int| 0 <= i < after.stack.len() - 1 implies (#[trigger] after.stack[i])
                == m.stack[i] by {}
            assert forall|i: int, j: int|
                0 <= i && j == i + 1 && j < after.stack.len() implies found_by(
                #[trigger] after.stack[j],
                #[trigger] after.stack[i],
            ) by {
                assert(found_by(m.stack[j], m.stack[i]));
            }
            assert forall|i: int| 0 <= i < after.stack.len() && follows_way(after, i) implies (
            #[trigger] after.stack[i]).onward.total() + 1 == after.stack[i].depths.total() by {
                assert(follows_way(m, i));
            }
        }
    } else {
        assert(after.stack == m.stack.push(fresh_frame(edition_id, depths)));
        assert forall|i: int| 0 <= i < m.stack.len() implies #[trigger] after.stack[i]
            == m.stack[i] by {}
        assert forall|i: int|
            0 <= i < after.stack.len() && !awaits_vertex(
                after,
                i,
            ) implies after.subgraph.entities.dom().contains(
            (#[trigger] after.stack[i]).edition_id,
        ) by {
            if i < m.stack.len() {
                assert(!awaits_vertex(m, i));
            }
        }
        assert forall|i: int| 0 <= i < after.stack.len() && follows_way(after, i) implies (
        #[trigger] after.stack[i]).onward.total() + 1 == after.stack[i].depths.total() by {
            if i < m.stack.len() {
                assert(follows_way(m, i));
            }
        }
        assert forall|i: int, j: int|
            0 <= i && j == i + 1 && j < after.stack.len() implies found_by(
            #[trigger] after.stack[j],
            #[trigger] after.stack[i],
        ) by {
            if j < m.stack.len() {
                assert(found_by(m.stack[j], m.stack[i]));
            }
        }
    }
}

pub(crate) proof fn lemma_leave(m: Model)
    requires
        consistent(m),
        m.pending == PendingKey::Idle,
        m.stack.len() > 0,
    ensures
        consistent(leave(m)),
        extends(leave(m), m),
        leave(m).failure == m.failure,
        leave(m).next_root == m.next_root,
        leave(m).pending == m.pending,
        leave(m).stack.len() == m.stack.len() - 1,
{
    let after = leave(m);
    let rest = m.stack.drop_last();
    assert forall|i: int| 0 <= i < rest.len() implies #[trigger] rest[i] == m.stack[i] by {}
    if rest.len() > 0 {
        let top = rest.last();
        assert(found_by(m.stack[rest.len() as int], m.stack[rest.len() - 1]));
        assert(after.stack == rest.drop_last().push(
            FrameModel { position: top.position + 1, ..top },
        ));
        assert forall|i: int| 0 <= i < after.stack.len() implies (#[trigger] after.stack[i]).edition_id
            == m.stack[i].edition_id && after.stack[i].depths == m.stack[i].depths
            && after.stack[i].onward == m.stack[i].onward && after.stack[i].related
            == m.stack[i].related by {}
        assert forall|i: int| 0 <= i < after.stack.len() - 1 implies (#[trigger] after.stack[i])
            == m.stack[i] by {}
        assert forall|i: int, j: int|
            0 <= i && j == i + 1 && j < after.stack.len() implies found_by(
            #[trigger] after.stack[j],
            #[trigger] after.stack[i],
        ) by {
            assert(found_by(m.stack[j], m.stack[i]));
        }
        assert forall|i: int| 0 <= i < after.stack.len() && follows_way(after, i) implies (
        #[trigger] after.stack[i]).onward.total() + 1 == after.stack[i].depths.total() by {
            assert(follows_way(m, i));
        }
        assert forall|i: int|
            0 <= i < after.stack.len() && !awaits_vertex(
                after,
                i,
            ) implies after.subgraph.entities.dom().contains(
            (#[trigger] after.stack[i]).edition_id,
        ) by {
            assert(!awaits_vertex(m, i));
        }
    }
}

/// Replacing the top of the stack by a frame that differs from it only in
/// the ways that are still to be considered keeps the state consistent.
pub(crate) proof fn lemma_retop(m: Model, frame: FrameModel)
    requires
        consistent(m),
        m.pending == PendingKey::Idle,
        m.stack.len() > 0,
        frame == (FrameModel { cursor: frame.cursor, ..m.stack.last() }),
    ensures
        consistent(Model { stack: m.stack.drop_last().push(frame), ..m }),
        extends(Model { stack: m.stack.drop_last().push(frame), ..m }, m),
{
    let after = Model { stack: m.stack.drop_last().push(frame), ..m };
    assert forall|i: int| 0 <= i < after.stack.len() - 1 implies #[trigger] after.stack[i]
        == m.stack[i] by {}
    assert forall|i: int| 0 <= i < after.stack.len() implies (#[trigger] after.stack[i]).edition_id
        == m.stack[i].edition_id && after.stack[i].depths == m.stack[i].depths
        && after.stack[i].onward == m.stack[i].onward && after.stack[i].related
        == m.stack[i].related && after.stack[i].position == m.stack[i].position by {}
    assert forall|i: int, j: int|
        0 <= i && j == i + 1 && j < after.stack.len() implies found_by(
        #[trigger] after.stack[j],
        #[trigger] after.stack[i],
    ) by {
        assert(found_by(m.stack[j], m.stack[i]));
    }
    assert forall|i: int| 0 <= i < after.stack.len() && follows_way(after, i) implies (
    #[trigger] after.stack[i]).onward.total() + 1 == after.stack[i].depths.total() by {
        assert(follows_way(m, i));
    }
    assert forall|i: int|
        0 <= i < after.stack.len() && !awaits_vertex(
            after,
            i,
        ) implies after.subgraph.entities.dom().contains((#[trigger] after.stack[i]).edition_id) by {
        assert(!awaits_vertex(m, i));
    }
}

/// Taking a way between entities for which budget is left keeps the state consistent.
pub(crate) proof fn lemma_take_way(m: Model, direction: EdgeDirection)
    requires
        consistent(m),
        m.pending == PendingKey::Idle,
        m.stack.len() > 0,
        m.stack.last().position >= m.stack.last().related.len(),
        m.stack.last().depths.budget(direction) > 0,
        direction != EdgeDirection::IsOfTypeOutgoing,
    ensures
        ({
            let top = m.stack.last();
            let after = Model {
                stack: m.stack.drop_last().push(
                    FrameModel {
                        direction,
                        onward: top.depths.after_hop(direction),
                        related: Seq::empty(),
                        position: 0,
                        cursor: direction.successor(),
                        ..top
                    },
                ),
                pending: PendingKey::Related,
                ..m
            };
            consistent(after) && extends(after, m)
        }),
{
    let top = m.stack.last();
    let after = Model {
        stack: m.stack.drop_last().push(
            FrameModel {
                direction,
                onward: top.depths.after_hop(direction),
                related: Seq::empty(),
                position: 0,
                cursor: direction.successor(),
                ..top
            },
        ),
        pending: PendingKey::Related,
        ..m
    };
    lemma_hop_uses_budget(top.depths, direction);
    assert forall|i: int| 0 <= i < after.stack.len() - 1 implies #[trigger] after.stack[i]
        == m.stack[i] by {}
    assert forall|i: int| 0 <= i < after.stack.len() implies (#[trigger] after.stack[i]).edition_id
        == m.stack[i].edition_id && after.stack[i].depths == m.stack[i].depths by {}
    assert forall|i: int, j: int|
        0 <= i && j == i + 1 && j < after.stack.len() implies found_by(
        #[trigger] after.stack[j],
        #[trigger] after.stack[i],
    ) by {
        assert(found_by(m.stack[j], m.stack[i]));
    }
    assert forall|i: int| 0 <= i < after.stack.len() && follows_way(after, i) implies (
    #[trigger] after.stack[i]).onward.total() + 1 == after.stack[i].depths.total() by {
        if i < after.stack.len() - 1 {
            assert(follows_way(m, i));
        }
    }
    assert forall|i: int|
        0 <= i < after.stack.len() && !awaits_vertex(
            after,
            i,
        ) implies after.subgraph.entities.dom().contains((#[trigger] after.stack[i]).edition_id) by {
        assert(!awaits_vertex(m, i));
    }
}

pub(crate) proof fn lemma_classify(m: Model)
    requires
        consistent(m),
        m.pending == PendingKey::Idle,
        m.stack.len() > 0,
    ensures
        consistent(classify(m)),
        extends(classify(m), m),
        classify(m).failure == m.failure,
        classify(m).next_root == m.next_root,
        classify(m).stack == m.stack,
{
    let after = classify(m);
    assert(!awaits_vertex(m, m.stack.len() - 1));
    assert forall|i: int| 0 <= i < after.stack.len() && follows_way(after, i) implies (
    #[trigger] after.stack[i]).onward.total() + 1 == after.stack[i].depths.total() by {
        assert(follows_way(m, i));
    }
    assert forall|i: int|
        0 <= i < after.stack.len() && !awaits_vertex(
            after,
            i,
        ) implies after.subgraph.entities.dom().contains((#[trigger] after.stack[i]).edition_id) by {
        assert(!awaits_vertex(m, i));
    }
}

/// Going on without the store keeps a consistent state consistent, loses
/// nothing that was gathered, and ends in a state that asks something, has
/// failed or is complete.
pub proof fn lemma_advance(m: Model)
    requires
        consistent(m),
    ensures
        consistent(advance(m)),
        extends(advance(m), m),
        advance(m).failure == m.failure,
        advance(m).failure is None ==> request_of(advance(m)) is Some || is_complete(advance(m)),
    decreases m.roots.len() - m.next_root, m.stack.len(), remaining(
        if m.stack.len() > 0 {
            m.stack.last().cursor
        } else {
            None
        },
    ),
{
    if m.failure is Some {
    } else if m.pending != PendingKey::Idle {
        assert(request_of(m) is Some);
    } else if m.stack.len() == 0 {
        if m.next_root < m.roots.len() {
            let taken = Model { next_root: m.next_root + 1, ..m };
            let root = m.roots[m.next_root as int];
            lemma_enter(taken, root, m.subgraph.depths);
            lemma_advance(enter(taken, root, m.subgraph.depths));
        }
    } else {
        let top = m.stack.last();
        if top.position < top.related.len() {
            let after = Model { pending: PendingKey::Editions, ..m };
            assert forall|i: int| 0 <= i < after.stack.len() && follows_way(after, i) implies (
            #[trigger] after.stack[i]).onward.total() + 1 == after.stack[i].depths.total() by {
                assert(follows_way(m, i));
            }
            assert forall|i: int|
                0 <= i < after.stack.len() && !awaits_vertex(
                    after,
                    i,
                ) implies after.subgraph.entities.dom().contains(
                (#[trigger] after.stack[i]).edition_id,
            ) by {
                assert(!awaits_vertex(m, i));
            }
        } else {
            match top.cursor {
                None => {
                    lemma_leave(m);
                    lemma_advance(leave(m));
                },
                Some(direction) => {
                    let moved = FrameModel { cursor: direction.successor(), ..top };
                    let turned = Model { stack: m.stack.drop_last().push(moved), ..m };
                    lemma_retop(m, moved);
                    if top.depths.budget(direction) == 0 {
                        lemma_advance(turned);
                    } else if direction == EdgeDirection::IsOfTypeOutgoing {
                        lemma_classify(turned);
                        lemma_advance(classify(turned));
                    } else {
                        lemma_take_way(m, direction);
                    }
                },
            }
        }
    }
}

/// Seeding a subgraph makes every seed a vertex and a root, and adds
/// nothing else.
pub proof fn lemma_seeded(subgraph: SubgraphView, entities: Seq<Entity>)
    ensures
        seeded(subgraph, entities).edges == subgraph.edges,
        seeded(subgraph, entities).types == subgraph.types,
        seeded(subgraph, entities).depths == subgraph.depths,
        forall|id: EntityEditionId| #[trigger]
            seeded(subgraph, entities).entities.dom().contains(id) <==> (
            subgraph.entities.dom().contains(id) || edition_ids(entities).contains(id)),
        forall|root: GraphElementKey| #[trigger]
            seeded(subgraph, entities).roots.contains(root) <==> (subgraph.roots.contains(root) || (
            root is KnowledgeGraph && edition_ids(entities).contains(root->KnowledgeGraph_0))),
    decreases entities.len(),
{
    if entities.len() > 0 {
        let shorter = entities.drop_last();
        lemma_seeded(subgraph, shorter);
        let last = entities.last().metadata.edition_id;
        assert(edition_ids(entities) =~= edition_ids(shorter).push(last));
        assert forall|id: EntityEditionId|
            edition_ids(entities).contains(id) <==> (edition_ids(shorter).contains(id) || id
                == last) by {
            if edition_ids(shorter).contains(id) {
                let i = choose|i: int|
                    0 <= i < edition_ids(shorter).len() && edition_ids(shorter)[i] == id;
                assert(edition_ids(entities)[i] == id);
            }
            if id == last {
                assert(edition_ids(entities)[entities.len() - 1] == id);
            }
            if edition_ids(entities).contains(id) && id != last {
                let i = choose|i: int|
                    0 <= i < edition_ids(entities).len() && edition_ids(entities)[i] == id;
                assert(edition_ids(shorter)[i] == id);
            }
        }
        assert forall|id: EntityEditionId| #[trigger]
            seeded(subgraph, entities).entities.dom().contains(id) <==> (
            subgraph.entities.dom().contains(id) || edition_ids(entities).contains(id)) by {
            assert(seeded(subgraph, shorter).entities.dom().contains(id) <==> (
            subgraph.entities.dom().contains(id) || edition_ids(shorter).contains(id)));
        }
        assert forall|root: GraphElementKey| #[trigger]
            seeded(subgraph, entities).roots.contains(root) <==> (subgraph.roots.contains(root) || (
            root is KnowledgeGraph && edition_ids(entities).contains(
                root->KnowledgeGraph_0,
            ))) by {
            assert(seeded(subgraph, shorter).roots.contains(root) <==> (subgraph.roots.contains(
                root,
            ) || (root is KnowledgeGraph && edition_ids(shorter).contains(
                root->KnowledgeGraph_0,
            ))));
        }
    } else {
        assert(edition_ids(entities) =~= Seq::<EntityEditionId>::empty());
    }
}

/// What a later state holds, a state after it holds too.
pub proof fn lemma_extends_is_transitive(last: Model, middle: Model, first: Model)
    requires
        extends(last, middle),
        extends(middle, first),
    ensures
        extends(last, first),
{
    let a = first.subgraph.entities;
    let b = middle.subgraph.entities;
    let c = last.subgraph.entities;
    assert(a.submap_of(b));
    assert(b.submap_of(c));
    assert forall|id: EntityEditionId| #[trigger] a.dom().contains(id) implies #[trigger] c.dom().contains(
        id,
    ) && a[id] == c[id] by {
        assert(a.dom().contains(id) ==> b.dom().contains(id) && a[id] == b[id]);
        assert(b.dom().contains(id) ==> c.dom().contains(id) && b[id] == c[id]);
    }
    assert(a.submap_of(c));
}

/// The state in which a query begins, before it has gone anywhere.
pub open spec fn seeded_model(entities: Seq<Entity>, depths: GraphResolveDepths) -> Model {
    Model {
        subgraph: seeded(SubgraphView::empty(depths), entities),
        knowledge: Map::empty(),
        ontology: Map::empty(),
        roots: edition_ids(entities),
        next_root: 0,
        stack: Seq::empty(),
        pending: PendingKey::Idle,
        failure: None,
    }
}

pub(crate) proof fn lemma_seeded_model(entities: Seq<Entity>, depths: GraphResolveDepths)
    ensures
        consistent(seeded_model(entities, depths)),
        begin(entities, depths) == advance(seeded_model(entities, depths)),
{
    let m = seeded_model(entities, depths);
    lemma_seeded(SubgraphView::empty(depths), entities);
    assert forall|i: int| 0 <= i < m.roots.len() implies m.subgraph.entities.dom().contains(
        #[trigger] m.roots[i],
    ) by {
        assert(edition_ids(entities).contains(m.roots[i]));
    }
}

/// A query begins in a consistent state.
pub proof fn lemma_begin(entities: Seq<Entity>, depths: GraphResolveDepths)
    ensures
        consistent(begin(entities, depths)),
        extends(begin(entities, depths), seeded_model(entities, depths)),
        begin(entities, depths).failure is None,
{
    lemma_seeded_model(entities, depths);
    lemma_advance(seeded_model(entities, depths));
}

/// Taking in an answer of the kind that was asked for keeps a consistent
/// state consistent and loses nothing that was gathered.
pub proof fn lemma_taken_in(m: Model, response: ReadResponse)
    requires
        consistent(m),
        request_of(m) is Some,
        fits(m, response),
    ensures
        consistent(taken_in(m, response)),
        extends(taken_in(m, response), m),
        taken_in(m, response).pending == PendingKey::Idle,
        taken_in(m, response).failure == m.failure,
        taken_in(m, response).next_root == m.next_root,
        taken_in(m, response).knowledge == m.knowledge,
        taken_in(m, response).stack.len() == m.stack.len(),
        m.pending == PendingKey::Vertex ==> taken_in(m, response).subgraph.entities.dom().contains(
            m.stack.last().edition_id,
        ),
        m.pending != PendingKey::Related ==> taken_in(m, response).stack == m.stack,
{
    let top = m.stack.last();
    let next = taken_in(m, response);
    let last = m.stack.len() - 1;
    if m.pending == PendingKey::Related {
        assert(follows_way(m, last));
        assert forall|i: int| 0 <= i < next.stack.len() - 1 implies #[trigger] next.stack[i]
            == m.stack[i] by {}
        assert forall|i: int| 0 <= i < next.stack.len() implies (
        #[trigger] next.stack[i]).edition_id == m.stack[i].edition_id && next.stack[i].depths
            == m.stack[i].depths && next.stack[i].onward == m.stack[i].onward by {}
        assert forall|i: int, j: int|
            0 <= i && j == i + 1 && j < next.stack.len() implies found_by(
            #[trigger] next.stack[j],
            #[trigger] next.stack[i],
        ) by {
            assert(found_by(m.stack[j], m.stack[i]));
        }
        assert forall|i: int| 0 <= i < next.stack.len() && follows_way(next, i) implies (
        #[trigger] next.stack[i]).onward.total() + 1 == next.stack[i].depths.total() by {
            if i < next.stack.len() - 1 {
                assert(follows_way(m, i));
            }
        }
        assert forall|i: int|
            0 <= i < next.stack.len() && !awaits_vertex(
                next,
                i,
            ) implies next.subgraph.entities.dom().contains(
            (#[trigger] next.stack[i]).edition_id,
        ) by {
            assert(!awaits_vertex(m, i));
        }
    } else {
        assert(next.stack == m.stack);
        if m.pending == PendingKey::Editions {
            assert(!awaits_vertex(m, last));
        }
        assert forall|i: int| 0 <= i < next.stack.len() && follows_way(next, i) implies (
        #[trigger] next.stack[i]).onward.total() + 1 == next.stack[i].depths.total() by {
            assert(follows_way(m, i));
        }
        assert forall|i: int|
            0 <= i < next.stack.len() && !awaits_vertex(
                next,
                i,
            ) implies next.subgraph.entities.dom().contains(
            (#[trigger] next.stack[i]).edition_id,
        ) by {
            if i < last || m.pending != PendingKey::Vertex {
                assert(!awaits_vertex(m, i));
            }
        }
    }
}

/// An answer of the store keeps a consistent state consistent and loses
/// nothing that was gathered.
pub proof fn lemma_resume(m: Model, response: ReadResponse)
    requires
        consistent(m),
    ensures
        consistent(resume(m, response)),
        extends(resume(m, response), m),
{
    if request_of(m) is None {
    } else if response is Failed {
        lemma_failed(m, response->Failed_0.chain());
    } else if !fits(m, response) {
        lemma_failed(m, seq![crate::store::traversal::model::missing_editions()]);
        lemma_failed(m, seq![crate::store::traversal::model::unexpected_answer()]);
    } else {
        let next = taken_in(m, response);
        lemma_taken_in(m, response);
        if m.pending == PendingKey::Editions {
            let top = m.stack.last();
            let target = top.related[top.position as int];
            lemma_enter(next, target, top.onward);
            let entered = enter(next, target, top.onward);
            lemma_extends_is_transitive(entered, next, m);
            lemma_advance(entered);
            lemma_extends_is_transitive(advance(entered), entered, m);
        } else {
            lemma_advance(next);
            lemma_extends_is_transitive(advance(next), next, m);
        }
    }
}

pub(crate) proof fn lemma_failed(m: Model, chain: Seq<Seq<char>>)
    requires
        consistent(m),
    ensures
        consistent(failed(m, chain)),
        extends(failed(m, chain), m),
{
    let next = failed(m, chain);
    assert forall|i: int| 0 <= i < next.stack.len() && follows_way(next, i) implies (
    #[trigger] next.stack[i]).onward.total() + 1 == next.stack[i].depths.total() by {
        assert(follows_way(m, i));
    }
    assert forall|i: int|
        0 <= i < next.stack.len() && !awaits_vertex(
            next,
            i,
        ) implies next.subgraph.entities.dom().contains((#[trigger] next.stack[i]).edition_id) by {
        assert(!awaits_vertex(m, i));
    }
}

/// The state that `m` has become after the store has answered with
/// `responses`, one after the other.
pub open spec fn after(m: Model, responses: Seq<ReadResponse>) -> Model
    decreases responses.len(),
{
    if responses.len() == 0 {
        m
    } else {
        resume(after(m, responses.drop_last()), responses.last())
    }
}

/// Whatever the store answers, a consistent state stays consistent and
/// loses nothing that was gathered.
pub proof fn lemma_after(m: Model, responses: Seq<ReadResponse>)
    requires
        consistent(m),
    ensures
        consistent(after(m, responses)),
        extends(after(m, responses), m),
    decreases responses.len(),
{
    if responses.len() > 0 {
        lemma_after(m, responses.drop_last());
        lemma_resume(after(m, responses.drop_last()), responses.last());
        lemma_extends_is_transitive(
            after(m, responses),
            after(m, responses.drop_last()),
            m,
        );
    }
}

/// Between two moments of a traversal nothing that was gathered is lost.
pub proof fn lemma_later_states_extend_earlier_ones(
    m: Model,
    responses: Seq<ReadResponse>,
    earlier: int,
    later: int,
)
    requires
        consistent(m),
        0 <= earlier <= later <= responses.len(),
    ensures
        consistent(after(m, responses.take(earlier))),
        consistent(after(m, responses.take(later))),
        extends(after(m, responses.take(later)), after(m, responses.take(earlier))),
        after(m, responses.take(earlier)).failure is Some ==> after(m, responses.take(later))
            == after(m, responses.take(earlier)),
    decreases later - earlier,
{
    lemma_after(m, responses.take(earlier));
    lemma_after(m, responses.take(later));
    if earlier < later {
        lemma_later_states_extend_earlier_ones(m, responses, earlier, later - 1);
        assert(responses.take(later).drop_last() =~= responses.take(later - 1));
        let middle = after(m, responses.take(later - 1));
        lemma_resume(middle, responses.take(later).last());
        lemma_extends_is_transitive(
            after(m, responses.take(later)),
            middle,
            after(m, responses.take(earlier)),
        );
    }
}

/// Every state of a query is consistent and holds the roots of the query as
/// vertices and as roots.
pub proof fn lemma_every_state_is_consistent(
    entities: Seq<Entity>,
    depths: GraphResolveDepths,
    responses: Seq<ReadResponse>,
)
    ensures
        consistent(after(begin(entities, depths), responses)),
        extends(after(begin(entities, depths), responses), seeded_model(entities, depths)),
        after(begin(entities, depths), responses).subgraph.depths == depths,
{
    lemma_begin(entities, depths);
    lemma_after(begin(entities, depths), responses);
    lemma_extends_is_transitive(
        after(begin(entities, depths), responses),
        begin(entities, depths),
        seeded_model(entities, depths),
    );
    lemma_seeded(SubgraphView::empty(depths), entities);
}

/// Every edge of a subgraph starts at an entity edition of which the
/// subgraph holds the vertex, at every moment of the traversal.
pub proof fn lemma_edges_start_at_vertices(
    entities: Seq<Entity>,
    depths: GraphResolveDepths,
    responses: Seq<ReadResponse>,
    edge: EdgeKey,
)
    requires
        after(begin(entities, depths), responses).subgraph.edges.contains(edge),
    ensures
        after(begin(entities, depths), responses).subgraph.entities.dom().contains(
            edge.edition_id,
        ),
{
    lemma_every_state_is_consistent(entities, depths, responses);
}

/// In a consistent state the frame at `index` was entered with `index`
/// units of budget less than the query has.
proof fn lemma_frames_spend_budget(m: Model, index: int)
    requires
        consistent(m),
        0 <= index < m.stack.len(),
    ensures
        m.stack[index].depths.total() + index == m.subgraph.depths.total(),
    decreases index,
{
    if index > 0 {
        lemma_frames_spend_budget(m, index - 1);
        assert(found_by(m.stack[index], m.stack[index - 1]));
        assert(follows_way(m, index - 1));
    }
}

/// The traversal never has more entities under expansion than one more
/// than the sum of the budgets of the query: every entity under expansion
/// was entered with less budget than the one that found it.
pub proof fn lemma_expansion_is_bounded(
    entities: Seq<Entity>,
    depths: GraphResolveDepths,
    responses: Seq<ReadResponse>,
)
    ensures
        after(begin(entities, depths), responses).stack.len() <= depths.total() + 1,
{
    let m = after(begin(entities, depths), responses);
    lemma_every_state_is_consistent(entities, depths, responses);
    if m.stack.len() > 0 {
        lemma_frames_spend_budget(m, m.stack.len() - 1);
    }
}

/// Within one query the store is asked at most once for the vertex of an
/// entity edition: a traversal that asks for a vertex never asks for the
/// vertex of the same edition again.
pub proof fn lemma_each_vertex_is_read_once(
    entities: Seq<Entity>,
    depths: GraphResolveDepths,
    responses: Seq<ReadResponse>,
    earlier: int,
    later: int,
)
    requires
        0 <= earlier < later <= responses.len(),
        request_of(after(begin(entities, depths), responses.take(earlier))) is Some,
        request_of(after(begin(entities, depths), responses.take(earlier)))->0 is Entity,
    ensures
        request_of(after(begin(entities, depths), responses.take(later))) != request_of(
            after(begin(entities, depths), responses.take(earlier)),
        ),
{
    let start = begin(entities, depths);
    lemma_begin(entities, depths);
    let first = after(start, responses.take(earlier));
    let second = after(start, responses.take(earlier + 1));
    let last = after(start, responses.take(later));
    lemma_later_states_extend_earlier_ones(start, responses, earlier, earlier + 1);
    lemma_later_states_extend_earlier_ones(start, responses, earlier + 1, later);
    assert(responses.take(earlier + 1).drop_last() =~= responses.take(earlier));
    let response = responses.take(earlier + 1).last();
    assert(second == resume(first, response));
    let id = first.stack.last().edition_id;
    assert(first.pending == PendingKey::Vertex);
    if response is Entity {
        lemma_resume_vertex(first, response);
        assert(second.subgraph.entities.dom().contains(id));
        assert(last.subgraph.entities.dom().contains(id));
    } else {
        assert(second.failure is Some);
        assert(last == second);
    }
}

/// After the store has answered with the vertex that was asked for, the
/// subgraph holds a vertex for that edition.
proof fn lemma_resume_vertex(m: Model, response: ReadResponse)
    requires
        consistent(m),
        request_of(m) is Some,
        m.pending == PendingKey::Vertex,
        response is Entity,
    ensures
        resume(m, response).subgraph.entities.dom().contains(m.stack.last().edition_id),
{
    lemma_taken_in(m, response);
    lemma_advance(taken_in(m, response));
}

/// An entity that was entered without any budget is left again without a
/// read and without a trace in the subgraph.
proof fn lemma_no_budget_no_way(m: Model)
    requires
        m.failure is None,
        m.pending == PendingKey::Idle,
        m.stack.len() == 1,
        m.stack.last().depths == GraphResolveDepths::zero_spec(),
        m.stack.last().related.len() == 0,
    ensures
        advance(m) == advance(Model { stack: Seq::empty(), ..m }),
    decreases remaining(m.stack.last().cursor),
{
    let top = m.stack.last();
    match top.cursor {
        None => {
            assert(m.stack.drop_last() =~= Seq::<FrameModel>::empty());
            assert(leave(m) == (Model { stack: Seq::empty(), ..m }));
        },
        Some(direction) => {
            let moved = FrameModel { cursor: direction.successor(), ..top };
            let turned = Model { stack: m.stack.drop_last().push(moved), ..m };
            assert(top.depths.budget(direction) == 0);
            assert(advance(m) == advance(turned));
            lemma_no_budget_no_way(turned);
        },
    }
}

/// Without any budget the traversal enters every root and gathers nothing.
proof fn lemma_no_budget_no_growth(m: Model)
    requires
        consistent(m),
        m.failure is None,
        m.pending == PendingKey::Idle,
        m.stack.len() == 0,
        m.subgraph.depths == GraphResolveDepths::zero_spec(),
    ensures
        advance(m).subgraph == m.subgraph,
        is_complete(advance(m)),
    decreases m.roots.len() - m.next_root,
{
    if m.next_root < m.roots.len() {
        let taken = Model { next_root: m.next_root + 1, ..m };
        let root = m.roots[m.next_root as int];
        let entered = enter(taken, root, m.subgraph.depths);
        lemma_enter(taken, root, m.subgraph.depths);
        if entered.stack.len() == 0 {
            lemma_no_budget_no_growth(entered);
        } else {
            assert(entered.stack =~= seq![fresh_frame(root, m.subgraph.depths)]);
            assert(entered.pending == PendingKey::Idle);
            lemma_no_budget_no_way(entered);
            let left = Model { stack: Seq::empty(), ..entered };
            lemma_no_budget_no_growth(left);
        }
    }
}

/// A query whose budgets are all zero needs no read: it is complete as soon
/// as it has begun, and its subgraph holds exactly the roots as vertices
/// and no edge.
pub proof fn lemma_zero_depths_resolve_to_the_roots(entities: Seq<Entity>)
    ensures
        is_complete(begin(entities, GraphResolveDepths::zero_spec())),
        request_of(begin(entities, GraphResolveDepths::zero_spec())) is None,
        begin(entities, GraphResolveDepths::zero_spec()).subgraph == seeded(
            SubgraphView::empty(GraphResolveDepths::zero_spec()),
            entities,
        ),
        begin(entities, GraphResolveDepths::zero_spec()).subgraph.edges == Set::<EdgeKey>::empty(),
        forall|id: EntityEditionId| #[trigger]
            begin(entities, GraphResolveDepths::zero_spec()).subgraph.entities.dom().contains(id)
                <==> edition_ids(entities).contains(id),
{
    let depths = GraphResolveDepths::zero_spec();
    lemma_seeded_model(entities, depths);
    lemma_seeded(SubgraphView::empty(depths), entities);
    lemma_no_budget_no_growth(seeded_model(entities, depths));
}

/// When the store has answered with the editions of an entity that was
/// found, the subgraph holds the edge to that entity, and the edge names
/// the earliest start of all those editions.
pub proof fn lemma_edge_names_the_earliest_start(m: Model, editions: Vec<Entity>)
    requires
        consistent(m),
        request_of(m) is Some,
        m.pending == PendingKey::Editions,
        editions@.len() > 0,
    ensures
        resume(m, ReadResponse::Entities(editions)).subgraph.edges.contains(
            link_edge(
                m.stack.last().edition_id,
                m.stack.last().direction,
                m.stack.last().related[m.stack.last().position as int],
                earliest_start(editions@),
            ),
        ),
{
    let top = m.stack.last();
    let target = top.related[top.position as int];
    let response = ReadResponse::Entities(editions);
    let next = taken_in(m, response);
    lemma_taken_in(m, response);
    lemma_enter(next, target, top.onward);
    lemma_advance(enter(next, target, top.onward));
}

/// With budgets that are nowhere smaller, every way that could be taken
/// can still be taken, and what is left after the hop is nowhere smaller
/// either.
pub proof fn lemma_larger_budgets_allow_more(
    smaller: GraphResolveDepths,
    larger: GraphResolveDepths,
    direction: EdgeDirection,
)
    requires
        larger.covers_spec(smaller),
        smaller.budget(direction) > 0,
    ensures
        larger.budget(direction) > 0,
        larger.after_hop(direction).covers_spec(smaller.after_hop(direction)),
{
}

/// Whatever the budgets of a query are and whatever the store answers, the
/// subgraph holds everything that the same query holds with budgets of
/// zero: every root as a vertex and as a root.
pub proof fn lemma_any_budgets_resolve_the_roots(
    entities: Seq<Entity>,
    depths: GraphResolveDepths,
    responses: Seq<ReadResponse>,
)
    ensures
        ({
            let least = begin(entities, GraphResolveDepths::zero_spec()).subgraph;
            let subgraph = after(begin(entities, depths), responses).subgraph;
            &&& least.entities.submap_of(subgraph.entities)
            &&& least.edges.subset_of(subgraph.edges)
            &&& least.roots.subset_of(subgraph.roots)
            &&& least.types.dom().subset_of(subgraph.types.dom())
        }),
{
    let zero = GraphResolveDepths::zero_spec();
    lemma_zero_depths_resolve_to_the_roots(entities);
    lemma_every_state_is_consistent(entities, depths, responses);
    lemma_seeded(SubgraphView::empty(zero), entities);
    lemma_seeded(SubgraphView::empty(depths), entities);
    lemma_seeds_do_not_depend_on_budgets(entities, zero, depths);
}

/// The seeds of a query are the same whatever its budgets are.
pub(crate) proof fn lemma_seeds_do_not_depend_on_budgets(
    entities: Seq<Entity>,
    first: GraphResolveDepths,
    second: GraphResolveDepths,
)
    ensures
        seeded(SubgraphView::empty(first), entities).entities == seeded(
            SubgraphView::empty(second),
            entities,
        ).entities,
        seeded(SubgraphView::empty(first), entities).roots == seeded(
            SubgraphView::empty(second),
            entities,
        ).roots,
    decreases entities.len(),
{
    if entities.len() > 0 {
        lemma_seeds_do_not_depend_on_budgets(entities.drop_last(), first, second);
    }
}

/// Going on without the store adds nothing to the subgraph but edges.
pub proof fn lemma_advance_adds_edges_only(m: Model)
    requires
        consistent(m),
    ensures
        advance(m).subgraph.entities == m.subgraph.entities,
        advance(m).subgraph.types == m.subgraph.types,
        advance(m).subgraph.roots == m.subgraph.roots,
        advance(m).subgraph.depths == m.subgraph.depths,
    decreases m.roots.len() - m.next_root, m.stack.len(), remaining(
        if m.stack.len() > 0 {
            m.stack.last().cursor
        } else {
            None
        },
    ),
{
    if m.failure is Some || m.pending != PendingKey::Idle {
    } else if m.stack.len() == 0 {
        if m.next_root < m.roots.len() {
            let taken = Model { next_root: m.next_root + 1, ..m };
            let root = m.roots[m.next_root as int];
            lemma_enter(taken, root, m.subgraph.depths);
            lemma_advance_adds_edges_only(enter(taken, root, m.subgraph.depths));
        }
    } else {
        let top = m.stack.last();
        if top.position < top.related.len() {
        } else {
            match top.cursor {
                None => {
                    lemma_leave(m);
                    lemma_advance_adds_edges_only(leave(m));
                },
                Some(direction) => {
                    let moved = FrameModel { cursor: direction.successor(), ..top };
                    let turned = Model { stack: m.stack.drop_last().push(moved), ..m };
                    lemma_retop(m, moved);
                    if top.depths.budget(direction) == 0 {
                        lemma_advance_adds_edges_only(turned);
                    } else if direction == EdgeDirection::IsOfTypeOutgoing {
                        lemma_classify(turned);
                        lemma_advance_adds_edges_only(classify(turned));
                    } else {
                    }
                },
            }
        }
    }
}

/// An answer of the store adds no vertex and no root to the subgraph but
/// what is taken in from the answer.
pub proof fn lemma_resume_adds_what_it_takes_in(m: Model, response: ReadResponse)
    requires
        consistent(m),
    ensures
        resume(m, response).subgraph.roots == m.subgraph.roots,
        resume(m, response).subgraph.depths == m.subgraph.depths,
        request_of(m) is Some && fits(m, response) && !(response is Failed) ==> resume(
            m,
            response,
        ).subgraph.entities == taken_in(m, response).subgraph.entities && resume(
            m,
            response,
        ).subgraph.types == taken_in(m, response).subgraph.types,
        !(request_of(m) is Some && fits(m, response) && !(response is Failed)) ==> resume(
            m,
            response,
        ).subgraph == m.subgraph,
{
    if request_of(m) is None || response is Failed || !fits(m, response) {
    } else {
        let next = taken_in(m, response);
        lemma_taken_in(m, response);
        if m.pending == PendingKey::Editions {
            let top = m.stack.last();
            let target = top.related[top.position as int];
            lemma_enter(next, target, top.onward);
            lemma_advance_adds_edges_only(enter(next, target, top.onward));
        } else {
            lemma_advance_adds_edges_only(next);
        }
    }
}

} // verus!
