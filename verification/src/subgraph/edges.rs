//! Edge kinds, directed edge records and the per-kind depth budgets of a query.

use crate::collections::Identity;
use crate::identifier::{EntityEditionId, EntityIdAndTimestamp};
use crate::ontology::{OntologyTypeEditionId, TypeKey};
use vstd::prelude::*;

verus! {

/// The kinds of edge between two entities.
#[derive(Clone, Copy, Debug, PartialEq, Eq, Hash)]
pub enum KnowledgeGraphEdgeKind {
    /// From a link to the entity at its left end.
    HasLeftEntity,
    /// From a link to the entity at its right end.
    HasRightEntity,
}

/// The kinds of edge from an entity into the ontology.
#[derive(Clone, Copy, Debug, PartialEq, Eq, Hash)]
pub enum SharedEdgeKind {
    /// From an entity to the type that classifies it.
    IsOfType,
}

/// An edge as seen from its source. With `reversed` set, the relation is
/// stored at the far end and points back at the source.
#[derive(Clone, Copy, Debug, PartialEq, Eq, Hash)]
pub struct OutwardEdge<K, E> {
    pub kind: K,
    pub reversed: bool,
    pub right_endpoint: E,
}

/// The edges that can leave an entity.
#[derive(Debug, PartialEq, Eq, Hash)]
pub enum KnowledgeGraphOutwardEdges {
    ToKnowledgeGraph(OutwardEdge<KnowledgeGraphEdgeKind, EntityIdAndTimestamp>),
    ToOntology(OutwardEdge<SharedEdgeKind, OntologyTypeEditionId>),
}

/// What identifies the outward part of an edge in specifications.
pub enum OutwardEdgeKey {
    ToKnowledgeGraph(OutwardEdge<KnowledgeGraphEdgeKind, EntityIdAndTimestamp>),
    ToOntology(OutwardEdge<SharedEdgeKind, TypeKey>),
}

impl View for KnowledgeGraphOutwardEdges {
    type V = OutwardEdgeKey;

    open spec fn view(&self) -> OutwardEdgeKey {
        match *self {
            KnowledgeGraphOutwardEdges::ToKnowledgeGraph(edge) => OutwardEdgeKey::ToKnowledgeGraph(
                edge,
            ),
            KnowledgeGraphOutwardEdges::ToOntology(edge) => OutwardEdgeKey::ToOntology(
                OutwardEdge {
                    kind: edge.kind,
                    reversed: edge.reversed,
                    right_endpoint: edge.right_endpoint@,
                },
            ),
        }
    }
}

impl Identity for KnowledgeGraphOutwardEdges {
    fn same(&self, other: &KnowledgeGraphOutwardEdges) -> (equal: bool) {
        match (self, other) {
            (
                KnowledgeGraphOutwardEdges::ToKnowledgeGraph(a),
                KnowledgeGraphOutwardEdges::ToKnowledgeGraph(b),
            ) => {
                let same_kind = match (a.kind, b.kind) {
                    (
                        KnowledgeGraphEdgeKind::HasLeftEntity,
                        KnowledgeGraphEdgeKind::HasLeftEntity,
                    ) => true,
                    (
                        KnowledgeGraphEdgeKind::HasRightEntity,
                        KnowledgeGraphEdgeKind::HasRightEntity,
                    ) => true,
                    _ => false,
                };
                same_kind && a.reversed == b.reversed && a.right_endpoint.base_id.same(
                    &b.right_endpoint.base_id,
                ) && a.right_endpoint.timestamp.same(&b.right_endpoint.timestamp)
            },
            (
                KnowledgeGraphOutwardEdges::ToOntology(a),
                KnowledgeGraphOutwardEdges::ToOntology(b),
            ) => a.reversed == b.reversed && a.right_endpoint.same(&b.right_endpoint),
            _ => false,
        }
    }
}

/// A directed edge of the result: where it starts and how it leaves.
#[derive(Debug, PartialEq, Eq, Hash)]
pub enum Edge {
    KnowledgeGraph { edition_id: EntityEditionId, outward_edge: KnowledgeGraphOutwardEdges },
}

/// What identifies an edge in specifications.
pub struct EdgeKey {
    pub edition_id: EntityEditionId,
    pub outward_edge: OutwardEdgeKey,
}

impl View for Edge {
    type V = EdgeKey;

    open spec fn view(&self) -> EdgeKey {
        match *self {
            Edge::KnowledgeGraph { edition_id, outward_edge } => EdgeKey {
                edition_id,
                outward_edge: outward_edge@,
            },
        }
    }
}

impl Identity for Edge {
    fn same(&self, other: &Edge) -> (equal: bool) {
        match (self, other) {
            (
                Edge::KnowledgeGraph { edition_id: a, outward_edge: out_a },
                Edge::KnowledgeGraph { edition_id: b, outward_edge: out_b },
            ) => a.same(b) && out_a.same(out_b),
        }
    }
}

/// How many more hops of a kind may be made away from its source.
#[derive(Clone, Copy, Debug, PartialEq, Eq, Hash)]
pub struct OutgoingEdgeResolveDepth {
    pub outgoing: u8,
}

/// How many more hops of a kind may be made against and along its direction.
#[derive(Clone, Copy, Debug, PartialEq, Eq, Hash)]
pub struct EdgeResolveDepths {
    pub incoming: u8,
    pub outgoing: u8,
}

/// The ways in which a traversal leaves an entity, in the order in which it takes them.
#[derive(Clone, Copy, Debug, PartialEq, Eq, Hash)]
pub enum EdgeDirection {
    /// To the type of the entity.
    IsOfTypeOutgoing,
    /// To the links whose left end is the entity.
    HasLeftEntityIncoming,
    /// To the links whose right end is the entity.
    HasRightEntityIncoming,
    /// From a link to the entity at its left end.
    HasLeftEntityOutgoing,
    /// From a link to the entity at its right end.
    HasRightEntityOutgoing,
}

impl EdgeDirection {
    /// The place of the direction in the order of expansion.
    pub open spec fn rank(self) -> nat {
        match self {
            EdgeDirection::IsOfTypeOutgoing => 0,
            EdgeDirection::HasLeftEntityIncoming => 1,
            EdgeDirection::HasRightEntityIncoming => 2,
            EdgeDirection::HasLeftEntityOutgoing => 3,
            EdgeDirection::HasRightEntityOutgoing => 4,
        }
    }

    /// The direction that is taken after this one, if any is left.
    pub open spec fn successor(self) -> Option<EdgeDirection> {
        match self {
            EdgeDirection::IsOfTypeOutgoing => Some(EdgeDirection::HasLeftEntityIncoming),
            EdgeDirection::HasLeftEntityIncoming => Some(EdgeDirection::HasRightEntityIncoming),
            EdgeDirection::HasRightEntityIncoming => Some(EdgeDirection::HasLeftEntityOutgoing),
            EdgeDirection::HasLeftEntityOutgoing => Some(EdgeDirection::HasRightEntityOutgoing),
            EdgeDirection::HasRightEntityOutgoing => None,
        }
    }

    pub fn next(self) -> (following: Option<EdgeDirection>)
        ensures
            following == self.successor(),
    {
        match self {
            EdgeDirection::IsOfTypeOutgoing => Some(EdgeDirection::HasLeftEntityIncoming),
            EdgeDirection::HasLeftEntityIncoming => Some(EdgeDirection::HasRightEntityIncoming),
            EdgeDirection::HasRightEntityIncoming => Some(EdgeDirection::HasLeftEntityOutgoing),
            EdgeDirection::HasLeftEntityOutgoing => Some(EdgeDirection::HasRightEntityOutgoing),
            EdgeDirection::HasRightEntityOutgoing => None,
        }
    }

    /// The kind of the edges between entities that the direction records.
    pub open spec fn link_kind(self) -> KnowledgeGraphEdgeKind {
        match self {
            EdgeDirection::HasRightEntityIncoming | EdgeDirection::HasRightEntityOutgoing =>
                KnowledgeGraphEdgeKind::HasRightEntity,
            _ => KnowledgeGraphEdgeKind::HasLeftEntity,
        }
    }

    /// Whether the edges that the direction records are stored at their far end.
    pub open spec fn is_reversed(self) -> bool {
        self == EdgeDirection::HasLeftEntityIncoming || self
            == EdgeDirection::HasRightEntityIncoming
    }

    pub fn kind(self) -> (kind: KnowledgeGraphEdgeKind)
        ensures
            kind == self.link_kind(),
    {
        match self {
            EdgeDirection::HasRightEntityIncoming | EdgeDirection::HasRightEntityOutgoing =>
                KnowledgeGraphEdgeKind::HasRightEntity,
            _ => KnowledgeGraphEdgeKind::HasLeftEntity,
        }
    }

    pub fn reversed(self) -> (reversed: bool)
        ensures
            reversed == self.is_reversed(),
    {
        match self {
            EdgeDirection::HasLeftEntityIncoming | EdgeDirection::HasRightEntityIncoming => true,
            _ => false,
        }
    }
}

/// The depth budgets of a query, one for each way of leaving an entity.
/// A budget of zero means that this way is not taken.
#[derive(Clone, Copy, Debug, PartialEq, Eq, Hash)]
pub struct GraphResolveDepths {
    pub is_of_type: OutgoingEdgeResolveDepth,
    pub has_left_entity: EdgeResolveDepths,
    pub has_right_entity: EdgeResolveDepths,
}

impl GraphResolveDepths {
    /// The budgets that allow no hop at all.
    pub open spec fn zero_spec() -> GraphResolveDepths {
        GraphResolveDepths {
            is_of_type: OutgoingEdgeResolveDepth { outgoing: 0 },
            has_left_entity: EdgeResolveDepths { incoming: 0, outgoing: 0 },
            has_right_entity: EdgeResolveDepths { incoming: 0, outgoing: 0 },
        }
    }

    pub fn zero() -> (depths: GraphResolveDepths)
        ensures
            depths == Self::zero_spec(),
    {
        GraphResolveDepths {
            is_of_type: OutgoingEdgeResolveDepth { outgoing: 0 },
            has_left_entity: EdgeResolveDepths { incoming: 0, outgoing: 0 },
            has_right_entity: EdgeResolveDepths { incoming: 0, outgoing: 0 },
        }
    }

    /// The budget for `direction`.
    pub open spec fn budget(self, direction: EdgeDirection) -> u8 {
        match direction {
            EdgeDirection::IsOfTypeOutgoing => self.is_of_type.outgoing,
            EdgeDirection::HasLeftEntityIncoming => self.has_left_entity.incoming,
            EdgeDirection::HasRightEntityIncoming => self.has_right_entity.incoming,
            EdgeDirection::HasLeftEntityOutgoing => self.has_left_entity.outgoing,
            EdgeDirection::HasRightEntityOutgoing => self.has_right_entity.outgoing,
        }
    }

    /// The budgets with that of `direction` replaced by `depth`.
    pub open spec fn with_budget(self, direction: EdgeDirection, depth: u8) -> GraphResolveDepths {
        match direction {
            EdgeDirection::IsOfTypeOutgoing => GraphResolveDepths {
                is_of_type: OutgoingEdgeResolveDepth { outgoing: depth },
                ..self
            },
            EdgeDirection::HasLeftEntityIncoming => GraphResolveDepths {
                has_left_entity: EdgeResolveDepths { incoming: depth, ..self.has_left_entity },
                ..self
            },
            EdgeDirection::HasRightEntityIncoming => GraphResolveDepths {
                has_right_entity: EdgeResolveDepths { incoming: depth, ..self.has_right_entity },
                ..self
            },
            EdgeDirection::HasLeftEntityOutgoing => GraphResolveDepths {
                has_left_entity: EdgeResolveDepths { outgoing: depth, ..self.has_left_entity },
                ..self
            },
            EdgeDirection::HasRightEntityOutgoing => GraphResolveDepths {
                has_right_entity: EdgeResolveDepths { outgoing: depth, ..self.has_right_entity },
                ..self
            },
        }
    }

    /// The budgets after one hop in `direction`: that budget is one less,
    /// the others are as they were.
    pub open spec fn after_hop(self, direction: EdgeDirection) -> GraphResolveDepths {
        self.with_budget(direction, (self.budget(direction) - 1) as u8)
    }

    /// The sum of all budgets: how many hops a single path may still make.
    pub open spec fn total(self) -> nat {
        (self.is_of_type.outgoing + self.has_left_entity.incoming + self.has_left_entity.outgoing
            + self.has_right_entity.incoming + self.has_right_entity.outgoing) as nat
    }

    /// Whether every budget of `self` is at least that of `other`.
    pub open spec fn covers_spec(self, other: GraphResolveDepths) -> bool {
        &&& other.is_of_type.outgoing <= self.is_of_type.outgoing
        &&& other.has_left_entity.incoming <= self.has_left_entity.incoming
        &&& other.has_left_entity.outgoing <= self.has_left_entity.outgoing
        &&& other.has_right_entity.incoming <= self.has_right_entity.incoming
        &&& other.has_right_entity.outgoing <= self.has_right_entity.outgoing
    }

    /// The larger of the two budgets, kind by kind.
    pub open spec fn max_spec(self, other: GraphResolveDepths) -> GraphResolveDepths {
        GraphResolveDepths {
            is_of_type: OutgoingEdgeResolveDepth {
                outgoing: larger(self.is_of_type.outgoing, other.is_of_type.outgoing),
            },
            has_left_entity: EdgeResolveDepths {
                incoming: larger(self.has_left_entity.incoming, other.has_left_entity.incoming),
                outgoing: larger(self.has_left_entity.outgoing, other.has_left_entity.outgoing),
            },
            has_right_entity: EdgeResolveDepths {
                incoming: larger(self.has_right_entity.incoming, other.has_right_entity.incoming),
                outgoing: larger(self.has_right_entity.outgoing, other.has_right_entity.outgoing),
            },
        }
    }

    pub fn depth(&self, direction: EdgeDirection) -> (depth: u8)
        ensures
            depth == self.budget(direction),
    {
        match direction {
            EdgeDirection::IsOfTypeOutgoing => self.is_of_type.outgoing,
            EdgeDirection::HasLeftEntityIncoming => self.has_left_entity.incoming,
            EdgeDirection::HasRightEntityIncoming => self.has_right_entity.incoming,
            EdgeDirection::HasLeftEntityOutgoing => self.has_left_entity.outgoing,
            EdgeDirection::HasRightEntityOutgoing => self.has_right_entity.outgoing,
        }
    }

    /// The budgets that are left after one hop in `direction`.
    pub fn decrement(&self, direction: EdgeDirection) -> (rest: GraphResolveDepths)
        requires
            self.budget(direction) > 0,
        ensures
            rest == self.after_hop(direction),
            rest.budget(direction) == self.budget(direction) - 1,
            forall|other: EdgeDirection|
                other != direction ==> rest.budget(other) == self.budget(other),
            rest.total() + 1 == self.total(),
    {
        let mut rest = *self;
        match direction {
            EdgeDirection::IsOfTypeOutgoing => {
                rest.is_of_type.outgoing = self.is_of_type.outgoing - 1;
            },
            EdgeDirection::HasLeftEntityIncoming => {
                rest.has_left_entity.incoming = self.has_left_entity.incoming - 1;
            },
            EdgeDirection::HasRightEntityIncoming => {
                rest.has_right_entity.incoming = self.has_right_entity.incoming - 1;
            },
            EdgeDirection::HasLeftEntityOutgoing => {
                rest.has_left_entity.outgoing = self.has_left_entity.outgoing - 1;
            },
            EdgeDirection::HasRightEntityOutgoing => {
                rest.has_right_entity.outgoing = self.has_right_entity.outgoing - 1;
            },
        }
        rest
    }

    pub fn covers(&self, other: &GraphResolveDepths) -> (covered: bool)
        ensures
            covered == self.covers_spec(*other),
    {
        other.is_of_type.outgoing <= self.is_of_type.outgoing && other.has_left_entity.incoming
            <= self.has_left_entity.incoming && other.has_left_entity.outgoing
            <= self.has_left_entity.outgoing && other.has_right_entity.incoming
            <= self.has_right_entity.incoming && other.has_right_entity.outgoing
            <= self.has_right_entity.outgoing
    }

    /// Raises every budget to that of `other` where `other` has more, and
    /// says whether any budget was raised.
    pub fn update(&mut self, other: GraphResolveDepths) -> (raised: bool)
        ensures
            *final(self) == old(self).max_spec(other),
            raised == !old(self).covers_spec(other),
    {
        let raised = !self.covers(&other);
        self.is_of_type.outgoing = max_u8(self.is_of_type.outgoing, other.is_of_type.outgoing);
        self.has_left_entity.incoming = max_u8(
            self.has_left_entity.incoming,
            other.has_left_entity.incoming,
        );
        self.has_left_entity.outgoing = max_u8(
            self.has_left_entity.outgoing,
            other.has_left_entity.outgoing,
        );
        self.has_right_entity.incoming = max_u8(
            self.has_right_entity.incoming,
            other.has_right_entity.incoming,
        );
        self.has_right_entity.outgoing = max_u8(
            self.has_right_entity.outgoing,
            other.has_right_entity.outgoing,
        );
        raised
    }
}

/// The larger of two budgets.
pub open spec fn larger(a: u8, b: u8) -> u8 {
    if a >= b {
        a
    } else {
        b
    }
}

fn max_u8(a: u8, b: u8) -> (m: u8)
    ensures
        m == larger(a, b),
{
    if a >= b {
        a
    } else {
        b
    }
}

} // verus!
