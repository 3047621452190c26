//! The result of a query: vertices, edges and roots.

pub mod edges;
pub mod vertices;

use crate::collections::KeyedList;
use crate::identifier::{EntityEditionId, GraphElementEditionId, GraphElementKey};
use crate::ontology::{OntologyTypeEditionId, TypeKey};
use crate::subgraph::edges::{Edge, EdgeKey, GraphResolveDepths};
use crate::subgraph::vertices::{KnowledgeGraphVertex, OntologyVertex, Vertices};
use vstd::prelude::*;

verus! {

/// What a subgraph holds, as mathematical maps and sets.
pub struct SubgraphView {
    pub entities: Map<EntityEditionId, KnowledgeGraphVertex>,
    pub types: Map<TypeKey, OntologyVertex>,
    pub edges: Set<EdgeKey>,
    pub roots: Set<GraphElementKey>,
    pub depths: GraphResolveDepths,
}

/// The accumulator of one query. It is made empty, filled by the traversal
/// and handed to the caller; no edge and no root occurs in it twice.
#[derive(Debug)]
pub struct Subgraph {
    vertices: Vertices,
    edges: KeyedList<Edge, ()>,
    roots: KeyedList<GraphElementEditionId, ()>,
    depths: GraphResolveDepths,
}

impl View for Subgraph {
    type V = SubgraphView;

    closed spec fn view(&self) -> SubgraphView {
        SubgraphView {
            entities: self.vertices.knowledge_graph(),
            types: self.vertices.ontology(),
            edges: self.edges@.dom(),
            roots: self.roots@.dom(),
            depths: self.depths,
        }
    }
}

impl SubgraphView {
    /// The subgraph without any vertex, edge or root.
    pub open spec fn empty(depths: GraphResolveDepths) -> SubgraphView {
        SubgraphView {
            entities: Map::empty(),
            types: Map::empty(),
            edges: Set::empty(),
            roots: Set::empty(),
            depths,
        }
    }

    /// Whether everything in `self` is in `other` too.
    pub open spec fn within(self, other: SubgraphView) -> bool {
        &&& self.entities.submap_of(other.entities)
        &&& self.types.dom().subset_of(other.types.dom())
        &&& self.edges.subset_of(other.edges)
        &&& self.roots.subset_of(other.roots)
        &&& self.depths == other.depths
    }
}

/// What can be observed of a subgraph beyond what it holds: the order in
/// which its vertices, edges and roots were added.
pub struct SubgraphOrder {
    pub entities: Seq<EntityEditionId>,
    pub types: Seq<TypeKey>,
    pub edges: Seq<EdgeKey>,
    pub roots: Seq<GraphElementKey>,
}

impl SubgraphOrder {
    /// The order of an empty subgraph.
    pub open spec fn empty() -> SubgraphOrder {
        SubgraphOrder {
            entities: Seq::empty(),
            types: Seq::empty(),
            edges: Seq::empty(),
            roots: Seq::empty(),
        }
    }
}

/// `order` with `item` at its end, unless `present` says that it is there.
pub open spec fn appended<T>(order: Seq<T>, item: T, present: bool) -> Seq<T> {
    if present {
        order
    } else {
        order.push(item)
    }
}

impl Subgraph {
    /// The order in which the vertices, edges and roots were added.
    pub closed spec fn order(&self) -> SubgraphOrder {
        SubgraphOrder {
            entities: self.vertices.entity_order(),
            types: self.vertices.type_order(),
            edges: self.edges.keys(),
            roots: self.roots.keys(),
        }
    }

    /// An empty accumulator for a query with the given depth budgets.
    pub fn new(depths: GraphResolveDepths) -> (subgraph: Subgraph)
        ensures
            subgraph@ == SubgraphView::empty(depths),
            subgraph.order() == SubgraphOrder::empty(),
    {
        let subgraph = Subgraph {
            vertices: Vertices::new(),
            edges: KeyedList::new(),
            roots: KeyedList::new(),
            depths,
        };
        assert(subgraph@.edges =~= Set::<EdgeKey>::empty());
        assert(subgraph@.roots =~= Set::<GraphElementKey>::empty());
        subgraph
    }

    /// The depth budgets of the query that the subgraph answers.
    pub fn depths(&self) -> (depths: GraphResolveDepths)
        ensures
            depths == self@.depths,
    {
        self.depths
    }

    /// The vertices of the subgraph.
    pub fn vertices(&self) -> (vertices: &Vertices)
        ensures
            vertices.knowledge_graph() == self@.entities,
            vertices.ontology() == self@.types,
            vertices.entity_order() == self.order().entities,
            vertices.type_order() == self.order().types,
    {
        &self.vertices
    }

    pub fn contains_entity(&self, edition_id: &EntityEditionId) -> (present: bool)
        ensures
            present == self@.entities.dom().contains(*edition_id),
    {
        self.vertices.contains_entity(edition_id)
    }

    /// The vertex of the entity edition `edition_id`, if the subgraph holds one.
    pub fn entity(&self, edition_id: &EntityEditionId) -> (vertex: Option<&KnowledgeGraphVertex>)
        ensures
            vertex is Some <==> self@.entities.dom().contains(*edition_id),
            vertex matches Some(found) ==> *found == self@.entities[*edition_id],
    {
        self.vertices.entity(edition_id)
    }

    /// Puts `vertex` under `edition_id`, in place of what stood there.
    pub fn insert_entity(&mut self, edition_id: EntityEditionId, vertex: KnowledgeGraphVertex)
        ensures
            final(self)@ == (SubgraphView {
                entities: old(self)@.entities.insert(edition_id, vertex),
                ..old(self)@
            }),
            final(self).order() == (SubgraphOrder {
                entities: appended(
                    old(self).order().entities,
                    edition_id,
                    old(self)@.entities.dom().contains(edition_id),
                ),
                ..old(self).order()
            }),
    {
        self.vertices.insert_entity(edition_id, vertex);
    }

    pub fn contains_type(&self, edition_id: &OntologyTypeEditionId) -> (present: bool)
        ensures
            present == self@.types.dom().contains(edition_id@),
    {
        self.vertices.contains_type(edition_id)
    }

    /// The vertex of the type edition `edition_id`, if the subgraph holds one.
    pub fn ontology_type(&self, edition_id: &OntologyTypeEditionId) -> (vertex: Option<
        &OntologyVertex,
    >)
        ensures
            vertex is Some <==> self@.types.dom().contains(edition_id@),
            vertex matches Some(found) ==> *found == self@.types[edition_id@],
    {
        self.vertices.ontology_type(edition_id)
    }

    /// Puts `vertex` under `edition_id`, in place of what stood there.
    pub fn insert_type(&mut self, edition_id: OntologyTypeEditionId, vertex: OntologyVertex)
        ensures
            final(self)@ == (SubgraphView {
                types: old(self)@.types.insert(edition_id@, vertex),
                ..old(self)@
            }),
            final(self).order() == (SubgraphOrder {
                types: appended(
                    old(self).order().types,
                    edition_id@,
                    old(self)@.types.dom().contains(edition_id@),
                ),
                ..old(self).order()
            }),
    {
        self.vertices.insert_type(edition_id, vertex);
    }

    /// Adds `edge` unless the subgraph holds it already.
    pub fn insert_edge(&mut self, edge: Edge)
        ensures
            final(self)@ == (SubgraphView { edges: old(self)@.edges.insert(edge@), ..old(self)@ }),
            final(self).order() == (SubgraphOrder {
                edges: appended(old(self).order().edges, edge@, old(self)@.edges.contains(edge@)),
                ..old(self).order()
            }),
    {
        let ghost before = self@;
        self.edges.insert(edge, ());
        assert(self@.edges =~= before.edges.insert(edge@));
    }

    /// Marks `root` as one of the elements that the query asked for.
    pub fn insert_root(&mut self, root: GraphElementEditionId)
        ensures
            final(self)@ == (SubgraphView { roots: old(self)@.roots.insert(root@), ..old(self)@ }),
            final(self).order() == (SubgraphOrder {
                roots: appended(old(self).order().roots, root@, old(self)@.roots.contains(root@)),
                ..old(self).order()
            }),
    {
        let ghost before = self@;
        self.roots.insert(root, ());
        assert(self@.roots =~= before.roots.insert(root@));
    }

    pub fn contains_edge(&self, edge: &Edge) -> (present: bool)
        ensures
            present == self@.edges.contains(edge@),
    {
        self.edges.contains_key(edge)
    }

    pub fn contains_root(&self, root: &GraphElementEditionId) -> (present: bool)
        ensures
            present == self@.roots.contains(root@),
    {
        self.roots.contains_key(root)
    }

    /// The number of edges. The edges in their order are exactly the edges
    /// of the subgraph, each once.
    pub fn edge_count(&self) -> (count: usize)
        ensures
            self@.edges.finite(),
            count == self@.edges.len(),
            count == self.order().edges.len(),
            self.order().edges.no_duplicates(),
            forall|edge: EdgeKey| self.order().edges.contains(edge) <==> self@.edges.contains(edge),
    {
        self.edges.len()
    }

    /// The number of roots. The roots in their order are exactly the roots
    /// of the subgraph, each once.
    pub fn root_count(&self) -> (count: usize)
        ensures
            self@.roots.finite(),
            count == self@.roots.len(),
            count == self.order().roots.len(),
            self.order().roots.no_duplicates(),
            forall|root: GraphElementKey|
                self.order().roots.contains(root) <==> self@.roots.contains(root),
    {
        self.roots.len()
    }

    /// The edge at `index` in the order in which the edges were added, if
    /// there are that many.
    pub fn edge_at(&self, index: usize) -> (edge: Option<&Edge>)
        ensures
            edge is Some <==> index < self.order().edges.len(),
            edge matches Some(found) ==> found@ == self.order().edges[index as int]
                && self@.edges.contains(found@),
    {
        match self.edges.entry(index) {
            Some((edge, _)) => Some(edge),
            None => None,
        }
    }

    /// The root at `index` in the order in which the roots were added, if
    /// there are that many.
    pub fn root_at(&self, index: usize) -> (root: Option<&GraphElementEditionId>)
        ensures
            root is Some <==> index < self.order().roots.len(),
            root matches Some(found) ==> found@ == self.order().roots[index as int]
                && self@.roots.contains(found@),
    {
        match self.roots.entry(index) {
            Some((root, _)) => Some(root),
            None => None,
        }
    }
}

} // verus!
