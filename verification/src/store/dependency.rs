//! The memory of one query: which graph elements were visited, and with
//! which depth budgets.

use crate::collections::{Identity, KeyedList};
use crate::identifier::EntityEditionId;
use crate::ontology::OntologyTypeEditionId;
use crate::subgraph::edges::GraphResolveDepths;
use vstd::prelude::*;

verus! {

/// Whether a graph element still has to be expanded.
#[derive(Clone, Copy, Debug, PartialEq, Eq)]
pub enum DependencyStatus {
    /// The element was not visited before, or only with smaller budgets: expand it.
    Unresolved,
    /// An earlier visit had budgets at least as large in every kind: skip it.
    Resolved,
}

/// What a visit of `key` with `depths` does to the budgets recorded in `map`,
/// and what it answers.
pub open spec fn visit<K>(map: Map<K, GraphResolveDepths>, key: K, depths: GraphResolveDepths) -> (
    Map<K, GraphResolveDepths>,
    DependencyStatus,
) {
    if !map.dom().contains(key) {
        (map.insert(key, depths), DependencyStatus::Unresolved)
    } else if map[key].covers_spec(depths) {
        (map, DependencyStatus::Resolved)
    } else {
        (map.insert(key, map[key].max_spec(depths)), DependencyStatus::Unresolved)
    }
}

/// For each visited element of one kind, the budgets it was visited with.
#[derive(Debug)]
pub struct DependencyMap<K: Identity> {
    resolved: KeyedList<K, GraphResolveDepths>,
}

impl<K: Identity> DependencyMap<K> {
    /// The recorded budgets, by the view of the element's identity.
    pub closed spec fn view(&self) -> Map<K::V, GraphResolveDepths> {
        self.resolved@
    }

    pub fn new() -> (map: Self)
        ensures
            map@ == Map::<K::V, GraphResolveDepths>::empty(),
    {
        DependencyMap { resolved: KeyedList::new() }
    }

    /// The budgets recorded for `identifier`, if it was visited.
    pub fn get(&self, identifier: &K) -> (recorded: Option<GraphResolveDepths>)
        ensures
            recorded is Some <==> self@.dom().contains(identifier@),
            recorded matches Some(depths) ==> depths == self@[identifier@],
    {
        match self.resolved.get(identifier) {
            Some(depths) => Some(*depths),
            None => None,
        }
    }

    /// Records a visit of `identifier` with `resolved_depth`.
    ///
    /// An element that was never visited is recorded with these budgets and
    /// is unresolved. One that was visited with budgets at least as large in
    /// every kind is resolved and nothing changes. Otherwise its record is
    /// raised, kind by kind, to the larger budget, and it is unresolved.
    pub fn insert(&mut self, identifier: K, resolved_depth: GraphResolveDepths) -> (status:
        DependencyStatus)
        ensures
            (final(self)@, status) == visit(old(self)@, identifier@, resolved_depth),
    {
        match self.resolved.get(&identifier) {
            None => {
                self.resolved.insert(identifier, resolved_depth);
                DependencyStatus::Unresolved
            },
            Some(recorded) => {
                let mut depths = *recorded;
                if depths.update(resolved_depth) {
                    self.resolved.insert(identifier, depths);
                    DependencyStatus::Unresolved
                } else {
                    DependencyStatus::Resolved
                }
            },
        }
    }
}

/// The memory of one query, with one map for each kind of graph element.
#[derive(Debug)]
pub struct DependencyContext {
    pub knowledge_dependency_map: DependencyMap<EntityEditionId>,
    pub ontology_dependency_map: DependencyMap<OntologyTypeEditionId>,
}

impl DependencyContext {
    /// A context in which nothing was visited.
    pub fn new() -> (context: DependencyContext)
        ensures
            context.knowledge_dependency_map@ == Map::<
                EntityEditionId,
                GraphResolveDepths,
            >::empty(),
            context.ontology_dependency_map@ == Map::<
                crate::ontology::TypeKey,
                GraphResolveDepths,
            >::empty(),
    {
        DependencyContext {
            knowledge_dependency_map: DependencyMap::new(),
            ontology_dependency_map: DependencyMap::new(),
        }
    }
}

/// A visit never lowers a recorded budget, and afterwards the record covers
/// the budgets that were asked for.
pub proof fn lemma_visit_raises<K>(
    map: Map<K, GraphResolveDepths>,
    key: K,
    depths: GraphResolveDepths,
)
    ensures
        visit(map, key, depths).0.dom() == map.dom().insert(key),
        visit(map, key, depths).0[key].covers_spec(depths),
        forall|other: K| #[trigger]
            map.dom().contains(other) ==> visit(map, key, depths).0[other].covers_spec(map[other]),
{
    assert(visit(map, key, depths).0.dom() =~= map.dom().insert(key));
}

/// Visiting an element a second time with the same budgets, or with smaller
/// ones, finds it resolved and changes nothing: within one query no element
/// is expanded twice for the same request.
pub proof fn lemma_second_visit_is_resolved<K>(
    map: Map<K, GraphResolveDepths>,
    key: K,
    first: GraphResolveDepths,
    second: GraphResolveDepths,
)
    requires
        first.covers_spec(second),
    ensures
        visit(visit(map, key, first).0, key, second) == (
            visit(map, key, first).0,
            DependencyStatus::Resolved,
        ),
{
}

/// Where a visit with some budgets is skipped, a visit with budgets that are
/// nowhere larger is skipped too.
pub proof fn lemma_resolved_is_downward_closed<K>(
    map: Map<K, GraphResolveDepths>,
    key: K,
    smaller: GraphResolveDepths,
    larger: GraphResolveDepths,
)
    requires
        larger.covers_spec(smaller),
        visit(map, key, larger).1 == DependencyStatus::Resolved,
    ensures
        visit(map, key, smaller).1 == DependencyStatus::Resolved,
{
}

} // verus!
