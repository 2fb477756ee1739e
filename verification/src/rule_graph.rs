//! The edges between rules: which rules a rewrite sets off.

use vstd::prelude::*;

verus! {

/// Where a rule that an edge sets off is to look for matches.
#[derive(Clone, Copy, PartialEq, Eq, Structural, Debug)]
pub enum EdgeScope {
    /// Anywhere in the file.
    Global,
    /// Within the parent of what the rewrite put in.
    ParentOfEdit,
}

/// After a rewrite by the rule `from`, the rule `to` becomes active.
#[derive(Debug)]
pub struct Edge {
    pub from: String,
    pub to: String,
    pub scope: EdgeScope,
}

/// An edge as plain values: from, to, scope.
pub type EdgeView = (Seq<char>, Seq<char>, EdgeScope);

impl Edge {
    /// The edge as plain values.
    pub open spec fn view(&self) -> EdgeView {
        (self.from@, self.to@, self.scope)
    }
}

/// The rules that `edges` set off after a rewrite by `from`, with their
/// scopes, in the order of the edges.
pub open spec fn successors_among(edges: Seq<Edge>, from: Seq<char>) -> Seq<(Seq<char>, EdgeScope)>
    decreases edges.len(),
{
    if edges.len() == 0 {
        Seq::empty()
    } else {
        let before = successors_among(edges.drop_last(), from);
        if edges.last().from@ == from {
            before.push((edges.last().to@, edges.last().scope))
        } else {
            before
        }
    }
}

/// The rules that set `to` off, with the edges' scopes, in the order of the edges.
pub open spec fn predecessors_among(edges: Seq<Edge>, to: Seq<char>) -> Seq<(Seq<char>, EdgeScope)>
    decreases edges.len(),
{
    if edges.len() == 0 {
        Seq::empty()
    } else {
        let before = predecessors_among(edges.drop_last(), to);
        if edges.last().to@ == to {
            before.push((edges.last().from@, edges.last().scope))
        } else {
            before
        }
    }
}

/// What a list of named rules with scopes stands for.
pub open spec fn targets_view(targets: Seq<(String, EdgeScope)>) -> Seq<(Seq<char>, EdgeScope)> {
    Seq::new(targets.len(), |i: int| (targets[i].0@, targets[i].1))
}

/// A directed graph over rule names. It may hold cycles.
#[derive(Debug)]
pub struct RuleGraph {
    edges: Vec<Edge>,
}

impl RuleGraph {
    /// The edges, in the order in which they were added.
    pub closed spec fn edge_list(&self) -> Seq<Edge> {
        self.edges@
    }

    /// The rules set off after a rewrite by `from`.
    pub open spec fn successors_of(&self, from: Seq<char>) -> Seq<(Seq<char>, EdgeScope)> {
        successors_among(self.edge_list(), from)
    }

    /// The rules that set `to` off.
    pub open spec fn predecessors_of(&self, to: Seq<char>) -> Seq<(Seq<char>, EdgeScope)> {
        predecessors_among(self.edge_list(), to)
    }

    /// A graph without edges.
    pub fn new() -> (graph: Self)
        ensures
            graph.edge_list().len() == 0,
    {
        RuleGraph { edges: Vec::new() }
    }

    /// Adds an edge behind those that are there.
    pub fn add_edge(&mut self, from: String, to: String, scope: EdgeScope)
        ensures
            final(self).edge_list().len() == old(self).edge_list().len() + 1,
            final(self).edge_list().drop_last() == old(self).edge_list(),
            final(self).edge_list().last()@ == (from@, to@, scope),
    {
        let ghost before = self.edges@;
        self.edges.push(Edge { from, to, scope });
        assert(self.edges@.drop_last() =~= before);
    }

    /// The rules set off after a rewrite by `from`, in the order of the edges.
    pub fn successors(&self, from: &String) -> (next: Vec<(String, EdgeScope)>)
        ensures
            targets_view(next@) == self.successors_of(from@),
    {
        let mut next: Vec<(String, EdgeScope)> = Vec::new();
        let mut i: usize = 0;
        assert(self.edges@.take(0) =~= Seq::empty());
        assert(targets_view(next@) =~= Seq::empty());
        while i < self.edges.len()
            invariant
                i <= self.edges.len(),
                targets_view(next@) == successors_among(self.edges@.take(i as int), from@),
            decreases self.edges.len() - i,
        {
            assert(self.edges@.take(i + 1).drop_last() =~= self.edges@.take(i as int));
            assert(self.edges@.take(i + 1).last() == self.edges@[i as int]);
            if self.edges[i].from == *from {
                let ghost before = targets_view(next@);
                next.push((self.edges[i].to.clone(), self.edges[i].scope));
                assert(targets_view(next@) =~= before.push(
                    (self.edges@[i as int].to@, self.edges@[i as int].scope),
                ));
            }
            i = i + 1;
        }
        assert(self.edges@.take(i as int) =~= self.edges@);
        next
    }

    /// The rules that set `to` off, in the order of the edges.
    pub fn predecessors(&self, to: &String) -> (prior: Vec<(String, EdgeScope)>)
        ensures
            targets_view(prior@) == self.predecessors_of(to@),
    {
        let mut prior: Vec<(String, EdgeScope)> = Vec::new();
        let mut i: usize = 0;
        assert(self.edges@.take(0) =~= Seq::empty());
        assert(targets_view(prior@) =~= Seq::empty());
        while i < self.edges.len()
            invariant
                i <= self.edges.len(),
                targets_view(prior@) == predecessors_among(self.edges@.take(i as int), to@),
            decreases self.edges.len() - i,
        {
            assert(self.edges@.take(i + 1).drop_last() =~= self.edges@.take(i as int));
            assert(self.edges@.take(i + 1).last() == self.edges@[i as int]);
            if self.edges[i].to == *to {
                let ghost before = targets_view(prior@);
                prior.push((self.edges[i].from.clone(), self.edges[i].scope));
                assert(targets_view(prior@) =~= before.push(
                    (self.edges@[i as int].from@, self.edges@[i as int].scope),
                ));
            }
            i = i + 1;
        }
        assert(self.edges@.take(i as int) =~= self.edges@);
        prior
    }
}

} // verus!
