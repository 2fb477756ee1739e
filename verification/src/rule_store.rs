//! The rules of one rewriting session, the edges between them, and the
//! queries compiled for them.

use crate::query_cache::QueryCache;
use crate::rule::{rule_views, Rule, RuleView};
use crate::rule_graph::RuleGraph;
use crate::syntax::query_of;
use tree_sitter::{Language, Query};
use vstd::prelude::*;

verus! {

/// The position of the first rule from `from` on that is called `name`.
pub open spec fn position_of(rules: Seq<RuleView>, name: Seq<char>, from: int) -> Option<int>
    decreases rules.len() - from,
{
    if from < 0 || from >= rules.len() {
        None
    } else if rules[from].name == name {
        Some(from)
    } else {
        position_of(rules, name, from + 1)
    }
}

/// Owns the rules, the rule graph and the query cache of a session: the one
/// place that turns query text into compiled queries.
pub struct RuleStore {
    cache: QueryCache,
    rules: Vec<Rule>,
    graph: RuleGraph,
}

impl RuleStore {
    /// The store's parts are well-formed.
    pub closed spec fn well_formed(&self) -> bool {
        self.cache.well_formed()
    }

    /// The language of the session.
    pub closed spec fn language(&self) -> Language {
        self.cache.language()
    }

    /// The queries compiled so far.
    pub closed spec fn cache(&self) -> QueryCache {
        self.cache
    }

    /// The rules, in the order in which they were declared.
    pub closed spec fn rules(&self) -> Seq<RuleView> {
        rule_views(self.rules@)
    }

    /// The edges between the rules.
    pub closed spec fn graph(&self) -> RuleGraph {
        self.graph
    }

    /// Whether `later` is this store after more queries were compiled:
    /// nothing but the cache differs, and the cache has only grown.
    pub open spec fn grown_to(&self, later: &RuleStore) -> bool {
        &&& later.language() == self.language()
        &&& later.rules() == self.rules()
        &&& later.graph() == self.graph()
        &&& self.cache().grown_to(&later.cache())
    }

    /// A store for `language` with the given rules and edges, and nothing
    /// compiled yet.
    pub fn new(language: Language, rules: Vec<Rule>, graph: RuleGraph) -> (store: Self)
        ensures
            store.well_formed(),
            store.language() == language,
            store.rules() == rule_views(rules@),
            store.graph() == graph,
    {
        RuleStore { cache: QueryCache::new(language), rules, graph }
    }

    /// The position in the cache of the compiled query for `text`; none
    /// exactly where `text` is no valid query. A text is compiled once: the
    /// next time its position is given and the store stays as it was.
    pub fn get_query(&mut self, text: &String) -> (at: Option<usize>)
        requires
            old(self).well_formed(),
        ensures
            final(self).well_formed(),
            old(self).grown_to(final(self)),
            at is Some <==> query_of(old(self).language(), text@) is Some,
            at is Some ==> at.unwrap() < final(self).cache().len() && Some(
                final(self).cache().query_at(at.unwrap() as int),
            ) == query_of(old(self).language(), text@),
            match old(self).cache().position_of(text@, 0) {
                Some(held) => at == Some(held as usize) && *final(self) == *old(self),
                None => match at {
                    Some(new) => {
                        &&& new == old(self).cache().len()
                        &&& final(self).cache().len() == old(self).cache().len() + 1
                        &&& final(self).cache().text_at(new as int) == text@
                    },
                    None => *final(self) == *old(self),
                },
            },
    {
        self.cache.position(text)
    }

    /// The compiled query at position `at` of the cache.
    pub fn query(&self, at: usize) -> (query: &Query)
        requires
            at < self.cache().len(),
        ensures
            *query == self.cache().query_at(at as int),
    {
        self.cache.query(at)
    }

    /// How many rules the store holds.
    pub fn rule_count(&self) -> (count: usize)
        ensures
            count == self.rules().len(),
    {
        self.rules.len()
    }

    /// The rule at position `at`.
    pub fn rule(&self, at: usize) -> (rule: &Rule)
        requires
            at < self.rules().len(),
        ensures
            rule@ == self.rules()[at as int],
    {
        &self.rules[at]
    }

    /// The edges between the rules.
    pub fn rule_graph(&self) -> (graph: &RuleGraph)
        ensures
            *graph == self.graph(),
    {
        &self.graph
    }

    /// The position of the first rule called `name`, if there is one.
    pub fn rule_index(&self, name: &String) -> (at: Option<usize>)
        ensures
            match at {
                Some(i) => position_of(self.rules(), name@, 0) == Some(i as int),
                None => position_of(self.rules(), name@, 0) is None,
            },
            at is Some ==> at.unwrap() < self.rules().len(),
    {
        let mut i: usize = 0;
        while i < self.rules.len()
            invariant
                i <= self.rules.len(),
                position_of(self.rules(), name@, 0) == position_of(self.rules(), name@, i as int),
            decreases self.rules.len() - i,
        {
            if *self.rules[i].name() == *name {
                return Some(i);
            }
            i = i + 1;
        }
        None
    }
}

} // verus!
