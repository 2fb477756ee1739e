//! Rewrite rules.

use crate::constraint::{constraint_views, Constraint, ConstraintView};
use vstd::prelude::*;

verus! {

/// A rule: what to match, what to put in its place, and under which
/// conditions. A rule does not change once it is made.
#[derive(Debug)]
pub struct Rule {
    name: String,
    query: String,
    replace: Option<String>,
    constraints: Vec<Constraint>,
    is_seed: bool,
}

/// A rule as plain values.
pub struct RuleView {
    pub name: Seq<char>,
    pub query: Seq<char>,
    pub replace: Option<Seq<char>>,
    pub constraints: Seq<ConstraintView>,
    pub is_seed: bool,
}

/// The rules of a list as plain values, one by one.
pub open spec fn rule_views(rules: Seq<Rule>) -> Seq<RuleView> {
    Seq::new(rules.len(), |i: int| rules[i]@)
}

/// A template as plain values, where there is one.
pub open spec fn template_view(replace: Option<String>) -> Option<Seq<char>> {
    match replace {
        Some(template) => Some(template@),
        None => None,
    }
}

impl Rule {
    /// The rule as plain values.
    pub closed spec fn view(&self) -> RuleView {
        RuleView {
            name: self.name@,
            query: self.query@,
            replace: template_view(self.replace),
            constraints: constraint_views(self.constraints@),
            is_seed: self.is_seed,
        }
    }

    /// A rule from its parts.
    pub fn new(
        name: String,
        query: String,
        replace: Option<String>,
        constraints: Vec<Constraint>,
        is_seed: bool,
    ) -> (rule: Self)
        ensures
            rule@ == (RuleView {
                name: name@,
                query: query@,
                replace: template_view(replace),
                constraints: constraint_views(constraints@),
                is_seed,
            }),
    {
        Rule { name, query, replace, constraints, is_seed }
    }

    /// The name that identifies the rule.
    pub fn name(&self) -> (name: &String)
        ensures
            name@ == self@.name,
    {
        &self.name
    }

    /// The matcher query, with its holes.
    pub fn query(&self) -> (query: &String)
        ensures
            query@ == self@.query,
    {
        &self.query
    }

    /// The replacement template, where the rule has one.
    pub fn replace(&self) -> (replace: Option<&String>)
        ensures
            replace is Some <==> self@.replace is Some,
            replace is Some ==> replace.unwrap()@ == self@.replace.unwrap(),
    {
        match &self.replace {
            Some(template) => Some(template),
            None => None,
        }
    }

    /// The constraints, in the order in which they are checked.
    pub fn constraints(&self) -> (constraints: &Vec<Constraint>)
        ensures
            constraint_views(constraints@) == self@.constraints,
    {
        &self.constraints
    }

    /// Whether the rule is active from the start.
    pub fn is_seed(&self) -> (seed: bool)
        ensures
            seed == self@.is_seed,
    {
        self.is_seed
    }

    /// A rule of its own with the same parts.
    pub fn duplicate(&self) -> (copy: Self)
        ensures
            copy@ == self@,
    {
        let mut constraints: Vec<Constraint> = Vec::new();
        let mut i: usize = 0;
        while i < self.constraints.len()
            invariant
                i <= self.constraints.len(),
                constraints@.len() == i,
                forall|k: int| 0 <= k < i ==> (#[trigger] constraints@[k])@ == self.constraints@[k]@,
            decreases self.constraints.len() - i,
        {
            constraints.push(self.constraints[i].duplicate());
            i = i + 1;
        }
        assert(constraint_views(constraints@) =~= constraint_views(self.constraints@));
        let replace = match &self.replace {
            Some(template) => Some(template.clone()),
            None => None,
        };
        Rule {
            name: self.name.clone(),
            query: self.query.clone(),
            replace,
            constraints,
            is_seed: self.is_seed,
        }
    }
}

} // verus!
