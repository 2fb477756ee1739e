//! Constraints: side conditions that a match has to meet in its surroundings.
//!
//! A constraint names a scope by a query, the matcher, and forbids patterns
//! within that scope by further queries. The scope of a node is looked for
//! among its ancestors, nearest first: the first ancestor on which the
//! matcher matches gives it. A node without such an ancestor is under no
//! restriction. With a scope, the constraint holds exactly where none of the
//! forbidden patterns, after tag substitution, occurs anywhere under it.

use crate::errors::{check_view, ConstraintError, Fault};
use crate::matches::{first_match_at, get_match_for_query};
use crate::rule_store::RuleStore;
use crate::source_code_unit::SourceCodeUnit;
use crate::syntax::{
    ancestors_of, query_of, descendant_for_byte_range, descendant_of, parent,
};
use crate::tags::{expand, substitute_tags, Substitutions};
use tree_sitter::{Language, Node, Query};
use vstd::prelude::*;

verus! {

/// A scope and the patterns that must not occur in it.
#[derive(Debug, Clone, Hash, PartialEq, Eq)]
pub struct Constraint {
    /// The query that recognises the enclosing scope.
    matcher: String,
    /// The queries, with holes, that must not match within the scope.
    queries: Vec<String>,
}

/// A constraint as plain values.
pub struct ConstraintView {
    pub matcher: Seq<char>,
    pub queries: Seq<Seq<char>>,
}

/// The constraints of a list as plain values, one by one.
pub open spec fn constraint_views(constraints: Seq<Constraint>) -> Seq<ConstraintView> {
    Seq::new(constraints.len(), |i: int| constraints[i]@)
}

/// The scope that the nearest of `ancestors` gives on which `matcher`
/// matches: the smallest node under `root` that spans the match, or the
/// ancestor itself where `root` holds no such node.
pub open spec fn scope_among<'a>(
    ancestors: Seq<Node<'a>>,
    root: Node<'a>,
    text: Seq<char>,
    matcher: Query,
) -> Option<Node<'a>>
    decreases ancestors.len(),
{
    if ancestors.len() == 0 {
        None
    } else {
        match first_match_at(matcher, ancestors[0], text, false) {
            Some(m) => Some(
                match descendant_of(root, m.0.0, m.0.1) {
                    Some(found) => found,
                    None => ancestors[0],
                },
            ),
            None => scope_among(ancestors.skip(1), root, text, matcher),
        }
    }
}

/// Whether none of `queries`, from position `from` on, matches under
/// `scope`. The queries are taken in order; the first that matches, that has
/// an unbound hole or that does not compile decides.
pub open spec fn none_matches<'a>(
    queries: Seq<Seq<char>>,
    from: int,
    bindings: Map<Seq<char>, Seq<char>>,
    language: Language,
    scope: Node<'a>,
    text: Seq<char>,
) -> Result<bool, Fault>
    decreases queries.len() - from,
{
    if from < 0 || from >= queries.len() {
        Ok(true)
    } else {
        match expand(queries[from], bindings) {
            Err(tag) => Err(Fault::UnboundTag(tag)),
            Ok(source) => match query_of(language, source) {
                None => Err(Fault::QueryCompilation(source)),
                Some(query) => if first_match_at(query, scope, text, true) is Some {
                    Ok(false)
                } else {
                    none_matches(queries, from + 1, bindings, language, scope, text)
                },
            },
        }
    }
}

/// The scope of `node` under a constraint: none for a node without
/// ancestors, and none where the matcher matches on no ancestor. A matcher
/// that does not compile is a failure as soon as there is an ancestor to try
/// it on.
pub open spec fn scope_of<'a>(
    constraint: ConstraintView,
    node: Node<'a>,
    root: Node<'a>,
    text: Seq<char>,
    language: Language,
) -> Result<Option<Node<'a>>, Fault> {
    if ancestors_of(node).len() == 0 {
        Ok(None)
    } else {
        match query_of(language, constraint.matcher) {
            None => Err(Fault::QueryCompilation(constraint.matcher)),
            Some(matcher) => Ok(scope_among(ancestors_of(node), root, text, matcher)),
        }
    }
}

/// Whether a constraint holds at `node`: it does where `node` has no scope,
/// and else where none of the constraint's queries matches under the scope.
pub open spec fn satisfied<'a>(
    constraint: ConstraintView,
    node: Node<'a>,
    root: Node<'a>,
    text: Seq<char>,
    language: Language,
    bindings: Map<Seq<char>, Seq<char>>,
) -> Result<bool, Fault> {
    match scope_of(constraint, node, root, text, language) {
        Err(fault) => Err(fault),
        Ok(None) => Ok(true),
        Ok(Some(scope)) => none_matches(constraint.queries, 0, bindings, language, scope, text),
    }
}

impl Constraint {
    /// The constraint as plain values.
    pub closed spec fn view(&self) -> ConstraintView {
        ConstraintView { matcher: self.matcher@, queries: self.queries.deep_view() }
    }

    /// A constraint from its matcher and its forbidden queries.
    pub fn new(matcher: String, queries: Vec<String>) -> (constraint: Self)
        ensures
            constraint@.matcher == matcher@,
            constraint@.queries == queries.deep_view(),
    {
        Constraint { matcher, queries }
    }

    /// A constraint of its own with the same matcher and queries.
    pub fn duplicate(&self) -> (copy: Self)
        ensures
            copy@ == self@,
    {
        let mut queries: Vec<String> = Vec::new();
        let mut i: usize = 0;
        while i < self.queries.len()
            invariant
                i <= self.queries.len(),
                queries@.len() == i,
                forall|k: int| 0 <= k < i ==> (#[trigger] queries@[k])@ == self.queries@[k]@,
            decreases self.queries.len() - i,
        {
            queries.push(self.queries[i].clone());
            i = i + 1;
        }
        assert(queries.deep_view() =~= self.queries.deep_view());
        Constraint { matcher: self.matcher.clone(), queries }
    }

    /// The forbidden queries, with their holes.
    pub fn queries(&self) -> (queries: &[String])
        ensures
            queries.deep_view() == self@.queries,
    {
        let queries = self.queries.as_slice();
        assert(queries.deep_view() =~= self.queries.deep_view());
        queries
    }

    /// The matcher query.
    pub fn matcher(&self) -> (matcher: String)
        ensures
            matcher@ == self@.matcher,
    {
        self.matcher.clone()
    }

    /// Looks for the scope of `node` among its ancestors, nearest first.
    pub fn find_scope<'a>(
        &self,
        node: Node<'a>,
        source_code_unit: &'a SourceCodeUnit,
        rule_store: &mut RuleStore,
    ) -> (scope: Result<Option<Node<'a>>, ConstraintError>)
        requires
            old(rule_store).well_formed(),
        ensures
            final(rule_store).well_formed(),
            old(rule_store).grown_to(final(rule_store)),
            match scope {
                Ok(found) => Ok::<Option<Node<'a>>, Fault>(found) == scope_of(
                    self@,
                    node,
                    source_code_unit.root(),
                    source_code_unit.text(),
                    old(rule_store).language(),
                ),
                Err(e) => Err::<Option<Node<'a>>, Fault>(e@) == scope_of(
                    self@,
                    node,
                    source_code_unit.root(),
                    source_code_unit.text(),
                    old(rule_store).language(),
                ),
            },
    {
        let ghost root = source_code_unit.root();
        let ghost text = source_code_unit.text();
        if parent(node).is_none() {
            return Ok(None);
        }
        let at = match rule_store.get_query(&self.matcher) {
            Some(at) => at,
            None => {
                return Err(ConstraintError::QueryCompilation { query: self.matcher.clone() });
            },
        };
        let ghost matcher = rule_store.cache().query_at(at as int);
        let mut current = node;
        loop
            invariant
                rule_store.well_formed(),
                old(rule_store).grown_to(rule_store),
                at < rule_store.cache().len(),
                rule_store.cache().query_at(at as int) == matcher,
                root == source_code_unit.root(),
                text == source_code_unit.text(),
                ancestors_of(node).len() > 0,
                query_of(old(rule_store).language(), self@.matcher) == Some(matcher),
                scope_among(ancestors_of(node), root, text, matcher) == scope_among(
                    ancestors_of(current),
                    root,
                    text,
                    matcher,
                ),
            decreases ancestors_of(current).len(),
        {
            match parent(current) {
                None => {
                    return Ok(None);
                },
                Some(up) => {
                    let query = rule_store.query(at);
                    match get_match_for_query(up, source_code_unit.code(), query, false) {
                        Some(m) => {
                            let within = descendant_for_byte_range(
                                source_code_unit.root_node(),
                                m.start_byte,
                                m.end_byte,
                            );
                            let scope = match within {
                                Some(found) => found,
                                None => up,
                            };
                            return Ok(Some(scope));
                        },
                        None => {
                            current = up;
                        },
                    }
                },
            }
        }
    }

    /// Tells whether none of the forbidden queries matches under `scope`.
    pub fn holds_within(
        &self,
        scope: Node,
        source_code_unit: &SourceCodeUnit,
        rule_store: &mut RuleStore,
        substitutions: &Substitutions,
    ) -> (verdict: Result<bool, ConstraintError>)
        requires
            old(rule_store).well_formed(),
        ensures
            final(rule_store).well_formed(),
            old(rule_store).grown_to(final(rule_store)),
            check_view(verdict) == none_matches(
                self@.queries,
                0,
                substitutions@,
                old(rule_store).language(),
                scope,
                source_code_unit.text(),
            ),
    {
        let ghost language = rule_store.language();
        let ghost text = source_code_unit.text();
        let mut i: usize = 0;
        while i < self.queries.len()
            invariant
                i <= self.queries.len(),
                rule_store.well_formed(),
                old(rule_store).grown_to(rule_store),
                language == old(rule_store).language(),
                text == source_code_unit.text(),
                none_matches(self@.queries, 0, substitutions@, language, scope, text)
                    == none_matches(
                    self@.queries,
                    i as int,
                    substitutions@,
                    language,
                    scope,
                    text,
                ),
            decreases self.queries.len() - i,
        {
            assert(self@.queries[i as int] == self.queries@[i as int]@);
            let source = match substitute_tags(self.queries[i].as_str(), substitutions) {
                Ok(source) => source,
                Err(unbound) => {
                    return Err(ConstraintError::UnboundTag { tag: unbound.tag });
                },
            };
            let at = match rule_store.get_query(&source) {
                Some(at) => at,
                None => {
                    return Err(ConstraintError::QueryCompilation { query: source });
                },
            };
            let query = rule_store.query(at);
            if get_match_for_query(scope, source_code_unit.code(), query, true).is_some() {
                return Ok(false);
            }
            i = i + 1;
        }
        Ok(true)
    }

    /// Checks the constraint at `node`.
    ///
    /// The ancestors of `node` are tried outward until the matcher matches on
    /// one: that match gives the scope. Within the scope none of the
    /// constraint's queries, with `substitutions` filled in, may match
    /// anywhere. A node for which no scope is found satisfies the constraint.
    pub fn is_satisfied(
        &self,
        node: Node,
        source_code_unit: &SourceCodeUnit,
        rule_store: &mut RuleStore,
        substitutions: &Substitutions,
    ) -> (verdict: Result<bool, ConstraintError>)
        requires
            old(rule_store).well_formed(),
        ensures
            final(rule_store).well_formed(),
            old(rule_store).grown_to(final(rule_store)),
            check_view(verdict) == satisfied(
                self@,
                node,
                source_code_unit.root(),
                source_code_unit.text(),
                old(rule_store).language(),
                substitutions@,
            ),
    {
        match self.find_scope(node, source_code_unit, rule_store) {
            Err(e) => Err(e),
            Ok(None) => Ok(true),
            Ok(Some(scope)) => self.holds_within(scope, source_code_unit, rule_store, substitutions),
        }
    }
}

/// Whether all of `constraints`, from position `from` on, hold at `node`.
/// They are taken in order, and the first that does not hold, or that fails,
/// decides: none after it is looked at.
pub open spec fn all_hold<'a>(
    constraints: Seq<ConstraintView>,
    from: int,
    node: Node<'a>,
    root: Node<'a>,
    text: Seq<char>,
    language: Language,
    bindings: Map<Seq<char>, Seq<char>>,
) -> Result<bool, Fault>
    decreases constraints.len() - from,
{
    if from < 0 || from >= constraints.len() {
        Ok(true)
    } else {
        match satisfied(constraints[from], node, root, text, language, bindings) {
            Ok(true) => all_hold(constraints, from + 1, node, root, text, language, bindings),
            other => other,
        }
    }
}

/// Checks `constraints` at `node`, in order, and stops at the first that
/// does not hold or that fails.
pub fn all_satisfied(
    constraints: &Vec<Constraint>,
    node: Node,
    source_code_unit: &SourceCodeUnit,
    rule_store: &mut RuleStore,
    substitutions: &Substitutions,
) -> (verdict: Result<bool, ConstraintError>)
    requires
        old(rule_store).well_formed(),
    ensures
        final(rule_store).well_formed(),
        old(rule_store).grown_to(final(rule_store)),
        check_view(verdict) == all_hold(
            constraint_views(constraints@),
            0,
            node,
            source_code_unit.root(),
            source_code_unit.text(),
            old(rule_store).language(),
            substitutions@,
        ),
{
    let ghost language = rule_store.language();
    let mut i: usize = 0;
    while i < constraints.len()
        invariant
            i <= constraints.len(),
            rule_store.well_formed(),
            old(rule_store).grown_to(rule_store),
            language == old(rule_store).language(),
            all_hold(
                constraint_views(constraints@),
                0,
                node,
                source_code_unit.root(),
                source_code_unit.text(),
                language,
                substitutions@,
            ) == all_hold(
                constraint_views(constraints@),
                i as int,
                node,
                source_code_unit.root(),
                source_code_unit.text(),
                language,
                substitutions@,
            ),
        decreases constraints.len() - i,
    {
        match constraints[i].is_satisfied(node, source_code_unit, rule_store, substitutions) {
            Ok(true) => {},
            Ok(false) => {
                return Ok(false);
            },
            Err(e) => {
                return Err(e);
            },
        }
        i = i + 1;
    }
    Ok(true)
}

/// No scope is found among the ancestors exactly where the matcher matches
/// on none of them.
pub proof fn lemma_scope_among_none<'a>(
    ancestors: Seq<Node<'a>>,
    root: Node<'a>,
    text: Seq<char>,
    matcher: Query,
)
    ensures
        scope_among(ancestors, root, text, matcher) is None <==> forall|i: int|
            0 <= i < ancestors.len() ==> first_match_at(matcher, #[trigger] ancestors[i], text, false)
                is None,
    decreases ancestors.len(),
{
    if ancestors.len() > 0 {
        let rest = ancestors.skip(1);
        lemma_scope_among_none(rest, root, text, matcher);
        if first_match_at(matcher, ancestors[0], text, false) is None {
            if scope_among(rest, root, text, matcher) is None {
                assert forall|i: int| 0 <= i < ancestors.len() implies first_match_at(
                    matcher,
                    #[trigger] ancestors[i],
                    text,
                    false,
                ) is None by {
                    if i > 0 {
                        assert(rest[i - 1] == ancestors[i]);
                    }
                }
            } else {
                let i = choose|i: int|
                    0 <= i < rest.len() && !(first_match_at(matcher, #[trigger] rest[i], text, false)
                        is None);
                assert(ancestors[i + 1] == rest[i]);
            }
        }
    }
}

/// A node that has no ancestor satisfies every constraint, and so does a
/// node on none of whose ancestors the constraint's matcher matches:
/// whatever the constraint's queries are, and whatever is bound.
pub proof fn lemma_without_scope_satisfied<'a>(
    constraint: ConstraintView,
    node: Node<'a>,
    root: Node<'a>,
    text: Seq<char>,
    language: Language,
    bindings: Map<Seq<char>, Seq<char>>,
)
    requires
        ancestors_of(node).len() > 0 ==> query_of(language, constraint.matcher) is Some,
        forall|i: int|
            0 <= i < ancestors_of(node).len() ==> first_match_at(
                query_of(language, constraint.matcher)->Some_0,
                #[trigger] ancestors_of(node)[i],
                text,
                false,
            ) is None,
    ensures
        satisfied(constraint, node, root, text, language, bindings) == Ok::<bool, Fault>(true),
{
    if ancestors_of(node).len() > 0 {
        lemma_scope_among_none(
            ancestors_of(node),
            root,
            text,
            query_of(language, constraint.matcher)->Some_0,
        );
    }
}

/// Whether the query at position `k` is well-formed under `bindings`: all
/// its holes are bound, and what they give compiles.
pub open spec fn query_usable(
    queries: Seq<Seq<char>>,
    k: int,
    bindings: Map<Seq<char>, Seq<char>>,
    language: Language,
) -> bool {
    expand(queries[k], bindings) is Ok && query_of(language, expand(queries[k], bindings)->Ok_0)
        is Some
}

/// Whether the query at position `k` matches somewhere under `scope`.
pub open spec fn query_hits<'a>(
    queries: Seq<Seq<char>>,
    k: int,
    bindings: Map<Seq<char>, Seq<char>>,
    language: Language,
    scope: Node<'a>,
    text: Seq<char>,
) -> bool {
    first_match_at(
        query_of(language, expand(queries[k], bindings)->Ok_0)->Some_0,
        scope,
        text,
        true,
    ) is Some
}

/// Where the queries from `from` up to `k` are well-formed and the one at
/// `k` matches under the scope, not all are clear of it.
pub proof fn lemma_some_matches<'a>(
    queries: Seq<Seq<char>>,
    from: int,
    k: int,
    bindings: Map<Seq<char>, Seq<char>>,
    language: Language,
    scope: Node<'a>,
    text: Seq<char>,
)
    requires
        0 <= from <= k < queries.len(),
        forall|j: int| from <= j <= k ==> query_usable(queries, j, bindings, language),
        query_hits(queries, k, bindings, language, scope, text),
    ensures
        none_matches(queries, from, bindings, language, scope, text) == Ok::<bool, Fault>(false),
    decreases k - from,
{
    assert(query_usable(queries, from, bindings, language));
    if from < k && !query_hits(queries, from, bindings, language, scope, text) {
        lemma_some_matches(queries, from + 1, k, bindings, language, scope, text);
    }
}

/// Where the queries from `from` on are well-formed and none of them
/// matches under the scope, all are clear of it.
pub proof fn lemma_none_matches<'a>(
    queries: Seq<Seq<char>>,
    from: int,
    bindings: Map<Seq<char>, Seq<char>>,
    language: Language,
    scope: Node<'a>,
    text: Seq<char>,
)
    requires
        0 <= from,
        forall|k: int| from <= k < queries.len() ==> query_usable(queries, k, bindings, language),
        forall|k: int|
            from <= k < queries.len() ==> !query_hits(queries, k, bindings, language, scope, text),
    ensures
        none_matches(queries, from, bindings, language, scope, text) == Ok::<bool, Fault>(true),
    decreases queries.len() - from,
{
    if from < queries.len() {
        assert(query_usable(queries, from, bindings, language));
        assert(!query_hits(queries, from, bindings, language, scope, text));
        lemma_none_matches(queries, from + 1, bindings, language, scope, text);
    }
}

/// With a scope found, a constraint does not hold where one of its queries
/// matches somewhere under the scope. The queries up to the one that matches
/// must be well-formed: a hole without a binding or a text that does not
/// compile is a failure before the match is looked for.
pub proof fn lemma_forbidden_match_fails<'a>(
    constraint: ConstraintView,
    node: Node<'a>,
    root: Node<'a>,
    text: Seq<char>,
    language: Language,
    bindings: Map<Seq<char>, Seq<char>>,
    scope: Node<'a>,
    k: int,
)
    requires
        scope_of(constraint, node, root, text, language) == Ok::<Option<Node<'a>>, Fault>(
            Some(scope),
        ),
        0 <= k < constraint.queries.len(),
        forall|j: int| 0 <= j <= k ==> query_usable(constraint.queries, j, bindings, language),
        query_hits(constraint.queries, k, bindings, language, scope, text),
    ensures
        satisfied(constraint, node, root, text, language, bindings) == Ok::<bool, Fault>(false),
{
    lemma_some_matches(constraint.queries, 0, k, bindings, language, scope, text);
}

/// With a scope found, a constraint holds where its queries are well-formed
/// and none of them matches anywhere under the scope.
pub proof fn lemma_no_forbidden_match_holds<'a>(
    constraint: ConstraintView,
    node: Node<'a>,
    root: Node<'a>,
    text: Seq<char>,
    language: Language,
    bindings: Map<Seq<char>, Seq<char>>,
    scope: Node<'a>,
)
    requires
        scope_of(constraint, node, root, text, language) == Ok::<Option<Node<'a>>, Fault>(
            Some(scope),
        ),
        forall|k: int|
            0 <= k < constraint.queries.len() ==> query_usable(
                constraint.queries,
                k,
                bindings,
                language,
            ),
        forall|k: int|
            0 <= k < constraint.queries.len() ==> !query_hits(
                constraint.queries,
                k,
                bindings,
                language,
                scope,
                text,
            ),
    ensures
        satisfied(constraint, node, root, text, language, bindings) == Ok::<bool, Fault>(true),
{
    lemma_none_matches(constraint.queries, 0, bindings, language, scope, text);
}

/// The first constraint of a list that does not hold decides the list:
/// where the constraints before position `i` hold and the one at `i` gives
/// anything else, the list gives what that one gives, whatever stands after
/// it. Two lists that agree up to there give the same.
pub proof fn lemma_first_failure_decides<'a>(
    constraints: Seq<ConstraintView>,
    others: Seq<ConstraintView>,
    i: int,
    node: Node<'a>,
    root: Node<'a>,
    text: Seq<char>,
    language: Language,
    bindings: Map<Seq<char>, Seq<char>>,
)
    requires
        0 <= i < constraints.len(),
        i < others.len(),
        forall|j: int| 0 <= j <= i ==> constraints[j] == others[j],
        forall|j: int|
            0 <= j < i ==> satisfied(#[trigger] constraints[j], node, root, text, language, bindings)
                == Ok::<bool, Fault>(true),
        satisfied(constraints[i], node, root, text, language, bindings) != Ok::<bool, Fault>(true),
    ensures
        all_hold(constraints, 0, node, root, text, language, bindings) == satisfied(
            constraints[i],
            node,
            root,
            text,
            language,
            bindings,
        ),
        all_hold(others, 0, node, root, text, language, bindings) == all_hold(
            constraints,
            0,
            node,
            root,
            text,
            language,
            bindings,
        ),
{
    lemma_all_hold_prefix(constraints, 0, i, node, root, text, language, bindings);
    lemma_all_hold_prefix(others, 0, i, node, root, text, language, bindings);
}

/// Constraints that hold are passed over.
pub proof fn lemma_all_hold_prefix<'a>(
    constraints: Seq<ConstraintView>,
    from: int,
    to: int,
    node: Node<'a>,
    root: Node<'a>,
    text: Seq<char>,
    language: Language,
    bindings: Map<Seq<char>, Seq<char>>,
)
    requires
        0 <= from <= to <= constraints.len(),
        forall|j: int|
            from <= j < to ==> satisfied(
                #[trigger] constraints[j],
                node,
                root,
                text,
                language,
                bindings,
            ) == Ok::<bool, Fault>(true),
    ensures
        all_hold(constraints, from, node, root, text, language, bindings) == all_hold(
            constraints,
            to,
            node,
            root,
            text,
            language,
            bindings,
        ),
    decreases to - from,
{
    if from < to {
        lemma_all_hold_prefix(constraints, from + 1, to, node, root, text, language, bindings);
    }
}

} // verus!
