//! The rewriting loop.
//!
//! The engine works on one file. It keeps a list of activations: rules that
//! are to be tried, each with the bindings it was set off with and, for
//! some, the region to which it is confined. At the start these are the seed
//! rules. One step scans for the first valid match: rules in the order of
//! their declaration, the activations of a rule in the order in which they
//! came, the matches of an activation as a pre-order walk meets them. A match
//! is valid where it lies in the activation's region, can be cut out of the
//! text, and meets the rule's constraints. The step replaces the match by
//! the rule's instantiated template, parses the text anew, moves the regions
//! along with the text and sets off the successors of the rule. The loop
//! ends when a scan finds nothing. A bound on the number of rewrites guards
//! against rule sets that never come to rest.

use crate::constraint::{all_hold, all_satisfied};
use crate::errors::{ConstraintError, Fault};
use crate::matches::{get_all_matches_for_query, matches_at, views, Match, MatchView};
use crate::rule::{Rule, RuleView};
use crate::rule_graph::{targets_view, EdgeScope, RuleGraph};
use crate::rule_store::{position_of, RuleStore};
use crate::source_code_unit::SourceCodeUnit;
use crate::spans::{can_edit, editable, edited, Span};
use crate::syntax::{
    ancestors_of, byte_range, query_of, descendant_for_byte_range, descendant_of, parent, parsed,
    root_of, span_of,
};
use crate::tags::{expand, substitute_tags, Substitutions};
use tree_sitter::{Language, Node};
use vstd::pervasive::unreached;
use vstd::prelude::*;
use vstd::utf8::*;

verus! {

/// Why a run of the engine was given up.
#[derive(Debug, Clone, PartialEq, Eq)]
pub enum RewriteError {
    /// A query of the rule is no valid pattern: it holds a character beyond
    /// ASCII, or it does not compile. `query` is its text after substitution.
    QueryCompilation { rule: String, query: String },
    /// A query or the template of the rule refers to a tag that nothing binds.
    UnboundTag { rule: String, tag: String },
    /// More rewrites were due than the limit allows.
    RewriteDivergence { limit: usize },
    /// The runtime gave no tree for the text that the rule's rewrite made.
    ParseFailure { rule: String },
}

/// Why a run of the engine was given up, as plain values.
pub enum Failure {
    QueryCompilation(Seq<char>, Seq<char>),
    UnboundTag(Seq<char>, Seq<char>),
    RewriteDivergence(usize),
    ParseFailure(Seq<char>),
}

impl RewriteError {
    /// The failure as plain values.
    pub open spec fn view(&self) -> Failure {
        match *self {
            RewriteError::QueryCompilation { rule, query } => Failure::QueryCompilation(
                rule@,
                query@,
            ),
            RewriteError::UnboundTag { rule, tag } => Failure::UnboundTag(rule@, tag@),
            RewriteError::RewriteDivergence { limit } => Failure::RewriteDivergence(limit),
            RewriteError::ParseFailure { rule } => Failure::ParseFailure(rule@),
        }
    }
}

/// The failure of a constraint of the rule `rule`, as a failure of the run.
pub open spec fn failure_of(rule: Seq<char>, fault: Fault) -> Failure {
    match fault {
        Fault::QueryCompilation(query) => Failure::QueryCompilation(rule, query),
        Fault::UnboundTag(tag) => Failure::UnboundTag(rule, tag),
    }
}

/// A rule that is to be tried.
#[derive(Debug)]
pub struct Activation {
    /// The position of the rule in the store.
    pub rule: usize,
    /// The bytes to which the rule is confined, where it is.
    pub region: Option<Span>,
    /// What the rule's holes are filled from, before its own captures.
    pub substitutions: Substitutions,
}

/// An activation as plain values.
pub struct ActivationView {
    pub rule: usize,
    pub region: Option<Span>,
    pub bindings: Map<Seq<char>, Seq<char>>,
}

impl Activation {
    /// The activation as plain values.
    pub open spec fn view(&self) -> ActivationView {
        ActivationView { rule: self.rule, region: self.region, bindings: self.substitutions@ }
    }
}

/// The activations of a list as plain values, one by one.
pub open spec fn activation_views(active: Seq<Activation>) -> Seq<ActivationView> {
    Seq::new(active.len(), |i: int| active[i]@)
}

/// Whether `span` lies in `region`; without a region everything does.
pub open spec fn within(region: Option<Span>, span: Span) -> bool {
    match region {
        Some(r) => r.0 <= span.0 && span.1 <= r.1,
        None => true,
    }
}

/// The node that a match stands on: the smallest under `root` that spans
/// it, or `root` where there is none.
pub open spec fn node_at<'a>(root: Node<'a>, span: Span) -> Node<'a> {
    match descendant_of(root, span.0, span.1) {
        Some(found) => found,
        None => root,
    }
}

/// The sum of two offsets, or the largest offset where the sum is beyond it.
pub open spec fn capped_sum(a: usize, b: usize) -> usize {
    if a + b > usize::MAX {
        usize::MAX
    } else {
        (a + b) as usize
    }
}

/// Where `region` lies after the bytes of `edit` were replaced by `len`
/// bytes: moved along where it stood behind the edit, left alone where it
/// stood before it, and widened to hold what was put in where the two met.
pub open spec fn moved(region: Span, edit: Span, len: usize) -> Span {
    let cut = (edit.1 - edit.0) as usize;
    if edit.1 <= region.0 {
        (capped_sum((region.0 - cut) as usize, len), capped_sum((region.1 - cut) as usize, len))
    } else if region.1 <= edit.0 {
        region
    } else {
        let start = if region.0 < edit.0 {
            region.0
        } else {
            edit.0
        };
        let end = if region.1 > edit.1 {
            region.1
        } else {
            edit.1
        };
        (start, capped_sum((end - cut) as usize, len))
    }
}

/// The sum of two offsets, or the largest offset where the sum is beyond it.
pub fn add_capped(a: usize, b: usize) -> (sum: usize)
    ensures
        sum == capped_sum(a, b),
{
    if a > usize::MAX - b {
        usize::MAX
    } else {
        a + b
    }
}

/// Moves a region along with an edit of the text.
pub fn shift_region(region: Span, edit: Span, len: usize) -> (after: Span)
    requires
        edit.0 <= edit.1,
        region.0 <= region.1,
    ensures
        after == moved(region, edit, len),
{
    let cut = edit.1 - edit.0;
    if edit.1 <= region.0 {
        (add_capped(region.0 - cut, len), add_capped(region.1 - cut, len))
    } else if region.1 <= edit.0 {
        region
    } else {
        let start = if region.0 < edit.0 {
            region.0
        } else {
            edit.0
        };
        let end = if region.1 > edit.1 {
            region.1
        } else {
            edit.1
        };
        (start, add_capped(end - cut, len))
    }
}

/// A failure of a constraint of the rule `rule`, as a failure of the run.
pub fn rule_failure(rule: &String, fault: ConstraintError) -> (failure: RewriteError)
    ensures
        failure@ == failure_of(rule@, fault@),
{
    match fault {
        ConstraintError::QueryCompilation { query } => RewriteError::QueryCompilation {
            rule: rule.clone(),
            query,
        },
        ConstraintError::UnboundTag { tag } => RewriteError::UnboundTag { rule: rule.clone(), tag },
    }
}

/// The position of the first valid match of an activation among `found`,
/// from position `from` on. A match that lies outside the activation's
/// region, that cannot be cut out of the text or that does not meet the
/// rule's constraints is passed over; a constraint that fails ends the scan.
pub open spec fn first_valid<'a>(
    found: Seq<MatchView>,
    from: int,
    rule: RuleView,
    activation: ActivationView,
    root: Node<'a>,
    text: Seq<char>,
    language: Language,
) -> Result<Option<int>, Failure>
    decreases found.len() - from,
{
    if from < 0 || from >= found.len() {
        Ok(None)
    } else if !within(activation.region, found[from].0) || !editable(text, found[from].0) {
        first_valid(found, from + 1, rule, activation, root, text, language)
    } else {
        match all_hold(
            rule.constraints,
            0,
            node_at(root, found[from].0),
            root,
            text,
            language,
            activation.bindings.union_prefer_right(found[from].1),
        ) {
            Err(fault) => Err(failure_of(rule.name, fault)),
            Ok(false) => first_valid(found, from + 1, rule, activation, root, text, language),
            Ok(true) => Ok(Some(from)),
        }
    }
}

/// The first valid match of an activation, if it has one. A rule without a
/// template rewrites nothing and has none.
pub open spec fn scan_one<'a>(
    rule: RuleView,
    activation: ActivationView,
    root: Node<'a>,
    text: Seq<char>,
    language: Language,
) -> Result<Option<MatchView>, Failure> {
    if rule.replace is None {
        Ok(None)
    } else {
        match expand(rule.query, activation.bindings) {
            Err(tag) => Err(Failure::UnboundTag(rule.name, tag)),
            Ok(source) => match query_of(language, source) {
                None => Err(Failure::QueryCompilation(rule.name, source)),
                Some(query) => {
                    let found = matches_at(query, root, text, true);
                    match first_valid(found, 0, rule, activation, root, text, language) {
                        Err(failure) => Err(failure),
                        Ok(None) => Ok(None),
                        Ok(Some(i)) => Ok(Some(found[i])),
                    }
                },
            },
        }
    }
}

/// The first valid match of all: the rules from position `r` on in the order
/// of their declaration, and for each the activations from position `a` on
/// in the order in which they came. Gives the activation's position and the
/// match.
pub open spec fn scan<'a>(
    rules: Seq<RuleView>,
    active: Seq<ActivationView>,
    r: int,
    a: int,
    root: Node<'a>,
    text: Seq<char>,
    language: Language,
) -> Result<Option<(int, MatchView)>, Failure>
    decreases rules.len() - r, active.len() - a,
{
    if r < 0 || a < 0 || r >= rules.len() {
        Ok(None)
    } else if a >= active.len() {
        scan(rules, active, r + 1, 0, root, text, language)
    } else if active[a].rule != r {
        scan(rules, active, r, a + 1, root, text, language)
    } else {
        match scan_one(rules[r], active[a], root, text, language) {
            Err(failure) => Err(failure),
            Ok(Some(m)) => Ok(Some((a, m))),
            Ok(None) => scan(rules, active, r, a + 1, root, text, language),
        }
    }
}

/// Whether `span` lies in `region`; without a region everything does.
pub fn lies_within(region: Option<Span>, span: Span) -> (yes: bool)
    ensures
        yes == within(region, span),
{
    match region {
        Some(r) => r.0 <= span.0 && span.1 <= r.1,
        None => true,
    }
}

/// The first valid match of an activation among `found`, taken out of it.
pub fn take_first_valid(
    candidates: Vec<Match>,
    rule: &Rule,
    activation: &Activation,
    source_code_unit: &SourceCodeUnit,
    rule_store: &mut RuleStore,
) -> (valid: Result<Option<Match>, RewriteError>)
    requires
        old(rule_store).well_formed(),
    ensures
        final(rule_store).well_formed(),
        old(rule_store).grown_to(final(rule_store)),
        match valid {
            Ok(Some(m)) => {
                let at = first_valid(
                    views(candidates@),
                    0,
                    rule@,
                    activation@,
                    source_code_unit.root(),
                    source_code_unit.text(),
                    old(rule_store).language(),
                );
                at is Ok && at->Ok_0 is Some && 0 <= at->Ok_0->Some_0 < candidates@.len() && m@
                    == candidates@[at->Ok_0->Some_0]@
            },
            Ok(None) => first_valid(
                views(candidates@),
                0,
                rule@,
                activation@,
                source_code_unit.root(),
                source_code_unit.text(),
                old(rule_store).language(),
            ) == Ok::<Option<int>, Failure>(None),
            Err(e) => first_valid(
                views(candidates@),
                0,
                rule@,
                activation@,
                source_code_unit.root(),
                source_code_unit.text(),
                old(rule_store).language(),
            ) == Err::<Option<int>, Failure>(e@),
        },
{
    let ghost all = views(candidates@);
    let mut found = candidates;
    let ghost language = rule_store.language();
    let ghost root = source_code_unit.root();
    let ghost text = source_code_unit.text();
    let mut i: usize = 0;
    while i < found.len()
        invariant
            i <= found.len(),
            views(found@) == all,
            all == views(candidates@),
            rule_store.well_formed(),
            old(rule_store).grown_to(rule_store),
            language == old(rule_store).language(),
            root == source_code_unit.root(),
            text == source_code_unit.text(),
            first_valid(all, 0, rule@, activation@, root, text, language) == first_valid(
                all,
                i as int,
                rule@,
                activation@,
                root,
                text,
                language,
            ),
        decreases found.len() - i,
    {
        let span = (found[i].start_byte, found[i].end_byte);
        assert(all[i as int] == found@[i as int]@);
        if lies_within(activation.region, span) && can_edit(source_code_unit.code(), span) {
            let top = source_code_unit.root_node();
            let node = match descendant_for_byte_range(top, span.0, span.1) {
                Some(node) => node,
                None => top,
            };
            let bindings = activation.substitutions.extended_with(&found[i].captures);
            match all_satisfied(rule.constraints(), node, source_code_unit, rule_store, &bindings) {
                Err(fault) => {
                    return Err(rule_failure(rule.name(), fault));
                },
                Ok(true) => {
                    return Ok(Some(found.swap_remove(i)));
                },
                Ok(false) => {},
            }
        }
        i = i + 1;
    }
    Ok(None)
}

/// What a scan of one activation found, as plain values.
pub open spec fn found_view(found: Result<Option<Match>, RewriteError>) -> Result<
    Option<MatchView>,
    Failure,
> {
    match found {
        Ok(Some(m)) => Ok(Some(m@)),
        Ok(None) => Ok(None),
        Err(e) => Err(e@),
    }
}

/// What a scan of all activations found, as plain values.
pub open spec fn located_view(found: Result<Option<(usize, Match)>, RewriteError>) -> Result<
    Option<(int, MatchView)>,
    Failure,
> {
    match found {
        Ok(Some((a, m))) => Ok(Some((a as int, m@))),
        Ok(None) => Ok(None),
        Err(e) => Err(e@),
    }
}

/// Scans the file for the first valid match of one activation.
pub fn scan_activation(
    rule: &Rule,
    activation: &Activation,
    source_code_unit: &SourceCodeUnit,
    rule_store: &mut RuleStore,
) -> (found: Result<Option<Match>, RewriteError>)
    requires
        old(rule_store).well_formed(),
    ensures
        final(rule_store).well_formed(),
        old(rule_store).grown_to(final(rule_store)),
        found_view(found) == scan_one(
            rule@,
            activation@,
            source_code_unit.root(),
            source_code_unit.text(),
            old(rule_store).language(),
        ),
{
    if rule.replace().is_none() {
        return Ok(None);
    }
    let source = match substitute_tags(rule.query().as_str(), &activation.substitutions) {
        Ok(source) => source,
        Err(unbound) => {
            return Err(RewriteError::UnboundTag { rule: rule.name().clone(), tag: unbound.tag });
        },
    };
    let at = match rule_store.get_query(&source) {
        Some(at) => at,
        None => {
            return Err(RewriteError::QueryCompilation { rule: rule.name().clone(), query: source });
        },
    };
    let query = rule_store.query(at);
    let found = get_all_matches_for_query(
        source_code_unit.root_node(),
        source_code_unit.code(),
        query,
        true,
    );
    take_first_valid(found, rule, activation, source_code_unit, rule_store)
}

/// Scans the file for the first valid match of all: rules in the order of
/// their declaration, the activations of each in the order in which they
/// came. Gives the activation's position and the match.
pub fn find_match(
    source_code_unit: &SourceCodeUnit,
    rule_store: &mut RuleStore,
    active: &Vec<Activation>,
) -> (found: Result<Option<(usize, Match)>, RewriteError>)
    requires
        old(rule_store).well_formed(),
    ensures
        final(rule_store).well_formed(),
        old(rule_store).grown_to(final(rule_store)),
        found is Ok && found->Ok_0 is Some ==> found->Ok_0->Some_0.0 < active@.len(),
        located_view(found) == scan(
            old(rule_store).rules(),
            activation_views(active@),
            0,
            0,
            source_code_unit.root(),
            source_code_unit.text(),
            old(rule_store).language(),
        ),
{
    let ghost rules = rule_store.rules();
    let ghost views = activation_views(active@);
    let ghost language = rule_store.language();
    let ghost root = source_code_unit.root();
    let ghost text = source_code_unit.text();
    let count = rule_store.rule_count();
    let mut r: usize = 0;
    while r < count
        invariant
            r <= count,
            count == rules.len(),
            rule_store.well_formed(),
            old(rule_store).grown_to(rule_store),
            rules == old(rule_store).rules(),
            views == activation_views(active@),
            language == old(rule_store).language(),
            root == source_code_unit.root(),
            text == source_code_unit.text(),
            scan(rules, views, 0, 0, root, text, language) == scan(
                rules,
                views,
                r as int,
                0,
                root,
                text,
                language,
            ),
        decreases count - r,
    {
        let rule = rule_store.rule(r).duplicate();
        let mut a: usize = 0;
        while a < active.len()
            invariant
                a <= active.len(),
                r < count,
                count == rules.len(),
                rule@ == rules[r as int],
                rule_store.well_formed(),
                old(rule_store).grown_to(rule_store),
                rules == old(rule_store).rules(),
                views == activation_views(active@),
                language == old(rule_store).language(),
                root == source_code_unit.root(),
                text == source_code_unit.text(),
                scan(rules, views, 0, 0, root, text, language) == scan(
                    rules,
                    views,
                    r as int,
                    a as int,
                    root,
                    text,
                    language,
                ),
            decreases active.len() - a,
        {
            assert(views[a as int] == active@[a as int]@);
            if active[a].rule == r {
                match scan_activation(&rule, &active[a], source_code_unit, rule_store) {
                    Err(e) => {
                        return Err(e);
                    },
                    Ok(Some(m)) => {
                        return Ok(Some((a, m)));
                    },
                    Ok(None) => {},
                }
            }
            a = a + 1;
        }
        r = r + 1;
    }
    Ok(None)
}

/// The parent of a node, or the node itself where it has none.
pub open spec fn enclosing<'a>(node: Node<'a>) -> Node<'a> {
    if ancestors_of(node).len() > 0 {
        ancestors_of(node)[0]
    } else {
        node
    }
}

/// A range as it is where it ends behind its start, and else the empty
/// range at its start.
pub open spec fn ordered(span: Span) -> Span {
    if span.0 <= span.1 {
        span
    } else {
        (span.0, span.0)
    }
}

/// The number of bytes that a text takes.
pub open spec fn byte_len(text: Seq<char>) -> usize {
    encode_utf8(text).len() as usize
}

/// Where the `len` bytes stand that were put in place of `edit`.
pub open spec fn put_span(edit: Span, len: usize) -> Span {
    (edit.0, capped_sum(edit.0, len))
}

/// The region of a rule that an edge of scope `scope` sets off: none for a
/// global edge, and else the range of the parent of the node that spans what
/// was put in.
pub open spec fn region_for<'a>(scope: EdgeScope, root: Node<'a>, put: Span) -> Option<Span> {
    match scope {
        EdgeScope::Global => None,
        EdgeScope::ParentOfEdit => Some(ordered(span_of(enclosing(node_at(root, put))))),
    }
}

/// An activation after an edit: its region moved along.
pub open spec fn moved_one(activation: ActivationView, edit: Span, len: usize) -> ActivationView {
    ActivationView {
        rule: activation.rule,
        region: match activation.region {
            Some(r) => Some(moved(r, edit, len)),
            None => None,
        },
        bindings: activation.bindings,
    }
}

/// The activations after an edit: each with its region moved along.
pub open spec fn moved_all(active: Seq<ActivationView>, edit: Span, len: usize) -> Seq<
    ActivationView,
> {
    Seq::new(active.len(), |i: int| moved_one(active[i], edit, len))
}

/// The activations that the first `upto` of the successors `next` give: one
/// for each that names a rule of `rules`, with `bindings` and with the region
/// that its edge asks for.
pub open spec fn set_off<'a>(
    rules: Seq<RuleView>,
    next: Seq<(Seq<char>, EdgeScope)>,
    upto: int,
    bindings: Map<Seq<char>, Seq<char>>,
    root: Node<'a>,
    put: Span,
) -> Seq<ActivationView>
    decreases upto,
{
    if upto <= 0 {
        Seq::empty()
    } else {
        let before = set_off(rules, next, upto - 1, bindings, root, put);
        match position_of(rules, next[upto - 1].0, 0) {
            Some(at) => before.push(
                ActivationView {
                    rule: at as usize,
                    region: region_for(next[upto - 1].1, root, put),
                    bindings,
                },
            ),
            None => before,
        }
    }
}

/// The text and the activations after the match `m` of the activation at
/// position `a` was rewritten.
pub open spec fn rewritten(
    rules: Seq<RuleView>,
    graph: RuleGraph,
    language: Language,
    text: Seq<char>,
    active: Seq<ActivationView>,
    a: int,
    m: MatchView,
) -> Result<(Seq<char>, Seq<ActivationView>), Failure> {
    let rule = rules[active[a].rule as int];
    let bindings = active[a].bindings.union_prefer_right(m.1);
    match expand(rule.replace.unwrap(), bindings) {
        Err(tag) => Err(Failure::UnboundTag(rule.name, tag)),
        Ok(replacement) => {
            let after = edited(text, m.0, replacement);
            match parsed(language, after) {
                None => Err(Failure::ParseFailure(rule.name)),
                Some(tree) => {
                    let len = byte_len(replacement);
                    let next = graph.successors_of(rule.name);
                    Ok(
                        (
                            after,
                            moved_all(active, m.0, len) + set_off(
                                rules,
                                next,
                                next.len() as int,
                                bindings,
                                root_of(tree),
                                put_span(m.0, len),
                            ),
                        ),
                    )
                },
            }
        },
    }
}

/// Whether every region ends behind its start.
pub open spec fn regions_ordered(active: Seq<ActivationView>) -> bool {
    forall|i: int|
        0 <= i < active.len() && (#[trigger] active[i]).region is Some ==> active[i].region.unwrap().0
            <= active[i].region.unwrap().1
}

/// The region of a rule that an edge of scope `scope` sets off.
pub fn successor_region(scope: EdgeScope, root: Node, put: Span) -> (region: Option<Span>)
    ensures
        region == region_for(scope, root, put),
{
    match scope {
        EdgeScope::Global => None,
        EdgeScope::ParentOfEdit => {
            let node = match descendant_for_byte_range(root, put.0, put.1) {
                Some(node) => node,
                None => root,
            };
            let around = match parent(node) {
                Some(up) => up,
                None => node,
            };
            let span = byte_range(around);
            if span.0 <= span.1 {
                Some(span)
            } else {
                Some((span.0, span.0))
            }
        },
    }
}

/// The activations with their regions moved along with an edit.
pub fn shift_all(active: &Vec<Activation>, edit: Span, len: usize) -> (after: Vec<Activation>)
    requires
        edit.0 <= edit.1,
        regions_ordered(activation_views(active@)),
    ensures
        activation_views(after@) == moved_all(activation_views(active@), edit, len),
{
    let mut after: Vec<Activation> = Vec::new();
    let mut i: usize = 0;
    while i < active.len()
        invariant
            i <= active.len(),
            edit.0 <= edit.1,
            regions_ordered(activation_views(active@)),
            after@.len() == i,
            forall|k: int|
                0 <= k < i ==> (#[trigger] after@[k])@ == moved_one(active@[k]@, edit, len),
        decreases active.len() - i,
    {
        assert(activation_views(active@)[i as int] == active@[i as int]@);
        let region = match active[i].region {
            Some(r) => Some(shift_region(r, edit, len)),
            None => None,
        };
        after.push(
            Activation {
                rule: active[i].rule,
                region,
                substitutions: active[i].substitutions.duplicate(),
            },
        );
        i = i + 1;
    }
    assert(activation_views(after@) =~= moved_all(activation_views(active@), edit, len));
    after
}

/// What a rewrite gave, as plain values: the text and the activations after
/// it, or the failure.
pub open spec fn rewrite_view(
    done: Result<(), RewriteError>,
    text: Seq<char>,
    active: Seq<Activation>,
) -> Result<(Seq<char>, Seq<ActivationView>), Failure> {
    match done {
        Ok(_) => Ok((text, activation_views(active))),
        Err(e) => Err(e@),
    }
}

/// Rewrites the match `m` of the activation at position `a`: puts the
/// rule's instantiated template in its place, parses the text anew, moves
/// the regions along and sets off the rule's successors. Where that fails,
/// the file and the activations stay as they were.
pub fn rewrite(
    source_code_unit: &mut SourceCodeUnit,
    rule_store: &RuleStore,
    active: &mut Vec<Activation>,
    a: usize,
    m: &Match,
) -> (done: Result<(), RewriteError>)
    requires
        old(source_code_unit).well_formed(),
        old(source_code_unit).language() == rule_store.language(),
        a < old(active)@.len(),
        old(active)@[a as int].rule < rule_store.rules().len(),
        rule_store.rules()[old(active)@[a as int].rule as int].replace is Some,
        editable(old(source_code_unit).text(), m@.0),
        regions_ordered(activation_views(old(active)@)),
    ensures
        final(source_code_unit).well_formed(),
        final(source_code_unit).language() == old(source_code_unit).language(),
        regions_ordered(activation_views(final(active)@)),
        rewrite_view(done, final(source_code_unit).text(), final(active)@) == rewritten(
            rule_store.rules(),
            rule_store.graph(),
            rule_store.language(),
            old(source_code_unit).text(),
            activation_views(old(active)@),
            a as int,
            m@,
        ),
        done is Err ==> *final(source_code_unit) == *old(source_code_unit) && *final(active) == *old(
            active,
        ),
{
    let ghost rules = rule_store.rules();
    let ghost before = activation_views(active@);
    assert(before[a as int] == active@[a as int]@);
    let span = (m.start_byte, m.end_byte);
    let rule = rule_store.rule(active[a].rule);
    let bindings = active[a].substitutions.extended_with(&m.captures);
    let template = match rule.replace() {
        Some(template) => template,
        None => unreached(),
    };
    let replacement = match substitute_tags(template.as_str(), &bindings) {
        Ok(replacement) => replacement,
        Err(unbound) => {
            return Err(RewriteError::UnboundTag { rule: rule.name().clone(), tag: unbound.tag });
        },
    };
    match source_code_unit.apply_edit(span, replacement.as_str()) {
        Ok(_) => {},
        Err(_) => {
            return Err(RewriteError::ParseFailure { rule: rule.name().clone() });
        },
    }
    let len = replacement.as_str().len();
    let put = (span.0, add_capped(span.0, len));
    let mut after = shift_all(active, span, len);
    let ghost shifted = activation_views(after@);
    assert forall|i: int|
        0 <= i < shifted.len() && (#[trigger] shifted[i]).region is Some implies shifted[i].region.unwrap().0
        <= shifted[i].region.unwrap().1 by {
        assert(before[i].region is Some);
    }
    let next = rule_store.rule_graph().successors(rule.name());
    let ghost targets = targets_view(next@);
    let top = source_code_unit.root_node();
    let mut k: usize = 0;
    while k < next.len()
        invariant
            k <= next.len(),
            targets == targets_view(next@),
            rules == rule_store.rules(),
            regions_ordered(activation_views(after@)),
            activation_views(after@) == shifted + set_off(
                rules,
                targets,
                k as int,
                bindings@,
                top,
                put,
            ),
        decreases next.len() - k,
    {
        assert(targets[k as int] == (next@[k as int].0@, next@[k as int].1));
        match rule_store.rule_index(&next[k].0) {
            Some(at) => {
                let region = successor_region(next[k].1, top, put);
                let ghost seen = activation_views(after@);
                after.push(Activation { rule: at, region, substitutions: bindings.duplicate() });
                assert(activation_views(after@) =~= seen.push(
                    ActivationView { rule: at, region, bindings: bindings@ },
                ));
                assert(seen.push(ActivationView { rule: at, region, bindings: bindings@ })
                    =~= shifted + set_off(rules, targets, k as int, bindings@, top, put).push(
                    ActivationView { rule: at, region, bindings: bindings@ },
                ));
            },
            None => {},
        }
        k = k + 1;
    }
    *active = after;
    Ok(())
}

/// The activations at the start: one for each seed rule among the first
/// `upto` rules, unconfined, with the bindings that the run was given.
pub open spec fn seeds(rules: Seq<RuleView>, upto: int, bindings: Map<Seq<char>, Seq<char>>) -> Seq<
    ActivationView,
>
    decreases upto,
{
    if upto <= 0 {
        Seq::empty()
    } else {
        let before = seeds(rules, upto - 1, bindings);
        if rules[upto - 1].is_seed {
            before.push(ActivationView { rule: (upto - 1) as usize, region: None, bindings })
        } else {
            before
        }
    }
}

/// The root of the tree of `text`.
pub open spec fn root_for(language: Language, text: Seq<char>) -> Node<'static> {
    root_of(parsed(language, text).unwrap())
}

/// How a run ends: the text that it leaves, and the number of rewrites made
/// or the failure that ended it.
pub struct Outcome {
    pub text: Seq<char>,
    pub end: Result<nat, Failure>,
}

/// What the loop comes to from a text and its activations, with `budget`
/// rewrites left of `limit` and `done` rewrites made. A rewrite that is due
/// when the budget is used up is a divergence. A failure leaves the text as
/// the rewrites before it made it.
pub open spec fn run_from(
    rules: Seq<RuleView>,
    graph: RuleGraph,
    language: Language,
    text: Seq<char>,
    active: Seq<ActivationView>,
    budget: nat,
    done: nat,
    limit: usize,
) -> Outcome
    decreases budget,
{
    match scan(rules, active, 0, 0, root_for(language, text), text, language) {
        Err(failure) => Outcome { text, end: Err(failure) },
        Ok(None) => Outcome { text, end: Ok(done) },
        Ok(Some((a, m))) => if budget == 0 {
            Outcome { text, end: Err(Failure::RewriteDivergence(limit)) }
        } else {
            match rewritten(rules, graph, language, text, active, a, m) {
                Err(failure) => Outcome { text, end: Err(failure) },
                Ok((after, next)) => run_from(
                    rules,
                    graph,
                    language,
                    after,
                    next,
                    (budget - 1) as nat,
                    done + 1,
                    limit,
                ),
            }
        },
    }
}

/// What a run of the engine comes to on `text`: the text that it leaves, and
/// the number of rewrites made or the failure that ended the run.
pub open spec fn run_result(
    rules: Seq<RuleView>,
    graph: RuleGraph,
    language: Language,
    text: Seq<char>,
    bindings: Map<Seq<char>, Seq<char>>,
    limit: usize,
) -> Outcome {
    run_from(
        rules,
        graph,
        language,
        text,
        seeds(rules, rules.len() as int, bindings),
        limit as nat,
        0,
        limit,
    )
}

/// The number of rewrites or the failure that a run gave, as plain values.
pub open spec fn end_view(done: Result<usize, RewriteError>) -> Result<nat, Failure> {
    match done {
        Ok(count) => Ok(count as nat),
        Err(e) => Err(e@),
    }
}

/// A match that `first_valid` gives lies in the activation's region and can
/// be cut out of the text.
pub proof fn lemma_first_valid_found<'a>(
    found: Seq<MatchView>,
    from: int,
    rule: RuleView,
    activation: ActivationView,
    root: Node<'a>,
    text: Seq<char>,
    language: Language,
)
    requires
        first_valid(found, from, rule, activation, root, text, language) is Ok,
        first_valid(found, from, rule, activation, root, text, language)->Ok_0 is Some,
    ensures
        ({
            let i = first_valid(found, from, rule, activation, root, text, language)->Ok_0->Some_0;
            &&& 0 <= from <= i < found.len()
            &&& within(activation.region, found[i].0)
            &&& editable(text, found[i].0)
        }),
    decreases found.len() - from,
{
    if 0 <= from < found.len() {
        let here = within(activation.region, found[from].0) && editable(text, found[from].0);
        if !here || all_hold(
            rule.constraints,
            0,
            node_at(root, found[from].0),
            root,
            text,
            language,
            activation.bindings.union_prefer_right(found[from].1),
        ) == Ok::<bool, Fault>(false) {
            lemma_first_valid_found(found, from + 1, rule, activation, root, text, language);
        }
    }
}

/// What a scan gives is a match of one of the activations, whose rule has a
/// template, and the match can be cut out of the text.
pub proof fn lemma_scan_found<'a>(
    rules: Seq<RuleView>,
    active: Seq<ActivationView>,
    r: int,
    a: int,
    root: Node<'a>,
    text: Seq<char>,
    language: Language,
)
    requires
        scan(rules, active, r, a, root, text, language) is Ok,
        scan(rules, active, r, a, root, text, language)->Ok_0 is Some,
    ensures
        ({
            let found = scan(rules, active, r, a, root, text, language)->Ok_0->Some_0;
            &&& 0 <= found.0 < active.len()
            &&& 0 <= active[found.0].rule < rules.len()
            &&& rules[active[found.0].rule as int].replace is Some
            &&& editable(text, found.1.0)
            &&& within(active[found.0].region, found.1.0)
        }),
    decreases rules.len() - r, active.len() - a,
{
    if 0 <= r < rules.len() && 0 <= a {
        if a >= active.len() {
            lemma_scan_found(rules, active, r + 1, 0, root, text, language);
        } else if active[a].rule != r {
            lemma_scan_found(rules, active, r, a + 1, root, text, language);
        } else {
            match scan_one(rules[r], active[a], root, text, language) {
                Ok(Some(m)) => {
                    let source = expand(rules[r].query, active[a].bindings)->Ok_0;
                    let query = query_of(language, source)->Some_0;
                    let all = matches_at(query, root, text, true);
                    lemma_first_valid_found(all, 0, rules[r], active[a], root, text, language);
                },
                Ok(None) => {
                    lemma_scan_found(rules, active, r, a + 1, root, text, language);
                },
                Err(_) => {},
            }
        }
    }
}

/// The activations at the start of a run.
pub fn seed_activations(rule_store: &RuleStore, substitutions: &Substitutions) -> (active: Vec<
    Activation,
>)
    ensures
        activation_views(active@) == seeds(
            rule_store.rules(),
            rule_store.rules().len() as int,
            substitutions@,
        ),
        regions_ordered(activation_views(active@)),
{
    let mut active: Vec<Activation> = Vec::new();
    let count = rule_store.rule_count();
    let mut i: usize = 0;
    assert(activation_views(active@) =~= Seq::empty());
    while i < count
        invariant
            i <= count,
            count == rule_store.rules().len(),
            activation_views(active@) == seeds(rule_store.rules(), i as int, substitutions@),
            regions_ordered(activation_views(active@)),
        decreases count - i,
    {
        if rule_store.rule(i).is_seed() {
            let ghost seen = activation_views(active@);
            active.push(
                Activation { rule: i, region: None, substitutions: substitutions.duplicate() },
            );
            assert(activation_views(active@) =~= seen.push(
                ActivationView { rule: i, region: None, bindings: substitutions@ },
            ));
        }
        i = i + 1;
    }
    active
}

/// The rewriting loop with its bound on the number of rewrites.
pub struct RewriteEngine {
    limit: usize,
}

impl RewriteEngine {
    /// The most rewrites that a run may make.
    pub closed spec fn max_rewrites(&self) -> usize {
        self.limit
    }

    /// An engine that gives a run up as divergent when more than `limit`
    /// rewrites are due.
    pub fn new(limit: usize) -> (engine: Self)
        ensures
            engine.max_rewrites() == limit,
    {
        RewriteEngine { limit }
    }

    /// The most rewrites that a run may make.
    pub fn limit(&self) -> (limit: usize)
        ensures
            limit == self.max_rewrites(),
    {
        self.limit
    }

    /// Rewrites the file until no active rule has a valid match left, and
    /// tells how many rewrites were made.
    ///
    /// The seed rules start active, their holes filled from `substitutions`.
    /// The run fails on a query that does not compile, on a hole that
    /// nothing binds, on a text for which there is no tree, and as divergent
    /// when a rewrite is due after `limit` rewrites were made. After a
    /// failure the file holds the rewrites made up to it.
    pub fn run(
        &self,
        source_code_unit: &mut SourceCodeUnit,
        rule_store: &mut RuleStore,
        substitutions: &Substitutions,
    ) -> (done: Result<usize, RewriteError>)
        requires
            old(source_code_unit).well_formed(),
            old(rule_store).well_formed(),
            old(source_code_unit).language() == old(rule_store).language(),
        ensures
            final(source_code_unit).well_formed(),
            final(source_code_unit).language() == old(source_code_unit).language(),
            final(rule_store).well_formed(),
            old(rule_store).grown_to(final(rule_store)),
            run_result(
                old(rule_store).rules(),
                old(rule_store).graph(),
                old(rule_store).language(),
                old(source_code_unit).text(),
                substitutions@,
                self.max_rewrites(),
            ) == (Outcome { text: final(source_code_unit).text(), end: end_view(done) }),
    {
        let ghost rules = rule_store.rules();
        let ghost graph = rule_store.graph();
        let ghost language = rule_store.language();
        let ghost start = source_code_unit.text();
        let ghost goal = run_result(rules, graph, language, start, substitutions@, self.limit);
        let mut active = seed_activations(rule_store, substitutions);
        let mut count: usize = 0;
        loop
            invariant
                count <= self.limit,
                source_code_unit.well_formed(),
                source_code_unit.language() == language,
                rule_store.well_formed(),
                old(rule_store).grown_to(rule_store),
                rules == old(rule_store).rules(),
                graph == old(rule_store).graph(),
                language == old(rule_store).language(),
                regions_ordered(activation_views(active@)),
                language == old(source_code_unit).language(),
                goal == run_result(
                    rules,
                    graph,
                    language,
                    old(source_code_unit).text(),
                    substitutions@,
                    self.max_rewrites(),
                ),
                self.limit == self.max_rewrites(),
                goal == run_from(
                    rules,
                    graph,
                    language,
                    source_code_unit.text(),
                    activation_views(active@),
                    (self.limit - count) as nat,
                    count as nat,
                    self.limit,
                ),
            decreases self.limit - count,
        {
            let ghost text = source_code_unit.text();
            let ghost views = activation_views(active@);
            assert(source_code_unit.root() == root_for(language, text));
            let (a, m) = match find_match(source_code_unit, rule_store, &active) {
                Err(e) => {
                    return Err(e);
                },
                Ok(None) => {
                    return Ok(count);
                },
                Ok(Some(found)) => found,
            };
            if count == self.limit {
                return Err(RewriteError::RewriteDivergence { limit: self.limit });
            }
            proof {
                lemma_scan_found(rules, views, 0, 0, root_for(language, text), text, language);
                assert(views[a as int] == active@[a as int]@);
            }
            match rewrite(source_code_unit, rule_store, &mut active, a, &m) {
                Err(e) => {
                    return Err(e);
                },
                Ok(_) => {},
            }
            count = count + 1;
        }
    }
}

} // verus!
