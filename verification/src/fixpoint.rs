//! What holds of a run of the engine as a whole: that a finished run leaves
//! nothing to rewrite, and that a run depends on nothing but the rules, the
//! text and the bindings it is given.

use crate::constraint::all_hold;
use crate::engine::{
    first_valid, node_at, rewritten, root_for, run_from, run_result, scan, scan_one, seeds, within,
    ActivationView, Failure, Outcome,
};
use crate::errors::Fault;
use crate::spans::editable;
use crate::matches::MatchView;
use crate::rule::RuleView;
use crate::rule_graph::RuleGraph;
use crate::rule_store::RuleStore;
use tree_sitter::{Language, Node};
use vstd::prelude::*;

verus! {

/// Whether no activation that a scan from rule `r` and activation `a` on
/// would look at has a valid match, and none fails.
pub open spec fn quiet<'a>(
    rules: Seq<RuleView>,
    active: Seq<ActivationView>,
    r: int,
    a: int,
    root: Node<'a>,
    text: Seq<char>,
    language: Language,
) -> bool {
    forall|k: int|
        0 <= k < active.len() && 0 <= (#[trigger] active[k]).rule < rules.len() && (active[k].rule
            > r || (active[k].rule == r && k >= a)) ==> scan_one(
            rules[active[k].rule as int],
            active[k],
            root,
            text,
            language,
        ) == Ok::<Option<MatchView>, Failure>(None)
}

/// A scan finds nothing exactly where all it looks at is quiet.
pub proof fn lemma_scan_quiet<'a>(
    rules: Seq<RuleView>,
    active: Seq<ActivationView>,
    r: int,
    a: int,
    root: Node<'a>,
    text: Seq<char>,
    language: Language,
)
    requires
        0 <= r,
        0 <= a,
    ensures
        scan(rules, active, r, a, root, text, language) == Ok::<Option<(int, MatchView)>, Failure>(
            None,
        ) <==> quiet(rules, active, r, a, root, text, language),
    decreases rules.len() - r, active.len() - a,
{
    if r < rules.len() {
        if a >= active.len() {
            lemma_scan_quiet(rules, active, r + 1, 0, root, text, language);
        } else {
            lemma_scan_quiet(rules, active, r, a + 1, root, text, language);
            if active[a].rule == r {
                assert(0 <= active[a].rule < rules.len());
            }
        }
    }
}

/// Where a scan of some activations finds nothing, a scan of the first
/// `n` of them finds nothing either.
pub proof fn lemma_scan_prefix<'a>(
    rules: Seq<RuleView>,
    active: Seq<ActivationView>,
    n: int,
    root: Node<'a>,
    text: Seq<char>,
    language: Language,
)
    requires
        0 <= n <= active.len(),
        scan(rules, active, 0, 0, root, text, language) == Ok::<Option<(int, MatchView)>, Failure>(
            None,
        ),
    ensures
        scan(rules, active.take(n), 0, 0, root, text, language) == Ok::<
            Option<(int, MatchView)>,
            Failure,
        >(None),
{
    lemma_scan_quiet(rules, active, 0, 0, root, text, language);
    let front = active.take(n);
    assert forall|k: int|
        0 <= k < front.len() && 0 <= (#[trigger] front[k]).rule < rules.len() && (front[k].rule > 0
            || (front[k].rule == 0 && k >= 0)) implies scan_one(
        rules[front[k].rule as int],
        front[k],
        root,
        text,
        language,
    ) == Ok::<Option<MatchView>, Failure>(None) by {
        assert(front[k] == active[k]);
    }
    lemma_scan_quiet(rules, front, 0, 0, root, text, language);
}

/// Whether `active` begins with the activations `first`, all of them unconfined.
pub open spec fn begins_with(active: Seq<ActivationView>, first: Seq<ActivationView>) -> bool {
    &&& first.len() <= active.len()
    &&& active.take(first.len() as int) == first
    &&& forall|i: int| 0 <= i < first.len() ==> (#[trigger] first[i]).region is None
}

/// The seed activations are unconfined.
pub proof fn lemma_seeds_unconfined(
    rules: Seq<RuleView>,
    upto: int,
    bindings: Map<Seq<char>, Seq<char>>,
)
    ensures
        forall|i: int|
            0 <= i < seeds(rules, upto, bindings).len() ==> (#[trigger] seeds(
                rules,
                upto,
                bindings,
            )[i]).region is None,
    decreases upto,
{
    if upto > 0 {
        lemma_seeds_unconfined(rules, upto - 1, bindings);
    }
}

/// Where the loop comes to rest, a scan of the activations that it began
/// with finds nothing in the text that it leaves.
pub proof fn lemma_rest_is_quiet(
    rules: Seq<RuleView>,
    graph: RuleGraph,
    language: Language,
    text: Seq<char>,
    active: Seq<ActivationView>,
    first: Seq<ActivationView>,
    budget: nat,
    done: nat,
    limit: usize,
)
    requires
        begins_with(active, first),
        run_from(rules, graph, language, text, active, budget, done, limit).end is Ok,
    ensures
        ({
            let out = run_from(rules, graph, language, text, active, budget, done, limit).text;
            scan(rules, first, 0, 0, root_for(language, out), out, language) == Ok::<
                Option<(int, MatchView)>,
                Failure,
            >(None)
        }),
    decreases budget,
{
    let root = root_for(language, text);
    match scan(rules, active, 0, 0, root, text, language) {
        Err(_) => {},
        Ok(None) => {
            lemma_scan_prefix(rules, active, first.len() as int, root, text, language);
        },
        Ok(Some((a, m))) => {
            if budget > 0 {
                match rewritten(rules, graph, language, text, active, a, m) {
                    Err(_) => {},
                    Ok((after, next)) => {
                        assert(begins_with(next, first)) by {
                            assert forall|i: int| 0 <= i < first.len() implies next[i]
                                == first[i] by {
                                assert(active.take(first.len() as int)[i] == active[i]);
                                assert(first[i].region is None);
                            }
                            assert(next.take(first.len() as int) =~= first);
                        }
                        lemma_rest_is_quiet(
                            rules,
                            graph,
                            language,
                            after,
                            next,
                            first,
                            (budget - 1) as nat,
                            done + 1,
                            limit,
                        );
                    },
                }
            }
        },
    }
}

/// A finished run leaves nothing to do: run again on the text that it gave,
/// with the same rules and bindings and under any limit, the engine makes no
/// rewrite and gives the same text.
pub proof fn lemma_finished_run_is_fixpoint(
    rules: Seq<RuleView>,
    graph: RuleGraph,
    language: Language,
    text: Seq<char>,
    bindings: Map<Seq<char>, Seq<char>>,
    limit: usize,
    again: usize,
)
    requires
        run_result(rules, graph, language, text, bindings, limit).end is Ok,
    ensures
        ({
            let out = run_result(rules, graph, language, text, bindings, limit).text;
            run_result(rules, graph, language, out, bindings, again) == (Outcome {
                text: out,
                end: Ok(0nat),
            })
        }),
{
    let first = seeds(rules, rules.len() as int, bindings);
    lemma_seeds_unconfined(rules, rules.len() as int, bindings);
    assert(first.take(first.len() as int) =~= first);
    lemma_rest_is_quiet(rules, graph, language, text, first, first, limit as nat, 0, limit);
}

/// A run depends on the rules, the edges, the language, the text, the
/// bindings and the limit alone: two stores that agree in rules, edges and
/// language give the same text and the same number of rewrites, whatever
/// queries either has compiled before.
pub proof fn lemma_runs_agree(
    one: RuleStore,
    other: RuleStore,
    text: Seq<char>,
    bindings: Map<Seq<char>, Seq<char>>,
    limit: usize,
)
    requires
        one.rules() == other.rules(),
        one.graph() == other.graph(),
        one.language() == other.language(),
    ensures
        run_result(one.rules(), one.graph(), one.language(), text, bindings, limit) == run_result(
            other.rules(),
            other.graph(),
            other.language(),
            text,
            bindings,
            limit,
        ),
{
}

/// Matches that do not meet their rule's constraints are passed over:
/// where the constraints give false at every match from `from` on that lies
/// in the activation's region and can be cut out, the activation has no
/// valid match.
pub proof fn lemma_unsatisfied_matches_are_passed_over<'a>(
    found: Seq<MatchView>,
    from: int,
    rule: RuleView,
    activation: ActivationView,
    root: Node<'a>,
    text: Seq<char>,
    language: Language,
)
    requires
        0 <= from,
        forall|i: int|
            from <= i < found.len() && within(activation.region, (#[trigger] found[i]).0)
                && editable(text, found[i].0) ==> all_hold(
                rule.constraints,
                0,
                node_at(root, found[i].0),
                root,
                text,
                language,
                activation.bindings.union_prefer_right(found[i].1),
            ) == Ok::<bool, Fault>(false),
    ensures
        first_valid(found, from, rule, activation, root, text, language) == Ok::<
            Option<int>,
            Failure,
        >(None),
    decreases found.len() - from,
{
    if from < found.len() {
        lemma_unsatisfied_matches_are_passed_over(
            found,
            from + 1,
            rule,
            activation,
            root,
            text,
            language,
        );
    }
}

/// Where the scan of the seed rules finds no valid match, a run makes no
/// rewrite and leaves the text as it is.
pub proof fn lemma_nothing_valid_nothing_rewritten(
    rules: Seq<RuleView>,
    graph: RuleGraph,
    language: Language,
    text: Seq<char>,
    bindings: Map<Seq<char>, Seq<char>>,
    limit: usize,
)
    requires
        scan(
            rules,
            seeds(rules, rules.len() as int, bindings),
            0,
            0,
            root_for(language, text),
            text,
            language,
        ) == Ok::<Option<(int, MatchView)>, Failure>(None),
    ensures
        run_result(rules, graph, language, text, bindings, limit) == (Outcome {
            text,
            end: Ok(0nat),
        }),
{
}

/// Where the first scan finds a valid match, its rewrite succeeds, and the
/// scan of what the rewrite leaves finds nothing, a run that may make a
/// rewrite makes that one and gives the rewritten text.
pub proof fn lemma_one_rewrite_then_rest(
    rules: Seq<RuleView>,
    graph: RuleGraph,
    language: Language,
    text: Seq<char>,
    bindings: Map<Seq<char>, Seq<char>>,
    limit: usize,
    a: int,
    m: MatchView,
    after: Seq<char>,
    next: Seq<ActivationView>,
)
    requires
        limit >= 1,
        scan(
            rules,
            seeds(rules, rules.len() as int, bindings),
            0,
            0,
            root_for(language, text),
            text,
            language,
        ) == Ok::<Option<(int, MatchView)>, Failure>(Some((a, m))),
        rewritten(
            rules,
            graph,
            language,
            text,
            seeds(rules, rules.len() as int, bindings),
            a,
            m,
        ) == Ok::<(Seq<char>, Seq<ActivationView>), Failure>((after, next)),
        scan(rules, next, 0, 0, root_for(language, after), after, language) == Ok::<
            Option<(int, MatchView)>,
            Failure,
        >(None),
    ensures
        run_result(rules, graph, language, text, bindings, limit) == (Outcome {
            text: after,
            end: Ok(1nat),
        }),
{
    assert(run_from(rules, graph, language, after, next, (limit - 1) as nat, 1, limit) == (Outcome {
        text: after,
        end: Ok(1nat),
    }));
}

} // verus!
