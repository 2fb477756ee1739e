use piranha::constraint::Constraint;
use piranha::engine::{RewriteEngine, RewriteError};
use piranha::rule::Rule;
use piranha::rule_graph::{EdgeScope, RuleGraph};
use piranha::rule_store::RuleStore;
use piranha::source_code_unit::SourceCodeUnit;
use piranha::tags::Substitutions;

static LANGUAGE: &str = "java";

fn language(name: &str) -> tree_sitter::Language {
    assert_eq!(name, "java");
    tree_sitter_java::language()
}

fn flag_call(name: &str, arg: &str) -> String {
    format!(
        "(method_invocation name: (_) @@{} arguments: (argument_list (string_literal) @@{}))",
        name, arg
    )
}

/// One rule: an `if` on the flag gives way to the branch that is kept, unless
/// a sibling `if` asks for the same flag.
fn feature_flag_system_1(kept: &str) -> RuleStore {
    let branch = if kept == "treated" { "consequence" } else { "alternative" };
    let query = format!(
        "((if_statement condition: (condition {}) {}: (block (_)* @@kept)) @@stmt \
         (#eq? @@name \"flagEnabled\") (#eq? @@arg \"\\\"@flag\\\"\"))",
        flag_call("name", "arg"),
        branch
    );
    let sibling = format!(
        "((block (if_statement condition: (condition {})) @@first \
         (if_statement condition: (condition {})) @@second) \
         (#eq? @@n1 \"flagEnabled\") (#eq? @@a1 \"\\\"@flag\\\"\") \
         (#eq? @@n2 \"flagEnabled\") (#eq? @@a2 \"\\\"@flag\\\"\"))",
        flag_call("n1", "a1"),
        flag_call("n2", "a2")
    );
    let constraint = Constraint::new(String::from("(method_declaration) @method"), vec![sibling]);
    let rule = Rule::new(
        String::from("delete_flag_branch"),
        query,
        Some(String::from("@kept")),
        vec![constraint],
        true,
    );
    RuleStore::new(language(LANGUAGE), vec![rule], RuleGraph::new())
}

/// A chain: the flag call becomes a literal; a negation right around the
/// literal is worked out, and an `if` on a literal gives way to one of its
/// branches.
fn feature_flag_system_2() -> RuleStore {
    let call = format!(
        "({} @@call (#eq? @@name \"isTreated\") (#eq? @@arg \"\\\"@flag\\\"\"))",
        "(method_invocation name: (_) @@name arguments: (argument_list (string_literal) @@arg))"
    );
    let rules = vec![
        Rule::new(String::from("flag_to_literal"), call, Some(String::from("@value")), vec![], true),
        Rule::new(
            String::from("if_true"),
            String::from(
                "((if_statement condition: (condition (true)) \
                 consequence: (block (_)* @@kept)) @@stmt)",
            ),
            Some(String::from("@kept")),
            vec![],
            false,
        ),
        Rule::new(
            String::from("if_false"),
            String::from(
                "((if_statement condition: (condition (false)) \
                 alternative: (block (_)* @@kept)) @@stmt)",
            ),
            Some(String::from("@kept")),
            vec![],
            false,
        ),
        Rule::new(
            String::from("not_true"),
            String::from("((unary_expression operand: (true)) @@not)"),
            Some(String::from("false")),
            vec![],
            false,
        ),
        Rule::new(
            String::from("not_false"),
            String::from("((unary_expression operand: (false)) @@not)"),
            Some(String::from("true")),
            vec![],
            false,
        ),
    ];
    let mut graph = RuleGraph::new();
    graph.add_edge(String::from("flag_to_literal"), String::from("not_true"), EdgeScope::ParentOfEdit);
    graph.add_edge(String::from("flag_to_literal"), String::from("not_false"), EdgeScope::ParentOfEdit);
    graph.add_edge(String::from("flag_to_literal"), String::from("if_true"), EdgeScope::Global);
    graph.add_edge(String::from("flag_to_literal"), String::from("if_false"), EdgeScope::Global);
    RuleStore::new(language(LANGUAGE), rules, graph)
}

fn bindings(pairs: &[(&str, &str)]) -> Substitutions {
    let mut bound = Substitutions::new();
    for (tag, text) in pairs {
        bound.insert(String::from(*tag), String::from(*text));
    }
    bound
}

fn describe(e: &RewriteError) -> String {
    match e {
        RewriteError::QueryCompilation { rule, query } => format!("{}: bad query {}", rule, query),
        RewriteError::UnboundTag { rule, tag } => format!("{}: unbound tag {}", rule, tag),
        RewriteError::RewriteDivergence { limit } => format!("more than {} rewrites", limit),
        RewriteError::ParseFailure { rule } => format!("{}: no tree", rule),
    }
}

const ONE_GUARD: &str = "class Sample {\n  void run() {\n    if (flagEnabled(\"STALE\")) {\n      treated();\n    } else {\n      control();\n    }\n  }\n}\n";

const TWO_GUARDS: &str = "class Sample {\n  void run() {\n    if (flagEnabled(\"STALE\")) {\n      treated();\n    } else {\n      control();\n    }\n    if (flagEnabled(\"STALE\")) {\n      more();\n    } else {\n      less();\n    }\n  }\n}\n";

const OTHER_FLAG: &str = "class Sample {\n  void run() {\n    if (flagEnabled(\"FRESH\")) {\n      treated();\n    } else {\n      control();\n    }\n  }\n}\n";

const IF_ELSE: &str = "class A {\n  void a() {\n    if (isTreated(\"STALE\")) {\n      yes();\n    } else {\n      no();\n    }\n  }\n}\n";

const NEGATED: &str = "class B {\n  boolean b() {\n    return !isTreated(\"STALE\");\n  }\n}\n";

const TWO_STATEMENTS: &str = "class C {\n  void c() {\n    first();\n    if (isTreated(\"STALE\")) {\n      yes();\n      again();\n    } else {\n      no();\n    }\n  }\n}\n";

const TWICE: &str = "class D {\n  void d() {\n    if (isTreated(\"STALE\")) {\n      one();\n    } else {\n      other();\n    }\n    if (isTreated(\"STALE\")) {\n      two();\n    } else {\n      another();\n    }\n  }\n}\n";

const FRESH: &str = "class E {\n  void e() {\n    if (isTreated(\"FRESH\")) {\n      yes();\n    } else {\n      no();\n    }\n  }\n}\n";

/// The files of a scenario, each with what it has to become.
fn files(system: &str, kept: &str) -> Vec<(&'static str, &'static str)> {
    match (system, kept) {
        ("feature_flag_system_1", "treated") => vec![
            (ONE_GUARD, "class Sample {\n  void run() {\n    treated();\n  }\n}\n"),
            (TWO_GUARDS, TWO_GUARDS),
            (OTHER_FLAG, OTHER_FLAG),
        ],
        ("feature_flag_system_1", "control") => vec![
            (ONE_GUARD, "class Sample {\n  void run() {\n    control();\n  }\n}\n"),
            (TWO_GUARDS, TWO_GUARDS),
            (OTHER_FLAG, OTHER_FLAG),
        ],
        ("feature_flag_system_2", "treated") => vec![
            (IF_ELSE, "class A {\n  void a() {\n    yes();\n  }\n}\n"),
            (NEGATED, "class B {\n  boolean b() {\n    return false;\n  }\n}\n"),
            (TWO_STATEMENTS, "class C {\n  void c() {\n    first();\n    yes();\nagain();\n  }\n}\n"),
            (TWICE, "class D {\n  void d() {\n    one();\n    two();\n  }\n}\n"),
            (FRESH, FRESH),
        ],
        ("feature_flag_system_2", "control") => vec![
            (IF_ELSE, "class A {\n  void a() {\n    no();\n  }\n}\n"),
            (NEGATED, "class B {\n  boolean b() {\n    return true;\n  }\n}\n"),
            (TWO_STATEMENTS, "class C {\n  void c() {\n    first();\n    no();\n  }\n}\n"),
            (TWICE, "class D {\n  void d() {\n    other();\n    another();\n  }\n}\n"),
            (FRESH, FRESH),
        ],
        _ => unreachable!(),
    }
}

/// The rules of a scenario and what its holes are filled from.
fn rules(system: &str, kept: &str) -> (RuleStore, Substitutions) {
    match system {
        "feature_flag_system_1" => (feature_flag_system_1(kept), bindings(&[("flag", "STALE")])),
        "feature_flag_system_2" => {
            let value = if kept == "treated" { "true" } else { "false" };
            (feature_flag_system_2(), bindings(&[("flag", "STALE"), ("value", value)]))
        }
        _ => unreachable!(),
    }
}

/// Runs the rules of a scenario over its files. Each file must come out as
/// expected, a second run must change nothing, and `files_changed` files
/// must have been rewritten.
fn run_test(language_name: &str, system: &str, kept: &str, files_changed: usize) {
    let (mut store, bound) = rules(system, kept);
    let engine = RewriteEngine::new(100);
    let mut count = 0;
    for (input, expected) in files(system, kept) {
        let mut unit = SourceCodeUnit::new(language(language_name), String::from(input)).unwrap();
        let rewrites = match engine.run(&mut unit, &mut store, &bound) {
            Ok(n) => n,
            Err(e) => panic!("the run failed: {}", describe(&e)),
        };
        assert_eq!(unit.code(), expected);
        if rewrites > 0 {
            count += 1;
        }
        assert_eq!(engine.run(&mut unit, &mut store, &bound), Ok(0));
        assert_eq!(unit.code(), expected);
    }
    assert_eq!(count, files_changed);
}

#[test]
fn test_java_scenarios_treated_ff1() {
    run_test(LANGUAGE, "feature_flag_system_1", "treated", 1);
}

#[test]
fn test_java_scenarios_treated_ff2() {
    run_test(LANGUAGE, "feature_flag_system_2", "treated", 4);
}

#[test]
fn test_java_scenarios_control_ff1() {
    run_test(LANGUAGE, "feature_flag_system_1", "control", 1);
}

#[test]
fn test_java_scenarios_control_ff2() {
    run_test(LANGUAGE, "feature_flag_system_2", "control", 4);
}

#[test]
fn one_guarded_block_gives_way_to_its_treated_branch_and_then_nothing_changes() {
    let (mut store, bound) = rules("feature_flag_system_1", "treated");
    let engine = RewriteEngine::new(100);
    let mut unit = SourceCodeUnit::new(language(LANGUAGE), String::from(ONE_GUARD)).unwrap();
    assert_eq!(engine.run(&mut unit, &mut store, &bound), Ok(1));
    assert_eq!(unit.code(), "class Sample {\n  void run() {\n    treated();\n  }\n}\n");
    assert_eq!(engine.run(&mut unit, &mut store, &bound), Ok(0));
    assert_eq!(unit.code(), "class Sample {\n  void run() {\n    treated();\n  }\n}\n");
}

#[test]
fn two_guards_on_one_flag_in_one_method_are_both_left_alone() {
    let (mut store, bound) = rules("feature_flag_system_1", "treated");
    let mut unit = SourceCodeUnit::new(language(LANGUAGE), String::from(TWO_GUARDS)).unwrap();
    assert_eq!(RewriteEngine::new(100).run(&mut unit, &mut store, &bound), Ok(0));
    assert_eq!(unit.code(), TWO_GUARDS);
}

#[test]
fn a_rewrite_past_the_limit_is_a_divergence() {
    let rule = Rule::new(
        String::from("grow"),
        String::from("((identifier) @@name (#eq? @@name \"x\"))"),
        Some(String::from("x")),
        vec![],
        true,
    );
    let mut store = RuleStore::new(language(LANGUAGE), vec![rule], RuleGraph::new());
    let mut unit =
        SourceCodeUnit::new(language(LANGUAGE), String::from("class A { int x; }")).unwrap();
    let done = RewriteEngine::new(3).run(&mut unit, &mut store, &Substitutions::new());
    assert!(matches!(done, Err(RewriteError::RewriteDivergence { limit: 3 })));
}
