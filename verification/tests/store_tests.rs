use piranha::query_cache::QueryCache;
use piranha::rule::Rule;
use piranha::rule_graph::{EdgeScope, RuleGraph};
use piranha::rule_store::RuleStore;

fn rule(name: &str, seed: bool) -> Rule {
    Rule::new(
        String::from(name),
        String::from("(identifier) @@id"),
        Some(String::from("x")),
        Vec::new(),
        seed,
    )
}

#[test]
fn a_query_is_compiled_once_and_found_again() {
    let mut cache = QueryCache::new(tree_sitter_java::language());
    let first = cache.position(&String::from("(identifier) @id")).unwrap();
    let second = cache.position(&String::from("(method_invocation) @call")).unwrap();
    assert_eq!((first, second), (0, 1));
    assert_eq!(cache.position(&String::from("(identifier) @id")), Some(0));
    assert_eq!(cache.position(&String::from("(method_invocation) @call")), Some(1));
    assert_eq!(cache.query(0).capture_names(), &[String::from("id")]);
    assert_eq!(cache.query(1).capture_names(), &[String::from("call")]);
    assert_eq!(cache.query(1).pattern_count(), 1);
}

#[test]
fn a_text_that_is_no_query_gets_no_position() {
    let mut cache = QueryCache::new(tree_sitter_java::language());
    assert_eq!(cache.position(&String::from("(identifier @id")), None);
    assert_eq!(cache.position(&String::from("(no_such_kind) @x")), None);
    assert_eq!(cache.position(&String::from("(identifier) @id")), Some(0));
    assert_eq!(cache.position(&String::from("(identifier @id")), None);
}

#[test]
fn a_text_with_a_character_beyond_ascii_is_no_query() {
    let mut cache = QueryCache::new(tree_sitter_java::language());
    assert_eq!(cache.position(&String::from("(identifier) @é")), None);
    assert_eq!(cache.position(&String::from("((identifier) @id (#eq? @id \"é\"))")), None);
    assert_eq!(cache.position(&String::from("(identifier) @id ; naïve")), None);
    assert_eq!(cache.position(&String::from("(identifier) @id\u{a0}")), None);
    assert_eq!(cache.position(&String::from("(identifier) @id ; plain")), Some(0));
    assert_eq!(cache.position(&String::from("((identifier) @id (#eq? @id \"e\"))")), Some(1));
}

#[test]
fn a_store_resolves_queries_and_rules() {
    let rules = vec![rule("first", true), rule("second", false), rule("first", false)];
    let mut store = RuleStore::new(tree_sitter_java::language(), rules, RuleGraph::new());
    assert_eq!(store.rule_count(), 3);
    assert_eq!(store.rule(1).name(), "second");
    assert!(store.rule(0).is_seed());
    assert!(!store.rule(2).is_seed());
    assert_eq!(store.rule_index(&String::from("first")), Some(0));
    assert_eq!(store.rule_index(&String::from("second")), Some(1));
    assert_eq!(store.rule_index(&String::from("third")), None);
    let at = store.get_query(&String::from("(identifier) @id")).unwrap();
    assert_eq!(store.query(at).capture_names(), &[String::from("id")]);
    assert_eq!(store.get_query(&String::from("(identifier) @id")), Some(at));
    assert_eq!(store.get_query(&String::from(")")), None);
    assert!(store.rule_graph().successors(&String::from("first")).is_empty());
}

#[test]
fn a_rule_gives_back_its_parts() {
    let constraint = piranha::constraint::Constraint::new(String::from("(block) @b"), Vec::new());
    let made = Rule::new(
        String::from("name"),
        String::from("query"),
        None,
        vec![constraint.duplicate()],
        true,
    );
    assert_eq!(made.name(), "name");
    assert_eq!(made.query(), "query");
    assert_eq!(made.replace(), None);
    assert_eq!(made.constraints(), &vec![constraint]);
    assert!(made.is_seed());
    let copy = rule("other", false).duplicate();
    assert_eq!(copy.name(), "other");
    assert_eq!(copy.query(), "(identifier) @@id");
    assert_eq!(copy.replace(), Some(&String::from("x")));
    assert!(copy.constraints().is_empty());
    assert!(!copy.is_seed());
}

#[test]
fn successors_and_predecessors_come_in_the_order_of_the_edges() {
    let mut graph = RuleGraph::new();
    graph.add_edge(String::from("a"), String::from("b"), EdgeScope::Global);
    graph.add_edge(String::from("b"), String::from("a"), EdgeScope::ParentOfEdit);
    graph.add_edge(String::from("a"), String::from("c"), EdgeScope::ParentOfEdit);
    graph.add_edge(String::from("a"), String::from("a"), EdgeScope::Global);
    assert_eq!(
        graph.successors(&String::from("a")),
        vec![
            (String::from("b"), EdgeScope::Global),
            (String::from("c"), EdgeScope::ParentOfEdit),
            (String::from("a"), EdgeScope::Global),
        ]
    );
    assert_eq!(graph.successors(&String::from("b")), vec![(String::from("a"), EdgeScope::ParentOfEdit)]);
    assert_eq!(graph.successors(&String::from("c")), Vec::new());
    assert_eq!(
        graph.predecessors(&String::from("a")),
        vec![(String::from("b"), EdgeScope::ParentOfEdit), (String::from("a"), EdgeScope::Global)]
    );
    assert_eq!(graph.predecessors(&String::from("d")), Vec::new());
    assert_eq!(RuleGraph::new().successors(&String::from("a")), Vec::new());
}
