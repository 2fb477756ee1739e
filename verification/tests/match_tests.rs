use piranha::matches::{
    capture_text, collect_captures, comes_before, count, eligible_ranges, gather,
    get_all_matches_for_query, get_match_for_query, heads, is_eligible,
};
use piranha::spans::{cut, slice_text};
use piranha::syntax::clip;

fn java(source: &str) -> tree_sitter::Tree {
    let mut parser = tree_sitter::Parser::new();
    parser.set_language(tree_sitter_java::language()).unwrap();
    parser.parse(source, None).unwrap()
}

fn query(source: &str) -> tree_sitter::Query {
    tree_sitter::Query::new(tree_sitter_java::language(), source).unwrap()
}

#[test]
fn a_raw_match_stands_on_its_first_capture() {
    let raw = vec![
        (0, vec![(0, 4, 9), (1, 5, 6)]),
        (1, vec![]),
        (0, vec![(1, 20, 30)]),
    ];
    assert_eq!(heads(&raw), vec![Some((4, 9)), None, Some((20, 30))]);
    assert_eq!(heads(&Vec::new()), Vec::new());
}

#[test]
fn ranges_are_counted_as_often_as_they_occur() {
    let starts = vec![Some((1, 5)), None, Some((1, 5)), Some((1, 6)), Some((2, 5))];
    assert_eq!(count(&starts, (1, 5)), 2);
    assert_eq!(count(&starts, (1, 6)), 1);
    assert_eq!(count(&starts, (5, 1)), 0);
    assert_eq!(count(&Vec::new(), (0, 0)), 0);
}

#[test]
fn a_range_is_a_match_where_every_pattern_matched_on_it() {
    let starts = vec![Some((1, 5)), Some((1, 5)), Some((7, 9))];
    assert!(is_eligible(&starts, 2, None, (1, 5)));
    assert!(!is_eligible(&starts, 1, None, (1, 5)));
    assert!(is_eligible(&starts, 1, None, (7, 9)));
    assert!(!is_eligible(&starts, 2, None, (7, 9)));
    assert!(!is_eligible(&starts, 0, None, (3, 4)));
    assert!(is_eligible(&starts, 1, Some((7, 9)), (7, 9)));
    assert!(!is_eligible(&starts, 2, Some((7, 9)), (1, 5)));
}

#[test]
fn a_walk_meets_the_earlier_start_first_and_then_the_longer_range() {
    assert!(comes_before((1, 9), (2, 3)));
    assert!(comes_before((1, 9), (1, 8)));
    assert!(!comes_before((1, 8), (1, 9)));
    assert!(!comes_before((1, 9), (1, 9)));
    assert!(!comes_before((2, 3), (1, 9)));
}

#[test]
fn matches_come_in_walk_order_and_once_each() {
    let starts = vec![
        Some((10, 12)),
        Some((3, 8)),
        None,
        Some((3, 20)),
        Some((10, 12)),
        Some((3, 8)),
        Some((0, 1)),
        Some((0, 1)),
        Some((0, 1)),
    ];
    assert_eq!(eligible_ranges(&starts, 2, None), vec![(3, 8), (10, 12)]);
    assert_eq!(eligible_ranges(&starts, 1, None), vec![(3, 20)]);
    assert_eq!(eligible_ranges(&starts, 3, None), vec![(0, 1)]);
    assert_eq!(eligible_ranges(&starts, 2, Some((10, 12))), vec![(10, 12)]);
    assert_eq!(eligible_ranges(&starts, 2, Some((3, 20))), Vec::new());
    assert_eq!(eligible_ranges(&starts, 4, None), Vec::new());
}

#[test]
fn text_is_cut_between_characters_only() {
    let text = "aé→z";
    assert_eq!(slice_text(text, 0, 1), "a");
    assert_eq!(slice_text(text, 1, 3), "é");
    assert_eq!(slice_text(text, 3, 6), "→");
    assert_eq!(slice_text(text, 0, 7), "aé→z");
    assert_eq!(slice_text(text, 2, 2), "");
    assert_eq!(slice_text(text, 1, 2), "");
    assert_eq!(slice_text(text, 2, 3), "");
    assert_eq!(slice_text(text, 3, 1), "");
    assert_eq!(slice_text(text, 0, 8), "");
    assert_eq!(slice_text(text, 7, 7), "");
}

#[test]
fn a_cut_gives_what_stands_before_in_and_behind_the_range() {
    assert_eq!(cut("aé→z", (1, 3)), Some(("a", "é", "→z")));
    assert_eq!(cut("aé→z", (0, 7)), Some(("", "aé→z", "")));
    assert_eq!(cut("aé→z", (6, 6)), Some(("aé→", "", "z")));
    assert_eq!(cut("", (0, 0)), Some(("", "", "")));
    assert_eq!(cut("aé→z", (2, 3)), None);
    assert_eq!(cut("aé→z", (1, 5)), None);
    assert_eq!(cut("aé→z", (3, 1)), None);
    assert_eq!(cut("aé→z", (0, 8)), None);
}

#[test]
fn bytes_are_clipped_to_what_is_there() {
    let bytes = [1u8, 2, 3, 4];
    assert_eq!(clip(&bytes, 1, 3), &[2u8, 3][..]);
    assert_eq!(clip(&bytes, 0, 4), &bytes[..]);
    assert_eq!(clip(&bytes, 2, 2), &[][..] as &[u8]);
    assert_eq!(clip(&bytes, 3, 2), &[][..] as &[u8]);
    assert_eq!(clip(&bytes, 2, 5), &[][..] as &[u8]);
}

#[test]
fn the_captures_of_a_match_are_those_of_its_raw_matches() {
    let raw = vec![
        (0, vec![(0, 0, 9), (1, 2, 3)]),
        (0, vec![(0, 4, 5), (1, 4, 5)]),
        (1, vec![(0, 0, 9), (2, 6, 8), (1, 8, 9)]),
        (1, vec![]),
    ];
    assert_eq!(gather(&raw, (0, 9)), vec![(0, 0, 9), (1, 2, 3), (0, 0, 9), (2, 6, 8), (1, 8, 9)]);
    assert_eq!(gather(&raw, (4, 5)), vec![(0, 4, 5), (1, 4, 5)]);
    assert_eq!(gather(&raw, (2, 3)), Vec::new());
}

#[test]
fn texts_of_one_capture_are_joined_line_by_line() {
    let text = "0123456789";
    let caps = vec![(0, 0, 9), (1, 2, 3), (0, 0, 9), (2, 6, 8), (1, 8, 9)];
    assert_eq!(capture_text(&caps, 1, text), "2\n8");
    assert_eq!(capture_text(&caps, 2, text), "67");
    assert_eq!(capture_text(&caps, 0, text), "012345678\n012345678");
    assert_eq!(capture_text(&caps, 3, text), "");
    assert_eq!(capture_text(&vec![(0, 5, 5), (0, 7, 8)], 0, text), "\n7");
}

#[test]
fn every_capture_name_is_bound() {
    let raw = vec![(0, vec![(0, 0, 4), (2, 1, 2), (2, 3, 4)])];
    let names = vec![String::from("whole"), String::from("none"), String::from("part")];
    let bound = collect_captures(&raw, &names, "abcd", (0, 4));
    assert_eq!(bound.get(&String::from("whole")), Some(&String::from("abcd")));
    assert_eq!(bound.get(&String::from("none")), Some(&String::new()));
    assert_eq!(bound.get(&String::from("part")), Some(&String::from("b\nd")));
    assert_eq!(bound.get(&String::from("other")), None);
}

const SOURCE: &str = "class A {\n  void m() {\n    foo(1);\n    bar(foo(2));\n  }\n}\n";

#[test]
fn all_matches_come_outermost_and_leftmost_first() {
    let tree = java(SOURCE);
    let calls = query("(method_invocation name: (identifier) @name) @call");
    let found = get_all_matches_for_query(tree.root_node(), SOURCE, &calls, true);
    let texts: Vec<&str> = found.iter().map(|m| &SOURCE[m.start_byte..m.end_byte]).collect();
    assert_eq!(texts, vec!["foo(1)", "bar(foo(2))", "foo(2)"]);
    let names: Vec<&String> =
        found.iter().map(|m| m.captures.get(&String::from("name")).unwrap()).collect();
    assert_eq!(names, vec!["foo", "bar", "foo"]);
    assert_eq!(found[1].captures.get(&String::from("call")), Some(&String::from("bar(foo(2))")));
    assert_eq!(found[0].start_byte, SOURCE.find("foo(1)").unwrap());
    assert_eq!(found[0].end_byte, SOURCE.find("foo(1)").unwrap() + 6);
}

#[test]
fn the_first_match_is_the_first_of_all() {
    let tree = java(SOURCE);
    let named = query("((method_invocation name: (identifier) @name) @call (#eq? @name \"foo\"))");
    let first = get_match_for_query(tree.root_node(), SOURCE, &named, true).unwrap();
    assert_eq!(&SOURCE[first.start_byte..first.end_byte], "foo(1)");
    let none = query("((method_invocation name: (identifier) @name) @call (#eq? @name \"baz\"))");
    assert!(get_match_for_query(tree.root_node(), SOURCE, &none, true).is_none());
}

#[test]
fn without_recursion_only_the_node_itself_counts() {
    let tree = java(SOURCE);
    let calls = query("(method_invocation) @call");
    let root = tree.root_node();
    assert!(get_match_for_query(root, SOURCE, &calls, false).is_none());
    let start = SOURCE.find("bar(").unwrap();
    let outer = root.descendant_for_byte_range(start, start + 11).unwrap();
    assert_eq!(outer.kind(), "method_invocation");
    let found = get_all_matches_for_query(outer, SOURCE, &calls, false);
    assert_eq!(found.len(), 1);
    assert_eq!((found[0].start_byte, found[0].end_byte), (start, start + 11));
    let under = get_all_matches_for_query(outer, SOURCE, &calls, true);
    assert_eq!(under.len(), 2);
}

#[test]
fn every_pattern_of_a_query_has_to_match_on_the_range() {
    let tree = java(SOURCE);
    let both = query(
        "((method_invocation name: (identifier) @name) @call (#eq? @name \"bar\"))\n\
         ((method_invocation arguments: (argument_list (method_invocation) @inner)) @outer)",
    );
    let found = get_all_matches_for_query(tree.root_node(), SOURCE, &both, true);
    assert_eq!(found.len(), 1);
    assert_eq!(&SOURCE[found[0].start_byte..found[0].end_byte], "bar(foo(2))");
    assert_eq!(found[0].captures.get(&String::from("inner")), Some(&String::from("foo(2)")));
    assert_eq!(found[0].captures.get(&String::from("name")), Some(&String::from("bar")));
    let one_only = query(
        "((method_invocation name: (identifier) @name) @call (#eq? @name \"foo\"))\n\
         ((method_invocation arguments: (argument_list (method_invocation) @inner)) @outer)",
    );
    assert!(get_all_matches_for_query(tree.root_node(), SOURCE, &one_only, true).is_empty());
}
