use piranha::source_code_unit::{EditError, SourceCodeUnit};
use piranha::spans::{can_edit, splice};

fn unit(code: &str) -> SourceCodeUnit {
    SourceCodeUnit::new(tree_sitter_java::language(), String::from(code)).unwrap()
}

#[test]
fn a_unit_holds_its_text_and_the_tree_of_it() {
    let unit = unit("class A { int x; }");
    assert_eq!(unit.code(), "class A { int x; }");
    let root = unit.root_node();
    assert_eq!(root.kind(), "program");
    assert_eq!((root.start_byte(), root.end_byte()), (0, 18));
    assert!(root.parent().is_none());
    assert_eq!(root.child(0).unwrap().kind(), "class_declaration");
}

#[test]
fn splicing_replaces_the_bytes_of_the_range() {
    assert_eq!(splice("0123456789", (2, 5), "ab"), Some(String::from("01ab56789")));
    assert_eq!(splice("0123456789", (0, 10), ""), Some(String::new()));
    assert_eq!(splice("0123456789", (10, 10), "!"), Some(String::from("0123456789!")));
    assert_eq!(splice("0123456789", (4, 4), "<>"), Some(String::from("0123<>456789")));
    assert_eq!(splice("aé→z", (1, 6), "-"), Some(String::from("a-z")));
    assert_eq!(splice("", (0, 0), "x"), Some(String::from("x")));
}

#[test]
fn a_range_that_cuts_a_character_cannot_be_replaced() {
    assert_eq!(splice("aé→z", (2, 6), "-"), None);
    assert_eq!(splice("aé→z", (1, 4), "-"), None);
    assert_eq!(splice("abc", (2, 1), "-"), None);
    assert_eq!(splice("abc", (1, 4), "-"), None);
    assert_eq!(splice("abc", (4, 4), "-"), None);
    assert!(can_edit("aé→z", (1, 3)));
    assert!(can_edit("aé→z", (7, 7)));
    assert!(!can_edit("aé→z", (1, 2)));
    assert!(!can_edit("aé→z", (4, 6)));
    assert!(!can_edit("abc", (3, 2)));
    assert!(!can_edit("abc", (0, 4)));
}

#[test]
fn an_edit_changes_the_text_and_the_tree() {
    let mut unit = unit("class A { int x; }");
    assert_eq!(unit.apply_edit((10, 16), "boolean flag;"), Ok(()));
    assert_eq!(unit.code(), "class A { boolean flag; }");
    let root = unit.root_node();
    assert_eq!(root.end_byte(), 25);
    let field = root.descendant_for_byte_range(10, 23).unwrap();
    assert_eq!(field.kind(), "field_declaration");
    assert_eq!(field.child(0).unwrap().kind(), "boolean_type");
}

#[test]
fn an_edit_out_of_bounds_leaves_the_unit_as_it_was() {
    let mut unit = unit("class É { }");
    assert_eq!(unit.apply_edit((7, 9), "x"), Err(EditError::OutOfBounds));
    assert_eq!(unit.apply_edit((5, 3), "x"), Err(EditError::OutOfBounds));
    assert_eq!(unit.apply_edit((0, 40), "x"), Err(EditError::OutOfBounds));
    assert_eq!(unit.code(), "class É { }");
    assert_eq!(unit.root_node().end_byte(), 12);
    assert_eq!(unit.apply_edit((6, 8), "E"), Ok(()));
    assert_eq!(unit.code(), "class E { }");
}
