use piranha::tags::{substitute_tags, tag_char, Substitutions, UnboundTag};

fn bindings(pairs: &[(&str, &str)]) -> Substitutions {
    let mut bound = Substitutions::new();
    for (tag, text) in pairs {
        bound.insert(String::from(*tag), String::from(*text));
    }
    bound
}

fn unbound(tag: &str) -> Result<String, UnboundTag> {
    Err(UnboundTag { tag: String::from(tag) })
}

#[test]
fn holes_are_replaced_by_their_bound_text() {
    let bound = bindings(&[("flag", "STALE"), ("value", "true")]);
    assert_eq!(
        substitute_tags("if (on(\"@flag\")) return @value;", &bound),
        Ok(String::from("if (on(\"STALE\")) return true;"))
    );
}

#[test]
fn a_template_without_holes_stays_as_it_is() {
    assert_eq!(substitute_tags("plain text", &Substitutions::new()), Ok(String::from("plain text")));
    assert_eq!(substitute_tags("", &Substitutions::new()), Ok(String::new()));
}

#[test]
fn the_longest_name_is_the_hole() {
    let bound = bindings(&[("a", "short"), ("ab", "long")]);
    assert_eq!(substitute_tags("@ab", &bound), Ok(String::from("long")));
    assert_eq!(substitute_tags("@a b", &bound), Ok(String::from("short b")));
    assert_eq!(substitute_tags("@a.b", &bound), Ok(String::from("short.b")));
    assert_eq!(substitute_tags("@a_1", &bound), unbound("a_1"));
}

#[test]
fn a_doubled_at_sign_is_one_at_sign() {
    let bound = bindings(&[("x", "X")]);
    assert_eq!(substitute_tags("(id) @@x", &bound), Ok(String::from("(id) @x")));
    assert_eq!(substitute_tags("@@@x", &bound), Ok(String::from("@X")));
    assert_eq!(substitute_tags("@@", &bound), Ok(String::from("@")));
}

#[test]
fn an_at_sign_before_no_name_is_kept() {
    let bound = bindings(&[("x", "X")]);
    assert_eq!(substitute_tags("a @ b", &bound), Ok(String::from("a @ b")));
    assert_eq!(substitute_tags("end@", &bound), Ok(String::from("end@")));
    assert_eq!(substitute_tags("@-@x", &bound), Ok(String::from("@-X")));
}

#[test]
fn an_unbound_hole_is_an_error_and_the_leftmost_is_named() {
    let bound = bindings(&[("x", "X")]);
    assert_eq!(substitute_tags("@x @y @z", &bound), unbound("y"));
    assert_eq!(substitute_tags("@missing", &Substitutions::new()), unbound("missing"));
}

#[test]
fn bound_text_is_not_read_again() {
    let bound = bindings(&[("x", "@y"), ("y", "Y")]);
    assert_eq!(substitute_tags("@x", &bound), Ok(String::from("@y")));
}

#[test]
fn text_beyond_ascii_passes_through() {
    let bound = bindings(&[("x", "é→")]);
    assert_eq!(substitute_tags("ß@x€", &bound), Ok(String::from("ßé→€")));
    assert_eq!(substitute_tags("@é", &bound), Ok(String::from("@é")));
}

#[test]
fn bound_text_stands_verbatim_behind_what_precedes_the_hole() {
    let bound = bindings(&[("a", "first"), ("b", "second one")]);
    let out = substitute_tags("x@a, y@@@b.", &bound).unwrap();
    let before_a = substitute_tags("x", &bound).unwrap();
    assert_eq!(&out[before_a.len()..before_a.len() + 5], "first");
    let before_b = substitute_tags("x@a, y@@", &bound).unwrap();
    assert_eq!(&out[before_b.len()..before_b.len() + 10], "second one");
    assert_eq!(out, "xfirst, y@second one.");
}

#[test]
fn a_later_binding_replaces_an_earlier_one() {
    let mut bound = bindings(&[("x", "old")]);
    assert_eq!(bound.get(&String::from("x")), Some(&String::from("old")));
    bound.insert(String::from("x"), String::from("new"));
    assert_eq!(bound.get(&String::from("x")), Some(&String::from("new")));
    assert_eq!(bound.get(&String::from("y")), None);
    assert_eq!(substitute_tags("@x", &bound), Ok(String::from("new")));
}

#[test]
fn extending_prefers_the_other_bindings() {
    let ambient = bindings(&[("x", "ambient x"), ("y", "ambient y")]);
    let captured = bindings(&[("y", "captured y"), ("z", "captured z")]);
    let both = ambient.extended_with(&captured);
    assert_eq!(both.get(&String::from("x")), Some(&String::from("ambient x")));
    assert_eq!(both.get(&String::from("y")), Some(&String::from("captured y")));
    assert_eq!(both.get(&String::from("z")), Some(&String::from("captured z")));
    assert_eq!(both.get(&String::from("w")), None);
    let copy = both.duplicate();
    assert_eq!(copy.get(&String::from("y")), Some(&String::from("captured y")));
}

#[test]
fn tag_characters_are_letters_digits_and_underscore() {
    for c in ['a', 'z', 'A', 'Z', '0', '9', '_'] {
        assert!(tag_char(c));
    }
    for c in ['@', '.', '-', ' ', 'é', '{', '/', ':', '[', '`'] {
        assert!(!tag_char(c));
    }
}
