//! Tag substitution: templates with named holes, and the bindings that fill
//! them.
//!
//! A template is plain text in which `@name` marks a hole; `name` is the
//! longest run of letters, digits and underscores after the at-sign. `@@`
//! stands for a literal at-sign, and an at-sign followed by anything else is
//! kept as it is. Instantiating a template replaces every hole by the text
//! bound to its name and fails on the first hole, from the left, that has no
//! binding.

use vstd::prelude::*;
use vstd::string::*;

verus! {

/// One stretch of a template: text that is copied, or a hole to be filled.
pub enum Segment {
    Literal(Seq<char>),
    Hole(Seq<char>),
}

/// The characters that a hole's name is made of.
pub open spec fn is_tag_char(c: char) -> bool {
    ('a' <= c && c <= 'z') || ('A' <= c && c <= 'Z') || ('0' <= c && c <= '9') || c == '_'
}

/// How many tag characters stand in `t` from position `from` on, without a gap.
pub open spec fn tag_len(t: Seq<char>, from: int) -> int
    decreases t.len() - from,
{
    if 0 <= from < t.len() && is_tag_char(t[from]) {
        1 + tag_len(t, from + 1)
    } else {
        0
    }
}

/// A run of tag characters is never negative and never runs past the end.
pub proof fn lemma_tag_len_bounds(t: Seq<char>, from: int)
    ensures
        0 <= tag_len(t, from),
        0 <= from ==> from + tag_len(t, from) <= t.len() || tag_len(t, from) == 0,
    decreases t.len() - from,
{
    if 0 <= from < t.len() && is_tag_char(t[from]) {
        lemma_tag_len_bounds(t, from + 1);
    }
}

/// The segments of the template `t`, read from position `from` to its end.
pub open spec fn segments(t: Seq<char>, from: int) -> Seq<Segment>
    decreases t.len() - from,
    via segments_decreases
{
    if from < 0 || from >= t.len() {
        Seq::empty()
    } else if t[from] != '@' {
        seq![Segment::Literal(seq![t[from]])] + segments(t, from + 1)
    } else if from + 1 < t.len() && t[from + 1] == '@' {
        seq![Segment::Literal(seq!['@'])] + segments(t, from + 2)
    } else if tag_len(t, from + 1) <= 0 {
        seq![Segment::Literal(seq!['@'])] + segments(t, from + 1)
    } else {
        seq![Segment::Hole(t.subrange(from + 1, from + 1 + tag_len(t, from + 1)))] + segments(
            t,
            from + 1 + tag_len(t, from + 1),
        )
    }
}

#[via_fn]
proof fn segments_decreases(t: Seq<char>, from: int) {
    lemma_tag_len_bounds(t, from + 1);
}

/// The text that one segment contributes, or the name of its unbound hole.
pub open spec fn segment_text(s: Segment, bindings: Map<Seq<char>, Seq<char>>) -> Result<
    Seq<char>,
    Seq<char>,
> {
    match s {
        Segment::Literal(text) => Ok(text),
        Segment::Hole(name) => if bindings.contains_key(name) {
            Ok(bindings[name])
        } else {
            Err(name)
        },
    }
}

/// `text` put in front of a successful result; a failure stays as it is.
pub open spec fn prepend(text: Seq<char>, rest: Result<Seq<char>, Seq<char>>) -> Result<
    Seq<char>,
    Seq<char>,
> {
    match rest {
        Ok(tail) => Ok(text + tail),
        Err(name) => Err(name),
    }
}

/// The segments' texts in order, or the name of the first hole without a binding.
pub open spec fn instantiate(segs: Seq<Segment>, bindings: Map<Seq<char>, Seq<char>>) -> Result<
    Seq<char>,
    Seq<char>,
>
    decreases segs.len(),
{
    if segs.len() == 0 {
        Ok(Seq::empty())
    } else {
        match segment_text(segs[0], bindings) {
            Ok(head) => prepend(head, instantiate(segs.skip(1), bindings)),
            Err(name) => Err(name),
        }
    }
}

/// What `substitute_tags` returns for a template and a set of bindings.
pub open spec fn expand(t: Seq<char>, bindings: Map<Seq<char>, Seq<char>>) -> Result<
    Seq<char>,
    Seq<char>,
> {
    instantiate(segments(t, 0), bindings)
}

/// The map that a list of bindings stands for: a later entry overrides an
/// earlier one with the same tag.
pub open spec fn bindings_of(entries: Seq<(String, String)>) -> Map<Seq<char>, Seq<char>>
    decreases entries.len(),
{
    if entries.len() == 0 {
        Map::empty()
    } else {
        bindings_of(entries.drop_last()).insert(entries.last().0@, entries.last().1@)
    }
}

/// Bindings from tag names to the text that replaces them.
#[derive(Debug)]
pub struct Substitutions {
    entries: Vec<(String, String)>,
}

impl Substitutions {
    /// The bindings as a map from tag name to bound text.
    pub closed spec fn view(&self) -> Map<Seq<char>, Seq<char>> {
        bindings_of(self.entries@)
    }

    /// No bindings at all.
    pub fn new() -> (s: Self)
        ensures
            s@ == Map::<Seq<char>, Seq<char>>::empty(),
    {
        Substitutions { entries: Vec::new() }
    }

    /// Binds `tag` to `text`, replacing what `tag` was bound to before.
    pub fn insert(&mut self, tag: String, text: String)
        ensures
            final(self)@ == old(self)@.insert(tag@, text@),
    {
        let ghost before = self.entries@;
        self.entries.push((tag, text));
        assert(self.entries@.drop_last() =~= before);
    }

    /// The bindings of `self` and those of `other`; where both bind a tag,
    /// `other` decides.
    pub fn extended_with(&self, other: &Substitutions) -> (both: Substitutions)
        ensures
            both@ == self@.union_prefer_right(other@),
    {
        let mut entries: Vec<(String, String)> = Vec::new();
        let mut i: usize = 0;
        while i < self.entries.len()
            invariant
                i <= self.entries.len(),
                entries@.len() == i,
                bindings_of(entries@) == bindings_of(self.entries@.take(i as int)),
            decreases self.entries.len() - i,
        {
            let ghost before = entries@;
            entries.push((self.entries[i].0.clone(), self.entries[i].1.clone()));
            assert(entries@.drop_last() =~= before);
            assert(self.entries@.take(i + 1).drop_last() =~= self.entries@.take(i as int));
            i = i + 1;
        }
        assert(self.entries@.take(i as int) =~= self.entries@);
        let mut j: usize = 0;
        assert(other.entries@.take(0) =~= Seq::empty());
        assert(self@.union_prefer_right(Map::empty()) =~= self@);
        while j < other.entries.len()
            invariant
                j <= other.entries.len(),
                bindings_of(entries@) == self@.union_prefer_right(
                    bindings_of(other.entries@.take(j as int)),
                ),
            decreases other.entries.len() - j,
        {
            let ghost before = entries@;
            let ghost seen = bindings_of(other.entries@.take(j as int));
            entries.push((other.entries[j].0.clone(), other.entries[j].1.clone()));
            assert(entries@.drop_last() =~= before);
            assert(other.entries@.take(j + 1).drop_last() =~= other.entries@.take(j as int));
            assert(self@.union_prefer_right(seen).insert(
                other.entries@[j as int].0@,
                other.entries@[j as int].1@,
            ) =~= self@.union_prefer_right(
                seen.insert(other.entries@[j as int].0@, other.entries@[j as int].1@),
            ));
            j = j + 1;
        }
        assert(other.entries@.take(j as int) =~= other.entries@);
        Substitutions { entries }
    }

    /// Bindings of their own that bind the same.
    pub fn duplicate(&self) -> (copy: Substitutions)
        ensures
            copy@ == self@,
    {
        let nothing = Substitutions::new();
        let copy = self.extended_with(&nothing);
        assert(self@.union_prefer_right(Map::empty()) =~= self@);
        copy
    }

    /// The text bound to `tag`, if any.
    pub fn get(&self, tag: &String) -> (text: Option<&String>)
        ensures
            text is Some <==> self@.contains_key(tag@),
            text is Some ==> text.unwrap()@ == self@[tag@],
    {
        let mut i: usize = self.entries.len();
        assert(self.entries@.take(i as int) =~= self.entries@);
        while i > 0
            invariant
                i <= self.entries.len(),
                bindings_of(self.entries@).contains_key(tag@) <==> bindings_of(
                    self.entries@.take(i as int),
                ).contains_key(tag@),
                bindings_of(self.entries@).contains_key(tag@) ==> bindings_of(self.entries@)[tag@]
                    == bindings_of(self.entries@.take(i as int))[tag@],
            decreases i,
        {
            let ghost prefix = self.entries@.take(i as int);
            assert(prefix.drop_last() =~= self.entries@.take(i - 1));
            assert(prefix.last() == self.entries@[i - 1]);
            i = i - 1;
            if self.entries[i].0 == *tag {
                return Some(&self.entries[i].1);
            }
        }
        assert(self.entries@.take(0) =~= Seq::<(String, String)>::empty());
        None
    }
}

/// A hole that `substitute_tags` met and that has no binding.
#[derive(Debug, Clone, PartialEq, Eq)]
pub struct UnboundTag {
    pub tag: String,
}

/// The outcome of `substitute_tags`, as sequences of characters.
pub open spec fn outcome_view(r: Result<String, UnboundTag>) -> Result<Seq<char>, Seq<char>> {
    match r {
        Ok(text) => Ok(text@),
        Err(e) => Err(e.tag@),
    }
}

/// Instantiating a segment followed by others: the segment's text, then the rest.
pub proof fn lemma_instantiate_first(
    head: Segment,
    rest: Seq<Segment>,
    bindings: Map<Seq<char>, Seq<char>>,
)
    ensures
        instantiate(seq![head] + rest, bindings) == match segment_text(head, bindings) {
            Ok(text) => prepend(text, instantiate(rest, bindings)),
            Err(name) => Err(name),
        },
{
    let all = seq![head] + rest;
    assert(all[0] == head);
    assert(all.skip(1) =~= rest);
}

/// Putting two texts in front, one after the other, is putting their concatenation in front.
pub proof fn lemma_prepend_twice(a: Seq<char>, b: Seq<char>, rest: Result<Seq<char>, Seq<char>>)
    ensures
        prepend(a, prepend(b, rest)) == prepend(a + b, rest),
{
    match rest {
        Ok(tail) => {
            assert(a + (b + tail) =~= (a + b) + tail);
        },
        Err(_) => {},
    }
}

/// Nothing put in front changes nothing.
pub proof fn lemma_prepend_empty(rest: Result<Seq<char>, Seq<char>>)
    ensures
        prepend(Seq::empty(), rest) == rest,
{
    match rest {
        Ok(tail) => {
            assert(Seq::<char>::empty() + tail =~= tail);
        },
        Err(_) => {},
    }
}

/// Tells whether `c` may stand in a hole's name.
pub fn tag_char(c: char) -> (b: bool)
    ensures
        b == is_tag_char(c),
{
    (c >= 'a' && c <= 'z') || (c >= 'A' && c <= 'Z') || (c >= '0' && c <= '9') || c == '_'
}

/// Fills the holes of `template` from `bindings`.
///
/// Returns the instantiated text, or the name of the leftmost hole that
/// `bindings` does not bind.
pub fn substitute_tags(template: &str, bindings: &Substitutions) -> (r: Result<String, UnboundTag>)
    ensures
        outcome_view(r) == expand(template@, bindings@),
{
    let n = template.unicode_len();
    let mut out = String::new();
    let mut i: usize = 0;
    proof {
        lemma_prepend_empty(expand(template@, bindings@));
    }
    while i < n
        invariant
            i <= n,
            n == template@.len(),
            expand(template@, bindings@) == prepend(
                out@,
                instantiate(segments(template@, i as int), bindings@),
            ),
        decreases n - i,
    {
        let ghost t = template@;
        let ghost rest_now = instantiate(segments(t, i as int), bindings@);
        let c = template.get_char(i);
        if c != '@' {
            let ghost before = out@;
            out.append(template.substring_char(i, i + 1));
            proof {
                assert(t.subrange(i as int, i + 1) =~= seq![t[i as int]]);
                lemma_instantiate_first(
                    Segment::Literal(seq![t[i as int]]),
                    segments(t, i + 1),
                    bindings@,
                );
                lemma_prepend_twice(
                    before,
                    seq![t[i as int]],
                    instantiate(segments(t, i + 1), bindings@),
                );
            }
            i = i + 1;
        } else if i + 1 < n && template.get_char(i + 1) == '@' {
            let ghost before = out@;
            out.append(template.substring_char(i, i + 1));
            proof {
                assert(t.subrange(i as int, i + 1) =~= seq!['@']);
                lemma_instantiate_first(
                    Segment::Literal(seq!['@']),
                    segments(t, i + 2),
                    bindings@,
                );
                lemma_prepend_twice(
                    before,
                    seq!['@'],
                    instantiate(segments(t, i + 2), bindings@),
                );
            }
            i = i + 2;
        } else {
            let mut j: usize = i + 1;
            while j < n && tag_char(template.get_char(j))
                invariant
                    i + 1 <= j <= n,
                    n == template@.len(),
                    tag_len(template@, i + 1) == (j - (i + 1)) + tag_len(template@, j as int),
                decreases n - j,
            {
                j = j + 1;
            }
            assert(tag_len(t, i + 1) == j - (i + 1));
            if j == i + 1 {
                let ghost before = out@;
            out.append(template.substring_char(i, i + 1));
                proof {
                    assert(t.subrange(i as int, i + 1) =~= seq!['@']);
                    lemma_instantiate_first(
                        Segment::Literal(seq!['@']),
                        segments(t, i + 1),
                        bindings@,
                    );
                    lemma_prepend_twice(
                        before,
                        seq!['@'],
                        instantiate(segments(t, i + 1), bindings@),
                    );
                }
                i = i + 1;
            } else {
                let name = String::from_str(template.substring_char(i + 1, j));
                proof {
                    lemma_instantiate_first(
                        Segment::Hole(t.subrange(i + 1, j as int)),
                        segments(t, j as int),
                        bindings@,
                    );
                }
                match bindings.get(&name) {
                    None => {
                        return Err(UnboundTag { tag: name });
                    },
                    Some(text) => {
                        let ghost before = out@;
                        out.append(text.as_str());
                        proof {
                            lemma_prepend_twice(
                                before,
                                text@,
                                instantiate(segments(t, j as int), bindings@),
                            );
                        }
                        i = j;
                    },
                }
            }
        }
    }
    proof {
        assert(out@ + Seq::<char>::empty() =~= out@);
    }
    Ok(out)
}

/// Instantiating segments one list after another: what the first list
/// gives, then what the second gives; the first failure decides.
pub proof fn lemma_instantiate_split(
    front: Seq<Segment>,
    back: Seq<Segment>,
    bindings: Map<Seq<char>, Seq<char>>,
)
    ensures
        instantiate(front + back, bindings) == match instantiate(front, bindings) {
            Ok(text) => prepend(text, instantiate(back, bindings)),
            Err(name) => Err(name),
        },
    decreases front.len(),
{
    if front.len() == 0 {
        assert(front + back =~= back);
        lemma_prepend_empty(instantiate(back, bindings));
    } else {
        let all = front + back;
        assert(all[0] == front[0]);
        assert(all.skip(1) =~= front.skip(1) + back);
        lemma_instantiate_split(front.skip(1), back, bindings);
        match segment_text(front[0], bindings) {
            Ok(head) => {
                match instantiate(front.skip(1), bindings) {
                    Ok(middle) => {
                        lemma_prepend_twice(head, middle, instantiate(back, bindings));
                    },
                    Err(_) => {},
                }
            },
            Err(_) => {},
        }
    }
}

/// In the text that a template gives, the text bound to a hole stands
/// verbatim where the hole stood: right behind what the segments before the
/// hole give.
pub proof fn lemma_bound_text_verbatim(
    template: Seq<char>,
    bindings: Map<Seq<char>, Seq<char>>,
    k: int,
)
    requires
        0 <= k < segments(template, 0).len(),
        segments(template, 0)[k] is Hole,
        expand(template, bindings) is Ok,
    ensures
        ({
            let name = segments(template, 0)[k]->Hole_0;
            let before = instantiate(segments(template, 0).take(k), bindings);
            let out = expand(template, bindings)->Ok_0;
            &&& bindings.contains_key(name)
            &&& before is Ok
            &&& before->Ok_0.len() + bindings[name].len() <= out.len()
            &&& out.subrange(
                before->Ok_0.len() as int,
                (before->Ok_0.len() + bindings[name].len()) as int,
            ) == bindings[name]
        }),
{
    let segs = segments(template, 0);
    let front = segs.take(k);
    let back = segs.skip(k);
    assert(segs =~= front + back);
    lemma_instantiate_split(front, back, bindings);
    let rest = back.skip(1);
    assert(back =~= seq![back[0]] + rest);
    lemma_instantiate_first(back[0], rest, bindings);
    let name = segs[k]->Hole_0;
    let before = instantiate(front, bindings)->Ok_0;
    let after = instantiate(rest, bindings)->Ok_0;
    let out = expand(template, bindings)->Ok_0;
    assert(out =~= before + (bindings[name] + after));
    assert(out.subrange(before.len() as int, (before.len() + bindings[name].len()) as int)
        =~= bindings[name]);
}

} // verus!
