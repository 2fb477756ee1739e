//! From the raw matches of a query run to the matches that the rewriting
//! rules see.
//!
//! A query may hold several patterns. The runtime reports each pattern's
//! match on its own; the first capture of a raw match is the node that the
//! whole pattern stands on. A byte range is a match of the query where every
//! pattern has matched on it, that is where as many raw matches start with
//! that range as the query has patterns. Matches are ordered as a pre-order
//! walk meets them: by where they start, and among those that start together
//! the longest first.

use crate::spans::{slice_text, text_between, Span};
use crate::syntax::{
    byte_range, capture_names, capture_names_of, pattern_count, pattern_count_of, query_matches,
    run_query, span_of, RawMatches,
};
use crate::tags::Substitutions;
use tree_sitter::{Node, Query};
use vstd::prelude::*;
use vstd::string::*;

verus! {

/// The range that a raw match stands on: that of its first capture.
pub open spec fn head_of(m: (usize, Seq<(u32, usize, usize)>)) -> Option<Span> {
    if m.1.len() > 0 {
        Some((m.1[0].1, m.1[0].2))
    } else {
        None
    }
}

/// The ranges that the raw matches stand on, match by match.
pub open spec fn heads_of(raw: RawMatches) -> Seq<Option<Span>> {
    Seq::new(raw.len(), |i: int| head_of(raw[i]))
}

/// How many of `heads` are the range `r`.
pub open spec fn count_of(heads: Seq<Option<Span>>, r: Span) -> nat
    decreases heads.len(),
{
    if heads.len() == 0 {
        0
    } else {
        count_of(heads.drop_last(), r) + if heads.last() == Some(r) {
            1nat
        } else {
            0nat
        }
    }
}

/// Whether `r` is a match of a query with `patterns` patterns: every pattern
/// has matched on `r`, and `r` is the anchor where there is one.
pub open spec fn eligible(
    heads: Seq<Option<Span>>,
    patterns: usize,
    anchor: Option<Span>,
    r: Span,
) -> bool {
    &&& count_of(heads, r) > 0
    &&& count_of(heads, r) == patterns
    &&& (anchor is Some ==> anchor == Some(r))
}

/// Whether a pre-order walk meets `a` before `b`.
pub open spec fn precedes(a: Span, b: Span) -> bool {
    a.0 < b.0 || (a.0 == b.0 && a.1 > b.1)
}

/// A range is counted as often as it occurs: never more than there are heads,
/// and at least once exactly where it occurs.
pub proof fn lemma_count_of(heads: Seq<Option<Span>>, r: Span)
    ensures
        count_of(heads, r) <= heads.len(),
        count_of(heads, r) > 0 <==> exists|i: int| 0 <= i < heads.len() && heads[i] == Some(r),
    decreases heads.len(),
{
    if heads.len() > 0 {
        let front = heads.drop_last();
        lemma_count_of(front, r);
        if count_of(heads, r) > 0 {
            if heads.last() == Some(r) {
                assert(heads[heads.len() - 1] == Some(r));
            } else {
                let i = choose|i: int| 0 <= i < front.len() && front[i] == Some(r);
                assert(heads[i] == Some(r));
            }
        }
        if exists|i: int| 0 <= i < heads.len() && heads[i] == Some(r) {
            let i = choose|i: int| 0 <= i < heads.len() && heads[i] == Some(r);
            if i < heads.len() - 1 {
                assert(front[i] == Some(r));
            }
        }
    }
}

/// The ranges that the raw matches stand on.
pub fn heads(raw: &Vec<(usize, Vec<(u32, usize, usize)>)>) -> (out: Vec<Option<Span>>)
    ensures
        out@ == heads_of(raw.deep_view()),
{
    let mut out: Vec<Option<Span>> = Vec::new();
    let mut i: usize = 0;
    while i < raw.len()
        invariant
            i <= raw.len(),
            out@.len() == i,
            forall|k: int| 0 <= k < i ==> out@[k] == head_of(#[trigger] raw.deep_view()[k]),
        decreases raw.len() - i,
    {
        let captures = &raw[i].1;
        assert(raw.deep_view()[i as int].1 == captures.deep_view());
        if captures.len() > 0 {
            let first = captures[0];
            assert(captures.deep_view()[0] == first);
            out.push(Some((first.1, first.2)));
        } else {
            out.push(None);
        }
        i = i + 1;
    }
    assert(out@ =~= heads_of(raw.deep_view()));
    out
}

/// How many of `heads` are the range `r`.
pub fn count(heads: &Vec<Option<Span>>, r: Span) -> (n: usize)
    ensures
        n == count_of(heads@, r),
{
    let mut n: usize = 0;
    let mut i: usize = 0;
    while i < heads.len()
        invariant
            i <= heads.len(),
            n == count_of(heads@.take(i as int), r),
            n <= i,
        decreases heads.len() - i,
    {
        assert(heads@.take(i + 1).drop_last() =~= heads@.take(i as int));
        match heads[i] {
            Some(h) => {
                if h.0 == r.0 && h.1 == r.1 {
                    n = n + 1;
                }
            },
            None => {},
        }
        i = i + 1;
    }
    assert(heads@.take(i as int) =~= heads@);
    n
}

/// Whether the ranges stand in the order of a pre-order walk, none twice.
pub open spec fn in_walk_order(ranges: Seq<Span>) -> bool {
    forall|i: int, j: int| 0 <= i < j < ranges.len() ==> precedes(ranges[i], ranges[j])
}

/// Whether a pre-order walk meets `a` before `b`.
pub fn comes_before(a: Span, b: Span) -> (yes: bool)
    ensures
        yes == precedes(a, b),
{
    a.0 < b.0 || (a.0 == b.0 && a.1 > b.1)
}

/// Whether `r` is a match of a query with `patterns` patterns.
pub fn is_eligible(heads: &Vec<Option<Span>>, patterns: usize, anchor: Option<Span>, r: Span) -> (yes:
    bool)
    ensures
        yes == eligible(heads@, patterns, anchor, r),
{
    let anchored = match anchor {
        Some(a) => a.0 == r.0 && a.1 == r.1,
        None => true,
    };
    if !anchored {
        return false;
    }
    let n = count(heads, r);
    n > 0 && n == patterns
}

/// The matches of a query among `heads`, in the order of a pre-order walk.
pub fn eligible_ranges(heads: &Vec<Option<Span>>, patterns: usize, anchor: Option<Span>) -> (out:
    Vec<Span>)
    ensures
        in_walk_order(out@),
        forall|q: Span| out@.contains(q) <==> eligible(heads@, patterns, anchor, q),
{
    let mut out: Vec<Span> = Vec::new();
    let mut i: usize = 0;
    while i < heads.len()
        invariant
            i <= heads.len(),
            in_walk_order(out@),
            forall|q: Span| out@.contains(q) ==> eligible(heads@, patterns, anchor, q),
            forall|k: int|
                0 <= k < i && (#[trigger] heads@[k]) is Some && eligible(
                    heads@,
                    patterns,
                    anchor,
                    heads@[k].unwrap(),
                ) ==> out@.contains(heads@[k].unwrap()),
        decreases heads.len() - i,
    {
        match heads[i] {
            Some(h) => {
                let mut p: usize = 0;
                while p < out.len() && comes_before(out[p], h)
                    invariant
                        p <= out.len(),
                        forall|k: int| 0 <= k < p ==> precedes(#[trigger] out@[k], h),
                    decreases out.len() - p,
                {
                    p = p + 1;
                }
                let present = p < out.len() && out[p].0 == h.0 && out[p].1 == h.1;
                if present {
                    assert(out@[p as int] == h);
                } else if is_eligible(heads, patterns, anchor, h) {
                    let ghost before = out@;
                    out.insert(p, h);
                    assert(out@[p as int] == h);
                    assert forall|q: Span| out@.contains(q) implies eligible(
                        heads@,
                        patterns,
                        anchor,
                        q,
                    ) by {
                        let k = choose|k: int| 0 <= k < out@.len() && out@[k] == q;
                        if k < p {
                            assert(before[k] == q);
                            assert(before.contains(q));
                        } else if k > p {
                            assert(before[k - 1] == q);
                            assert(before.contains(q));
                        }
                    }
                    assert forall|a: int, b: int| 0 <= a < b < out@.len() implies precedes(
                        out@[a],
                        out@[b],
                    ) by {
                        if p < before.len() {
                            assert(precedes(h, before[p as int]));
                        }
                        if b < p {
                            assert(out@[a] == before[a] && out@[b] == before[b]);
                        } else if b == p {
                            assert(out@[a] == before[a]);
                        } else if a == p {
                            assert(out@[b] == before[b - 1]);
                            if b - 1 > p {
                                assert(precedes(before[p as int], before[b - 1]));
                            }
                        } else if a < p {
                            assert(out@[a] == before[a] && out@[b] == before[b - 1]);
                        } else {
                            assert(out@[a] == before[a - 1] && out@[b] == before[b - 1]);
                        }
                    }
                    assert forall|k: int|
                        0 <= k < i && (#[trigger] heads@[k]) is Some && eligible(
                            heads@,
                            patterns,
                            anchor,
                            heads@[k].unwrap(),
                        ) implies out@.contains(heads@[k].unwrap()) by {
                        let q = heads@[k].unwrap();
                        let at = choose|at: int| 0 <= at < before.len() && before[at] == q;
                        if at < p {
                            assert(out@[at] == q);
                        } else {
                            assert(out@[at + 1] == q);
                        }
                    }
                }
            },
            None => {},
        }
        i = i + 1;
    }
    assert forall|q: Span| eligible(heads@, patterns, anchor, q) implies out@.contains(q) by {
        lemma_count_of(heads@, q);
        let k = choose|k: int| 0 <= k < heads@.len() && heads@[k] == Some(q);
        assert(heads@[k] is Some);
    }
    out
}

/// Whether `s` lists the matches of a query among `heads`: each once, in the
/// order of a pre-order walk.
pub open spec fn lists_matches(
    s: Seq<Span>,
    heads: Seq<Option<Span>>,
    patterns: usize,
    anchor: Option<Span>,
) -> bool {
    &&& in_walk_order(s)
    &&& forall|q: Span| s.contains(q) <==> eligible(heads, patterns, anchor, q)
}

/// The matches of a query among `heads`, in the order of a pre-order walk.
pub open spec fn ranges_of(heads: Seq<Option<Span>>, patterns: usize, anchor: Option<Span>) -> Seq<
    Span,
> {
    choose|s: Seq<Span>| lists_matches(s, heads, patterns, anchor)
}

/// Two lists in walk order that hold the same ranges are one list.
pub proof fn lemma_walk_order_unique(a: Seq<Span>, b: Seq<Span>)
    requires
        in_walk_order(a),
        in_walk_order(b),
        forall|q: Span| a.contains(q) <==> b.contains(q),
    ensures
        a == b,
    decreases a.len(),
{
    if a.len() == 0 {
        if b.len() > 0 {
            assert(b.contains(b[0]));
        }
        assert(a =~= b);
    } else {
        assert(a.contains(a[0]));
        let j = choose|j: int| 0 <= j < b.len() && b[j] == a[0];
        assert(b.contains(b[0]));
        let i = choose|i: int| 0 <= i < a.len() && a[i] == b[0];
        if i > 0 && j > 0 {
            assert(precedes(a[0], a[i]));
            assert(precedes(b[0], b[j]));
        }
        assert(a[0] == b[0]);
        let a1 = a.skip(1);
        let b1 = b.skip(1);
        assert forall|q: Span| a1.contains(q) <==> b1.contains(q) by {
            if a1.contains(q) {
                let k = choose|k: int| 0 <= k < a1.len() && a1[k] == q;
                assert(a[k + 1] == q);
                assert(precedes(a[0], a[k + 1]));
                assert(a.contains(q));
                let m = choose|m: int| 0 <= m < b.len() && b[m] == q;
                assert(m > 0);
                assert(b1[m - 1] == q);
            }
            if b1.contains(q) {
                let k = choose|k: int| 0 <= k < b1.len() && b1[k] == q;
                assert(b[k + 1] == q);
                assert(precedes(b[0], b[k + 1]));
                assert(b.contains(q));
                let m = choose|m: int| 0 <= m < a.len() && a[m] == q;
                assert(m > 0);
                assert(a1[m - 1] == q);
            }
        }
        assert forall|x: int, y: int| 0 <= x < y < a1.len() implies precedes(a1[x], a1[y]) by {
            assert(a1[x] == a[x + 1] && a1[y] == a[y + 1]);
        }
        assert forall|x: int, y: int| 0 <= x < y < b1.len() implies precedes(b1[x], b1[y]) by {
            assert(b1[x] == b[x + 1] && b1[y] == b[y + 1]);
        }
        lemma_walk_order_unique(a1, b1);
        assert(a =~= seq![a[0]] + a1);
        assert(b =~= seq![b[0]] + b1);
    }
}

/// The captures of the raw matches that stand on `r`, in the order found.
pub open spec fn group_captures(raw: RawMatches, r: Span) -> Seq<(u32, usize, usize)>
    decreases raw.len(),
{
    if raw.len() == 0 {
        Seq::empty()
    } else {
        group_captures(raw.drop_last(), r) + if head_of(raw.last()) == Some(r) {
            raw.last().1
        } else {
            Seq::empty()
        }
    }
}

/// The texts of the captures with index `k`, one per line; none where no
/// capture has that index.
pub open spec fn joined_text(caps: Seq<(u32, usize, usize)>, k: int, text: Seq<char>) -> Option<
    Seq<char>,
>
    decreases caps.len(),
{
    if caps.len() == 0 {
        None
    } else {
        let before = joined_text(caps.drop_last(), k, text);
        let last = caps.last();
        if last.0 == k {
            let piece = text_between(text, last.1, last.2);
            match before {
                Some(lines) => Some(lines + seq!['\n'] + piece),
                None => Some(piece),
            }
        } else {
            before
        }
    }
}

/// The text that capture `k` binds: its captures' texts, one per line, and
/// the empty text where nothing was captured.
pub open spec fn tag_text(caps: Seq<(u32, usize, usize)>, k: int, text: Seq<char>) -> Seq<char> {
    match joined_text(caps, k, text) {
        Some(lines) => lines,
        None => Seq::empty(),
    }
}

/// The bindings of the first `upto` capture names.
pub open spec fn capture_bindings(
    names: Seq<Seq<char>>,
    caps: Seq<(u32, usize, usize)>,
    text: Seq<char>,
    upto: int,
) -> Map<Seq<char>, Seq<char>>
    decreases upto,
{
    if upto <= 0 {
        Map::empty()
    } else {
        capture_bindings(names, caps, text, upto - 1).insert(
            names[upto - 1],
            tag_text(caps, upto - 1, text),
        )
    }
}

/// The captures of the raw matches that stand on `r`, in the order found.
pub fn gather(raw: &Vec<(usize, Vec<(u32, usize, usize)>)>, r: Span) -> (caps: Vec<
    (u32, usize, usize),
>)
    ensures
        caps@ == group_captures(raw.deep_view(), r),
{
    let mut caps: Vec<(u32, usize, usize)> = Vec::new();
    let mut i: usize = 0;
    assert(raw.deep_view().take(0) =~= Seq::empty());
    while i < raw.len()
        invariant
            i <= raw.len(),
            caps@ == group_captures(raw.deep_view().take(i as int), r),
        decreases raw.len() - i,
    {
        let ghost all = raw.deep_view();
        let ghost done = caps@;
        assert(all.take(i + 1).drop_last() =~= all.take(i as int));
        assert(all.take(i + 1).last() == all[i as int]);
        let captures = &raw[i].1;
        assert(all[i as int].1 =~= captures@);
        let on_r = captures.len() > 0 && captures[0].1 == r.0 && captures[0].2 == r.1;
        if on_r {
            let mut j: usize = 0;
            while j < captures.len()
                invariant
                    j <= captures.len(),
                    caps@ == done + captures@.take(j as int),
                decreases captures.len() - j,
            {
                caps.push(captures[j]);
                assert(captures@.take(j + 1) =~= captures@.take(j as int).push(captures@[j as int]));
                j = j + 1;
            }
            assert(captures@.take(j as int) =~= captures@);
        } else {
            assert(caps@ + Seq::<(u32, usize, usize)>::empty() =~= caps@);
        }
        i = i + 1;
    }
    assert(raw.deep_view().take(i as int) =~= raw.deep_view());
    caps
}

/// The text that capture `k` binds.
pub fn capture_text(caps: &Vec<(u32, usize, usize)>, k: usize, text: &str) -> (out: String)
    ensures
        out@ == tag_text(caps@, k as int, text@),
{
    let mut out = String::new();
    let mut any = false;
    let mut i: usize = 0;
    assert(caps@.take(0) =~= Seq::empty());
    while i < caps.len()
        invariant
            i <= caps.len(),
            !any ==> out@ == Seq::<char>::empty(),
            joined_text(caps@.take(i as int), k as int, text@) == if any {
                Some(out@)
            } else {
                None
            },
        decreases caps.len() - i,
    {
        assert(caps@.take(i + 1).drop_last() =~= caps@.take(i as int));
        assert(caps@.take(i + 1).last() == caps@[i as int]);
        let c = caps[i];
        if c.0 as usize == k {
            let piece = slice_text(text, c.1, c.2);
            if any {
                proof {
                    reveal_strlit("\n");
                    assert("\n"@ =~= seq!['\n']);
                }
                out.append("\n");
            } else {
                proof {
                    assert(Seq::<char>::empty() + piece@ =~= piece@);
                }
            }
            out.append(piece);
            any = true;
        }
        i = i + 1;
    }
    assert(caps@.take(i as int) =~= caps@);
    out
}

/// The bindings that the match on `r` gives: one for each capture name.
pub fn collect_captures(
    raw: &Vec<(usize, Vec<(u32, usize, usize)>)>,
    names: &Vec<String>,
    text: &str,
    r: Span,
) -> (bound: Substitutions)
    ensures
        bound@ == capture_bindings(
            names.deep_view(),
            group_captures(raw.deep_view(), r),
            text@,
            names.len() as int,
        ),
{
    let caps = gather(raw, r);
    let mut bound = Substitutions::new();
    let mut k: usize = 0;
    while k < names.len()
        invariant
            k <= names.len(),
            bound@ == capture_bindings(names.deep_view(), caps@, text@, k as int),
        decreases names.len() - k,
    {
        let value = capture_text(&caps, k, text);
        let name = names[k].clone();
        assert(names.deep_view()[k as int] == name@);
        bound.insert(name, value);
        k = k + 1;
    }
    bound
}

/// One match of a query: the byte range it stands on, and for each capture
/// name of the query the text it captured.
#[derive(Debug)]
pub struct Match {
    pub start_byte: usize,
    pub end_byte: usize,
    pub captures: Substitutions,
}

/// A match as plain values: its range and its bindings.
pub type MatchView = (Span, Map<Seq<char>, Seq<char>>);

impl Match {
    /// The match's range and bindings.
    pub open spec fn view(&self) -> MatchView {
        ((self.start_byte, self.end_byte), self.captures@)
    }
}

/// The matches as plain values, one by one.
pub open spec fn views(found: Seq<Match>) -> Seq<MatchView> {
    Seq::new(found.len(), |i: int| found[i]@)
}

/// The match that stands on `r`.
pub open spec fn match_on(raw: RawMatches, names: Seq<Seq<char>>, text: Seq<char>, r: Span) -> MatchView {
    (r, capture_bindings(names, group_captures(raw, r), text, names.len() as int))
}

/// The matches of a query, from what its run reported: in the order of a
/// pre-order walk, each with its bindings. With an anchor, only a match that
/// stands on the anchor counts.
pub open spec fn matches_in(
    raw: RawMatches,
    patterns: usize,
    names: Seq<Seq<char>>,
    text: Seq<char>,
    anchor: Option<Span>,
) -> Seq<MatchView> {
    let ranges = ranges_of(heads_of(raw), patterns, anchor);
    Seq::new(ranges.len(), |i: int| match_on(raw, names, text, ranges[i]))
}

/// The matches of `query` at `node`: anywhere under it where `recursive`,
/// else on `node` itself only.
pub open spec fn matches_at(query: Query, node: Node, text: Seq<char>, recursive: bool) -> Seq<
    MatchView,
> {
    matches_in(
        query_matches(query, node, text),
        pattern_count_of(query),
        capture_names_of(query),
        text,
        if recursive {
            None
        } else {
            Some(span_of(node))
        },
    )
}

/// The first match of `query` at `node`, if there is any.
pub open spec fn first_match_at(query: Query, node: Node, text: Seq<char>, recursive: bool) -> Option<
    MatchView,
> {
    let found = matches_at(query, node, text, recursive);
    if found.len() > 0 {
        Some(found[0])
    } else {
        None
    }
}

/// The ranges that `eligible_ranges` returns are the matches' ranges.
pub proof fn lemma_ranges_of(
    s: Seq<Span>,
    heads: Seq<Option<Span>>,
    patterns: usize,
    anchor: Option<Span>,
)
    requires
        lists_matches(s, heads, patterns, anchor),
    ensures
        s == ranges_of(heads, patterns, anchor),
{
    let t = ranges_of(heads, patterns, anchor);
    assert(lists_matches(t, heads, patterns, anchor));
    lemma_walk_order_unique(s, t);
}

/// All matches of `query` at `node`, outermost and leftmost first.
pub fn get_all_matches_for_query(node: Node, source_code: &str, query: &Query, recursive: bool) -> (found:
    Vec<Match>)
    ensures
        views(found@) == matches_at(*query, node, source_code@, recursive),
{
    let raw = run_query(query, node, source_code);
    let patterns = pattern_count(query);
    let names = capture_names(query);
    let anchor = if recursive {
        None
    } else {
        Some(byte_range(node))
    };
    let starts = heads(&raw);
    let ranges = eligible_ranges(&starts, patterns, anchor);
    proof {
        lemma_ranges_of(ranges@, starts@, patterns, anchor);
    }
    let mut found: Vec<Match> = Vec::new();
    let mut i: usize = 0;
    while i < ranges.len()
        invariant
            i <= ranges.len(),
            found@.len() == i,
            forall|k: int|
                0 <= k < i ==> (#[trigger] found@[k])@ == match_on(
                    raw.deep_view(),
                    names.deep_view(),
                    source_code@,
                    ranges@[k],
                ),
        decreases ranges.len() - i,
    {
        let r = ranges[i];
        let captures = collect_captures(&raw, &names, source_code, r);
        found.push(Match { start_byte: r.0, end_byte: r.1, captures });
        i = i + 1;
    }
    assert(views(found@) =~= matches_at(*query, node, source_code@, recursive));
    found
}

/// The first match of `query` at `node`, outermost and leftmost, if any.
pub fn get_match_for_query(node: Node, source_code: &str, query: &Query, recursive: bool) -> (found:
    Option<Match>)
    ensures
        match found {
            Some(m) => first_match_at(*query, node, source_code@, recursive) == Some(m@),
            None => first_match_at(*query, node, source_code@, recursive) is None,
        },
{
    let raw = run_query(query, node, source_code);
    let patterns = pattern_count(query);
    let names = capture_names(query);
    let anchor = if recursive {
        None
    } else {
        Some(byte_range(node))
    };
    let starts = heads(&raw);
    let ranges = eligible_ranges(&starts, patterns, anchor);
    proof {
        lemma_ranges_of(ranges@, starts@, patterns, anchor);
    }
    if ranges.len() > 0 {
        let r = ranges[0];
        let captures = collect_captures(&raw, &names, source_code, r);
        Some(Match { start_byte: r.0, end_byte: r.1, captures })
    } else {
        None
    }
}

} // verus!
