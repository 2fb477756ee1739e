//! Compiled queries, kept by their text.
//!
//! Rules and constraints name their queries as text, and the same text comes
//! up again and again. The cache compiles each text once for its language
//! and hands the compiled query out by position. It only ever grows: a
//! position, once given, stays good. A text with a character beyond ASCII is
//! no valid query and is never handed to the runtime.

use crate::syntax::{compile, query_of};
use tree_sitter::{Language, Query};
use vstd::prelude::*;
use vstd::string::*;

verus! {

/// The queries compiled so far for one language.
pub struct QueryCache {
    language: Language,
    entries: Vec<(String, Query)>,
}

impl QueryCache {
    /// Every query that the cache holds is what its text compiles to.
    pub closed spec fn well_formed(&self) -> bool {
        forall|i: int|
            0 <= i < self.entries@.len() ==> query_of(self.language, (#[trigger] self.entries@[i]).0@)
                == Some(self.entries@[i].1)
    }

    /// The language that the queries are compiled for.
    pub closed spec fn language(&self) -> Language {
        self.language
    }

    /// How many queries the cache holds.
    pub closed spec fn len(&self) -> nat {
        self.entries@.len()
    }

    /// The text of the query at position `i`.
    pub closed spec fn text_at(&self, i: int) -> Seq<char> {
        self.entries@[i].0@
    }

    /// The compiled query at position `i`.
    pub closed spec fn query_at(&self, i: int) -> Query {
        self.entries@[i].1
    }

    /// Whether `later` holds all that this cache holds, at the same positions.
    pub open spec fn grown_to(&self, later: &QueryCache) -> bool {
        &&& later.language() == self.language()
        &&& self.len() <= later.len()
        &&& forall|i: int|
            0 <= i < self.len() ==> later.text_at(i) == self.text_at(i) && later.query_at(i)
                == self.query_at(i)
    }

    /// The first position at which the cache holds `text`, if it holds it.
    pub open spec fn position_of(&self, text: Seq<char>, from: int) -> Option<int>
        decreases self.len() - from,
    {
        if from < 0 || from >= self.len() {
            None
        } else if self.text_at(from) == text {
            Some(from)
        } else {
            self.position_of(text, from + 1)
        }
    }

    /// An empty cache for `language`.
    pub fn new(language: Language) -> (cache: Self)
        ensures
            cache.well_formed(),
            cache.language() == language,
            cache.len() == 0,
    {
        QueryCache { language, entries: Vec::new() }
    }

    /// The position of the compiled query for `text`, compiling it first where
    /// the cache does not hold it yet. A text that the cache holds is not
    /// compiled again: its position is given and the cache stays as it was. A
    /// text that it does not hold and that compiles is put behind the others.
    /// Fails, and leaves the cache as it was, exactly where `text` is no valid
    /// query: where it holds a character beyond ASCII, or does not compile.
    pub fn position(&mut self, text: &String) -> (at: Option<usize>)
        requires
            old(self).well_formed(),
        ensures
            final(self).well_formed(),
            old(self).grown_to(final(self)),
            at is Some <==> query_of(old(self).language(), text@) is Some,
            at is Some ==> at.unwrap() < final(self).len() && Some(
                final(self).query_at(at.unwrap() as int),
            ) == query_of(old(self).language(), text@),
            match old(self).position_of(text@, 0) {
                Some(held) => at == Some(held as usize) && *final(self) == *old(self),
                None => match at {
                    Some(new) => {
                        &&& new == old(self).len()
                        &&& final(self).len() == old(self).len() + 1
                        &&& final(self).text_at(new as int) == text@
                    },
                    None => *final(self) == *old(self),
                },
            },
    {
        let mut i: usize = 0;
        while i < self.entries.len()
            invariant
                i <= self.entries.len(),
                *self == *old(self),
                self.well_formed(),
                self.position_of(text@, 0) == self.position_of(text@, i as int),
            decreases self.entries.len() - i,
        {
            if self.entries[i].0 == *text {
                return Some(i);
            }
            i = i + 1;
        }
        if !text.as_str().is_ascii() {
            return None;
        }
        let mut source = text.clone();
        source.append("\n");
        proof {
            reveal_strlit("\n");
            assert(source@ =~= text@.push('\n'));
        }
        match compile(self.language, source.as_str()) {
            Ok(query) => {
                let at = self.entries.len();
                self.entries.push((text.clone(), query));
                Some(at)
            },
            Err(_) => None,
        }
    }

    /// The compiled query at position `at`.
    pub fn query(&self, at: usize) -> (query: &Query)
        requires
            at < self.len(),
        ensures
            *query == self.query_at(at as int),
    {
        &self.entries[at].1
    }
}

} // verus!
