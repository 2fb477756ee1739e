//! One file under rewriting: its text and the tree parsed from it.

use crate::spans::{editable, edited, splice, Span};
use crate::syntax::{ancestors_of, parse, parsed, root_node, root_of};
use tree_sitter::{Language, Node, Tree};
use vstd::prelude::*;
use vstd::string::*;

verus! {

/// Why an edit was not made.
#[derive(Clone, Copy, PartialEq, Eq, Structural, Debug)]
pub enum EditError {
    /// The range does not cut the text between characters.
    OutOfBounds,
    /// The runtime gave no tree for the edited text.
    ParseFailure,
}

/// The current text of one file and its syntax tree. The tree is always the
/// parse of the text as it stands.
pub struct SourceCodeUnit {
    language: Language,
    code: String,
    tree: Tree,
}

impl SourceCodeUnit {
    /// The tree is the parse of the current text.
    pub open spec fn well_formed(&self) -> bool {
        parsed(self.language(), self.text()) == Some(self.tree())
    }

    /// The language of the file.
    pub closed spec fn language(&self) -> Language {
        self.language
    }

    /// The current text.
    pub closed spec fn text(&self) -> Seq<char> {
        self.code@
    }

    /// The current tree.
    pub closed spec fn tree(&self) -> Tree {
        self.tree
    }

    /// The root of the current tree.
    pub open spec fn root(&self) -> Node {
        root_of(self.tree())
    }

    /// Parses `code` as `language`. There is no unit where the runtime gives
    /// no tree for that language.
    pub fn new(language: Language, code: String) -> (unit: Option<Self>)
        ensures
            unit is Some <==> parsed(language, code@) is Some,
            unit is Some ==> {
                &&& unit.unwrap().well_formed()
                &&& unit.unwrap().language() == language
                &&& unit.unwrap().text() == code@
                &&& Some(unit.unwrap().tree()) == parsed(language, code@)
            },
    {
        match parse(language, code.as_str()) {
            Some(tree) => Some(SourceCodeUnit { language, code, tree }),
            None => None,
        }
    }

    /// The current text.
    pub fn code(&self) -> (code: &str)
        ensures
            code@ == self.text(),
    {
        self.code.as_str()
    }

    /// The root of the current tree. It has no ancestors.
    pub fn root_node(&self) -> (root: Node<'_>)
        ensures
            root == self.root(),
            ancestors_of(root).len() == 0,
    {
        root_node(&self.tree)
    }

    /// Replaces the bytes of `span` by `replacement` and parses the text
    /// anew. Where the edit cannot be made the unit stays as it was.
    pub fn apply_edit(&mut self, span: Span, replacement: &str) -> (done: Result<(), EditError>)
        requires
            old(self).well_formed(),
        ensures
            final(self).well_formed(),
            final(self).language() == old(self).language(),
            match done {
                Ok(_) => {
                    &&& editable(old(self).text(), span)
                    &&& final(self).text() == edited(old(self).text(), span, replacement@)
                },
                Err(EditError::OutOfBounds) => {
                    &&& !editable(old(self).text(), span)
                    &&& *final(self) == *old(self)
                },
                Err(EditError::ParseFailure) => {
                    &&& editable(old(self).text(), span)
                    &&& parsed(
                        old(self).language(),
                        edited(old(self).text(), span, replacement@),
                    ) is None
                    &&& *final(self) == *old(self)
                },
            },
    {
        let code = match splice(self.code.as_str(), span, replacement) {
            Some(code) => code,
            None => {
                return Err(EditError::OutOfBounds);
            },
        };
        match parse(self.language, code.as_str()) {
            Some(tree) => {
                self.code = code;
                self.tree = tree;
                Ok(())
            },
            None => Err(EditError::ParseFailure),
        }
    }
}

} // verus!
