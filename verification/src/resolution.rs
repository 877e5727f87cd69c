//! Where an import was written and what it was resolved to.
use vstd::prelude::*;
use vstd::string::*;
use crate::specifier::{ModuleSpecifier, SpecifierView};
use crate::text::{decimal, decimal_text};

verus! {

/// The kinds of modules.
#[derive(Debug, Clone, Copy, PartialEq, Eq, Structural)]
pub enum ModuleKind {
    Asserted,
    BuiltIn,
    Esm,
    External,
    Script,
}

/// A place in a text: line and character, both counted from 0.
#[derive(Debug, Clone, Copy, PartialEq, Eq, Structural)]
pub struct Position {
    pub line: usize,
    pub character: usize,
}

/// What a range stands for.
pub struct RangeView {
    pub specifier: SpecifierView,
    pub start: Position,
    pub end: Position,
}

/// A stretch of a module's text.
#[derive(Debug, PartialEq, Eq)]
pub struct Range {
    pub specifier: ModuleSpecifier,
    pub start: Position,
    pub end: Position,
}

impl View for Range {
    type V = RangeView;

    open spec fn view(&self) -> RangeView {
        RangeView { specifier: self.specifier@, start: self.start, end: self.end }
    }
}

impl Clone for Range {
    fn clone(&self) -> (result: Self)
        ensures
            result@ == self@,
    {
        Range { specifier: self.specifier.clone(), start: self.start, end: self.end }
    }
}

impl RangeView {
    /// How messages show the range: the module, then the line and the character
    /// at which the range starts, counted from 1.
    pub open spec fn shown(self) -> Seq<char> {
        self.specifier.text + ":"@ + decimal((self.start.line + 1) as nat) + ":"@ + decimal(
            (self.start.character + 1) as nat,
        )
    }
}

impl Range {
    /// The range as messages show it.
    pub fn show(&self) -> (result: String)
        ensures
            result@ == self@.shown(),
    {
        let line: u128 = self.start.line as u128 + 1;
        let character: u128 = self.start.character as u128 + 1;
        let mut result = self.specifier.text.clone();
        result.append(":");
        result.append(decimal_text(line).as_str());
        result.append(":");
        result.append(decimal_text(character).as_str());
        result
    }
}

/// What a resolution error stands for.
pub struct ResolutionErrorView {
    pub class: Seq<char>,
    pub message: Seq<char>,
    pub range: RangeView,
}

/// An import that could not be resolved: the class and the message of the
/// error, and where the import was written.
#[derive(Debug, PartialEq, Eq)]
pub struct ResolutionError {
    pub class: String,
    pub message: String,
    pub range: Range,
}

impl View for ResolutionError {
    type V = ResolutionErrorView;

    open spec fn view(&self) -> ResolutionErrorView {
        ResolutionErrorView {
            class: self.class@,
            message: self.message@,
            range: self.range@,
        }
    }
}

impl Clone for ResolutionError {
    fn clone(&self) -> (result: Self)
        ensures
            result@ == self@,
    {
        ResolutionError {
            class: self.class.clone(),
            message: self.message.clone(),
            range: self.range.clone(),
        }
    }
}

/// What a resolution stands for.
pub enum ResolvedView {
    Nothing,
    Found { specifier: SpecifierView, kind: ModuleKind, range: RangeView },
    Failed(ResolutionErrorView),
}

/// What an import was resolved to: nothing, a module, or an error.
#[derive(Debug, PartialEq, Eq)]
pub enum Resolved {
    Nothing,
    Found { specifier: ModuleSpecifier, kind: ModuleKind, range: Range },
    Failed(ResolutionError),
}

impl View for Resolved {
    type V = ResolvedView;

    open spec fn view(&self) -> ResolvedView {
        match self {
            Resolved::Nothing => ResolvedView::Nothing,
            Resolved::Found { specifier, kind, range } => ResolvedView::Found {
                specifier: specifier@,
                kind: *kind,
                range: range@,
            },
            Resolved::Failed(error) => ResolvedView::Failed(error@),
        }
    }
}

impl Clone for Resolved {
    fn clone(&self) -> (result: Self)
        ensures
            result@ == self@,
    {
        match self {
            Resolved::Nothing => Resolved::Nothing,
            Resolved::Found { specifier, kind, range } => Resolved::Found {
                specifier: specifier.clone(),
                kind: *kind,
                range: range.clone(),
            },
            Resolved::Failed(error) => Resolved::Failed(error.clone()),
        }
    }
}

impl ResolvedView {
    /// The import was resolved to the module `specifier`.
    pub open spec fn leads_to(self, specifier: SpecifierView) -> bool {
        self matches ResolvedView::Found { specifier: found, .. } && found == specifier
    }

    /// The error of the resolution, if it is one.
    pub open spec fn error(self) -> Option<ResolutionErrorView> {
        match self {
            ResolvedView::Failed(error) => Some(error),
            _ => None,
        }
    }
}

} // verus!
