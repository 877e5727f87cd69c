//! Module specifiers.
use vstd::prelude::*;

verus! {

/// What a module specifier stands for.
pub struct SpecifierView {
    /// The URL, as text.
    pub text: Seq<char>,
    /// Whether the URL is a reference to an npm package.
    pub npm: bool,
}

/// The specifier of a module: an absolute URL, already told apart as a
/// reference to an npm package or as any other URL.
#[derive(Debug, PartialEq, Eq)]
pub struct ModuleSpecifier {
    /// The URL, as text.
    pub text: String,
    /// Whether the URL is a reference to an npm package.
    pub npm: bool,
}

impl View for ModuleSpecifier {
    type V = SpecifierView;

    open spec fn view(&self) -> SpecifierView {
        SpecifierView { text: self.text@, npm: self.npm }
    }
}

impl Clone for ModuleSpecifier {
    fn clone(&self) -> (result: Self)
        ensures
            result@ == self@,
    {
        ModuleSpecifier { text: self.text.clone(), npm: self.npm }
    }
}

impl ModuleSpecifier {
    /// The specifier of a module that is not an npm package.
    pub fn url(text: &str) -> (result: Self)
        ensures
            result@ == (SpecifierView { text: text@, npm: false }),
    {
        ModuleSpecifier { text: text.to_owned(), npm: false }
    }

    /// A reference to an npm package.
    pub fn npm_reference(text: &str) -> (result: Self)
        ensures
            result@ == (SpecifierView { text: text@, npm: true }),
    {
        ModuleSpecifier { text: text.to_owned(), npm: true }
    }

    /// Whether both are the same specifier.
    pub fn same(&self, other: &ModuleSpecifier) -> (result: bool)
        ensures
            result == (self@ == other@),
    {
        self.npm == other.npm && self.text == other.text
    }
}

} // verus!
