//! The dependencies of a module, in the order of the texts that import them.
use vstd::prelude::*;
use crate::resolution::{Resolved, ResolvedView};
use crate::text::{
    is_text_less, lemma_text_less_irreflexive, lemma_text_less_total, lemma_text_less_transitive,
    text_less,
};

verus! {

/// An optional text as characters.
pub open spec fn optional_text(text: Option<String>) -> Option<Seq<char>> {
    match text {
        Some(t) => Some(t@),
        None => None,
    }
}

/// What a dependency stands for.
pub struct DependencyView {
    pub maybe_code: ResolvedView,
    pub maybe_type: ResolvedView,
    pub is_dynamic: bool,
    pub maybe_assert_type: Option<Seq<char>>,
}

/// What one imported text was resolved to: the code, and the types if they
/// stand elsewhere.
#[derive(Debug, PartialEq, Eq)]
pub struct Dependency {
    pub maybe_code: Resolved,
    pub maybe_type: Resolved,
    /// Whether the module is imported only when the program runs.
    pub is_dynamic: bool,
    pub maybe_assert_type: Option<String>,
}

impl View for Dependency {
    type V = DependencyView;

    open spec fn view(&self) -> DependencyView {
        DependencyView {
            maybe_code: self.maybe_code@,
            maybe_type: self.maybe_type@,
            is_dynamic: self.is_dynamic,
            maybe_assert_type: optional_text(self.maybe_assert_type),
        }
    }
}

impl Clone for Dependency {
    fn clone(&self) -> (result: Self)
        ensures
            result@ == self@,
    {
        let maybe_assert_type = match &self.maybe_assert_type {
            Some(text) => Some(text.clone()),
            None => None,
        };
        Dependency {
            maybe_code: self.maybe_code.clone(),
            maybe_type: self.maybe_type.clone(),
            is_dynamic: self.is_dynamic,
            maybe_assert_type,
        }
    }
}

/// What an import stands for.
pub struct ImportView {
    pub text: Seq<char>,
    pub npm: bool,
    pub dependency: DependencyView,
}

/// A text that a module imports, and what it depends on by that.
#[derive(Debug, PartialEq, Eq)]
pub struct Import {
    /// The text, as the module has it.
    pub text: String,
    /// Whether the text is a reference to an npm package.
    pub npm: bool,
    pub dependency: Dependency,
}

impl View for Import {
    type V = ImportView;

    open spec fn view(&self) -> ImportView {
        ImportView { text: self.text@, npm: self.npm, dependency: self.dependency@ }
    }
}

impl Clone for Import {
    fn clone(&self) -> (result: Self)
        ensures
            result@ == self@,
    {
        Import { text: self.text.clone(), npm: self.npm, dependency: self.dependency.clone() }
    }
}

/// The imports stand in the order of their texts, and no text stands twice.
pub open spec fn in_order(imports: Seq<ImportView>) -> bool {
    forall|i: int, j: int|
        #![trigger imports[i], imports[j]]
        0 <= i < j < imports.len() ==> text_less(imports[i].text, imports[j].text)
}

/// Changing an import but not its text keeps the order.
proof fn lemma_insert_same(imports: Seq<ImportView>, p: int, new: ImportView)
    requires
        in_order(imports),
        0 <= p < imports.len(),
        imports[p].text == new.text,
    ensures
        in_order(imports.update(p, new)),
        forall|x: ImportView|
            #[trigger] imports.update(p, new).contains(x) <==> x == new || (imports.contains(x)
                && x.text != new.text),
{
    let after = imports.update(p, new);
    assert forall|x: ImportView|
        #[trigger] after.contains(x) <==> x == new || (imports.contains(x) && x.text
            != new.text) by {
        assert(after[p] == new);
        if after.contains(x) && x != new {
            let i = choose|i: int| 0 <= i < after.len() && after[i] == x;
            assert(imports[i] == x);
            if i < p {
                assert(text_less(imports[i].text, imports[p].text));
            } else {
                assert(text_less(imports[p].text, imports[i].text));
            }
            lemma_text_less_irreflexive(new.text);
        }
        if imports.contains(x) && x.text != new.text {
            let i = choose|i: int| 0 <= i < imports.len() && imports[i] == x;
            assert(after[i] == x);
        }
    }
}

/// A new import at the first place whose text is not less keeps the order.
proof fn lemma_insert_new(imports: Seq<ImportView>, p: int, new: ImportView)
    requires
        in_order(imports),
        0 <= p <= imports.len(),
        forall|k: int| 0 <= k < p ==> text_less(#[trigger] imports[k].text, new.text),
        p < imports.len() ==> !text_less(imports[p].text, new.text) && imports[p].text != new.text,
    ensures
        in_order(imports.insert(p, new)),
        forall|x: ImportView|
            #[trigger] imports.insert(p, new).contains(x) <==> x == new || (imports.contains(x)
                && x.text != new.text),
{
    let after = imports.insert(p, new);
    if p < imports.len() {
        lemma_text_less_total(new.text, imports[p].text);
    }
    assert forall|k: int| p <= k < imports.len() implies text_less(
        new.text,
        #[trigger] imports[k].text,
    ) by {
        if p < k {
            lemma_text_less_transitive(new.text, imports[p].text, imports[k].text);
        }
    }
    lemma_text_less_irreflexive(new.text);
    assert forall|i: int, j: int|
        #![trigger after[i], after[j]]
        0 <= i < j < after.len() implies text_less(after[i].text, after[j].text) by {
        let old_i = if i < p { i } else { i - 1 };
        let old_j = if j < p { j } else { j - 1 };
        assert(i != p ==> after[i] == imports[old_i]);
        assert(j != p ==> after[j] == imports[old_j]);
    }
    assert forall|x: ImportView|
        #[trigger] after.contains(x) <==> x == new || (imports.contains(x) && x.text
            != new.text) by {
        assert(after[p] == new);
        if after.contains(x) && x != new {
            let i = choose|i: int| 0 <= i < after.len() && after[i] == x;
            let old_i = if i < p { i } else { i - 1 };
            assert(imports[old_i] == x);
        }
        if imports.contains(x) && x.text != new.text {
            let i = choose|i: int| 0 <= i < imports.len() && imports[i] == x;
            let new_i = if i < p { i } else { i + 1 };
            assert(after[new_i] == x);
        }
    }
}

/// The imports of a module, one for each text, in the order of the texts.
#[derive(Debug)]
pub struct Dependencies {
    imports: Vec<Import>,
}

impl View for Dependencies {
    type V = Seq<ImportView>;

    closed spec fn view(&self) -> Seq<ImportView> {
        self.imports@.map_values(|i: Import| i@)
    }
}

impl Clone for Dependencies {
    fn clone(&self) -> (result: Self)
        ensures
            result@ == self@,
    {
        proof {
            use_type_invariant(self);
        }
        let mut imports: Vec<Import> = Vec::new();
        let mut i: usize = 0;
        while i < self.imports.len()
            invariant
                i <= self.imports.len(),
                imports.len() == i,
                forall|k: int| 0 <= k < i ==> #[trigger] imports@[k]@ == self.imports@[k]@,
            decreases self.imports.len() - i,
        {
            imports.push(self.imports[i].clone());
            i = i + 1;
        }
        assert(imports@.map_values(|i: Import| i@) =~= self@);
        Dependencies { imports }
    }
}

impl Dependencies {
    #[verifier::type_invariant]
    spec fn ordered(&self) -> bool {
        in_order(self@)
    }

    /// No imports.
    pub fn new() -> (result: Self)
        ensures
            result@ == Seq::<ImportView>::empty(),
    {
        let result = Dependencies { imports: Vec::new() };
        assert(result@ =~= Seq::<ImportView>::empty());
        result
    }

    /// How many imports there are.
    pub fn len(&self) -> (result: usize)
        ensures
            result == self@.len(),
            in_order(self@),
    {
        proof {
            use_type_invariant(self);
        }
        self.imports.len()
    }

    /// The import at position `i`.
    pub fn import_at(&self, i: usize) -> (result: &Import)
        requires
            i < self@.len(),
        ensures
            result@ == self@[i as int],
    {
        &self.imports[i]
    }

    /// The first position whose text is not less than `text`.
    fn position(&self, text: &str) -> (result: usize)
        ensures
            result <= self@.len(),
            forall|k: int| 0 <= k < result ==> text_less(#[trigger] self@[k].text, text@),
            result < self@.len() ==> !text_less(self@[result as int].text, text@),
    {
        let mut i: usize = 0;
        while i < self.imports.len() && is_text_less(self.imports[i].text.as_str(), text)
            invariant
                i <= self.imports.len(),
                forall|k: int| 0 <= k < i ==> text_less(#[trigger] self@[k].text, text@),
            decreases self.imports.len() - i,
        {
            assert(self@[i as int] == self.imports@[i as int]@);
            i = i + 1;
        }
        if i < self.imports.len() {
            assert(self@[i as int] == self.imports@[i as int]@);
        }
        i
    }

    /// What the import of `text` depends on, if `text` is imported.
    pub fn get(&self, text: &str) -> (result: Option<&Dependency>)
        ensures
            in_order(self@),
            match result {
                Some(dependency) => exists|i: int|
                    0 <= i < self@.len() && (#[trigger] self@[i]).text == text@
                        && self@[i].dependency == dependency@,
                None => forall|i: int|
                    0 <= i < self@.len() ==> (#[trigger] self@[i]).text != text@,
            },
    {
        proof {
            use_type_invariant(self);
        }
        let wanted = text.to_owned();
        let p: usize = self.position(text);
        if p < self.imports.len() && self.imports[p].text == wanted {
            assert(self@[p as int] == self.imports@[p as int]@);
            return Some(&self.imports[p].dependency);
        }
        proof {
            assert forall|i: int| 0 <= i < self@.len() implies (#[trigger] self@[i]).text
                != text@ by {
                lemma_text_less_irreflexive(text@);
                if i >= p {
                    let first = self@[p as int];
                    assert(first == self.imports@[p as int]@);
                    lemma_text_less_total(first.text, text@);
                    if i > p {
                        lemma_text_less_transitive(text@, first.text, self@[i].text);
                    }
                }
            }
        }
        None
    }

    /// Puts `import` in its place, in place of the import of the same text if
    /// there is one.
    pub fn insert(&mut self, import: Import)
        ensures
            in_order(final(self)@),
            forall|x: ImportView|
                #[trigger] final(self)@.contains(x) <==> x == import@ || (old(self)@.contains(x)
                    && x.text != import@.text),
    {
        proof {
            use_type_invariant(&*self);
        }
        let ghost before = self@;
        let ghost new = import@;
        let p = self.position(import.text.as_str());
        let mut taken = Dependencies::new();
        std::mem::swap(self, &mut taken);
        let Dependencies { imports } = taken;
        let mut imports = imports;
        assert(imports@.map_values(|i: Import| i@) == before);
        if p < imports.len() && imports[p].text == import.text {
            imports.set(p, import);
            proof {
                let after = imports@.map_values(|i: Import| i@);
                assert(before[p as int].text == new.text);
                assert(after =~= before.update(p as int, new));
                lemma_insert_same(before, p as int, new);
            }
        } else {
            imports.insert(p, import);
            proof {
                let after = imports@.map_values(|i: Import| i@);
                assert(after =~= before.insert(p as int, new));
                lemma_insert_new(before, p as int, new);
            }
        }
        *self = Dependencies { imports };
    }
}

/// Imports are in order exactly if the text of each comes before the texts of
/// all behind it.
pub proof fn law_in_order(imports: Seq<ImportView>)
    ensures
        in_order(imports) <==> forall|i: int, j: int|
            #![trigger imports[i], imports[j]]
            0 <= i < j < imports.len() ==> text_less(imports[i].text, imports[j].text),
{
}

} // verus!
