//! What is known of the modules of many graphs.
use vstd::prelude::*;
use crate::addition::{Known, add_entry, names_npm_package, note_configurations};
use crate::check::{CheckError, CheckErrorView, check_entry};
use crate::dependency::{Dependencies, ImportView};
use crate::module_graph::{
    GraphImport, GraphImportView, MediaType, ModuleGraph, ModuleGraphError, ModuleGraphErrorView,
    NpmPackageReq, graph_imports, redirect_views, requirements, root_views,
};
use crate::resolution::{ModuleKind, Range, RangeView, Resolved, ResolvedView};
use crate::specifier::{ModuleSpecifier, SpecifierView};
use crate::specifier_map::SpecifierMap;
use crate::walk::{Walk, walk_modules};

verus! {

/// The libraries of types against which modules are checked.
#[derive(Debug, Clone, Copy, PartialEq, Eq, Structural)]
pub enum TsTypeLib {
    DenoWindow,
    DenoWorker,
}

/// The libraries with which a module has passed a type check.
#[derive(Debug, Clone, Copy, PartialEq, Eq)]
pub struct CheckedLibs {
    window: bool,
    worker: bool,
}

impl View for CheckedLibs {
    type V = Set<TsTypeLib>;

    closed spec fn view(&self) -> Set<TsTypeLib> {
        Set::new(
            |lib: TsTypeLib|
                match lib {
                    TsTypeLib::DenoWindow => self.window,
                    TsTypeLib::DenoWorker => self.worker,
                },
        )
    }
}

impl CheckedLibs {
    /// No library.
    pub fn new() -> (result: Self)
        ensures
            result@ == Set::<TsTypeLib>::empty(),
    {
        let result = CheckedLibs { window: false, worker: false };
        assert(result@ =~= Set::<TsTypeLib>::empty());
        result
    }

    /// Whether `lib` is one of them.
    pub fn contains(&self, lib: &TsTypeLib) -> (result: bool)
        ensures
            result == self@.contains(*lib),
    {
        match lib {
            TsTypeLib::DenoWindow => self.window,
            TsTypeLib::DenoWorker => self.worker,
        }
    }

    /// These libraries and `lib`.
    pub fn with(self, lib: TsTypeLib) -> (result: Self)
        ensures
            result@ == self@.insert(lib),
    {
        let result = match lib {
            TsTypeLib::DenoWindow => CheckedLibs { window: true, worker: self.worker },
            TsTypeLib::DenoWorker => CheckedLibs { window: self.window, worker: true },
        };
        assert(result@ =~= self@.insert(lib));
        result
    }
}

/// What an entry stands for.
pub enum ModuleEntryView {
    Module {
        code: Seq<char>,
        dependencies: Seq<ImportView>,
        media_type: MediaType,
        checked_libs: Set<TsTypeLib>,
        maybe_types: Option<ResolvedView>,
    },
    Error(ModuleGraphErrorView),
    Redirect(SpecifierView),
}

/// What is known of a specifier: the module, the error with which it failed to
/// load, or the specifier it was redirected to.
#[derive(Debug)]
pub enum ModuleEntry {
    Module {
        code: String,
        dependencies: Dependencies,
        media_type: MediaType,
        /// The libraries with which the module has passed a type check this
        /// session: window, worker or both.
        checked_libs: CheckedLibs,
        maybe_types: Option<Resolved>,
    },
    Error(ModuleGraphError),
    Redirect(ModuleSpecifier),
}

/// An optional resolution by what it stands for.
pub open spec fn optional_resolved(resolved: Option<Resolved>) -> Option<ResolvedView> {
    match resolved {
        Some(r) => Some(r@),
        None => None,
    }
}

impl View for ModuleEntry {
    type V = ModuleEntryView;

    open spec fn view(&self) -> ModuleEntryView {
        match self {
            ModuleEntry::Module { code, dependencies, media_type, checked_libs, maybe_types } =>
                ModuleEntryView::Module {
                    code: code@,
                    dependencies: dependencies@,
                    media_type: *media_type,
                    checked_libs: checked_libs@,
                    maybe_types: optional_resolved(*maybe_types),
                },
            ModuleEntry::Error(error) => ModuleEntryView::Error(error@),
            ModuleEntry::Redirect(specifier) => ModuleEntryView::Redirect(specifier@),
        }
    }
}

impl Clone for ModuleEntry {
    fn clone(&self) -> (result: Self)
        ensures
            result@ == self@,
    {
        match self {
            ModuleEntry::Module { code, dependencies, media_type, checked_libs, maybe_types } => {
                let maybe_types = match maybe_types {
                    Some(types) => Some(types.clone()),
                    None => None,
                };
                ModuleEntry::Module {
                    code: code.clone(),
                    dependencies: dependencies.clone(),
                    media_type: *media_type,
                    checked_libs: *checked_libs,
                    maybe_types,
                }
            },
            ModuleEntry::Error(error) => ModuleEntry::Error(error.clone()),
            ModuleEntry::Redirect(specifier) => ModuleEntry::Redirect(specifier.clone()),
        }
    }
}

/// The entries of `modules` by what they stand for.
pub open spec fn entry_views(modules: Map<SpecifierView, ModuleEntry>) -> Map<
    SpecifierView,
    ModuleEntryView,
> {
    modules.map_values(|e: ModuleEntry| e@)
}

/// The ranges of `referrers` by what they stand for.
pub open spec fn range_views(referrers: Map<SpecifierView, Range>) -> Map<
    SpecifierView,
    RangeView,
> {
    referrers.map_values(|r: Range| r@)
}

/// What the data stands for.
#[verifier::ext_equal]
pub struct GraphDataView {
    pub modules: Map<SpecifierView, ModuleEntryView>,
    pub npm_packages: Seq<Seq<char>>,
    pub referrer_map: Map<SpecifierView, RangeView>,
    pub graph_imports: Seq<GraphImportView>,
    pub cjs_esm_translations: Map<SpecifierView, Seq<char>>,
}

/// Composes data from potentially many module graphs.
pub struct GraphData {
    pub(crate) modules: SpecifierMap<ModuleEntry>,
    pub(crate) npm_packages: Vec<NpmPackageReq>,
    /// The first known referrer location of each module. Used to enhance
    /// error messages.
    pub(crate) referrer_map: SpecifierMap<Range>,
    pub(crate) graph_imports: Vec<GraphImport>,
    pub(crate) cjs_esm_translations: SpecifierMap<String>,
}

impl View for GraphData {
    type V = GraphDataView;

    closed spec fn view(&self) -> GraphDataView {
        GraphDataView {
            modules: entry_views(self.modules@),
            npm_packages: requirements(self.npm_packages@),
            referrer_map: range_views(self.referrer_map@),
            graph_imports: graph_imports(self.graph_imports@),
            cjs_esm_translations: self.cjs_esm_translations@.map_values(|t: String| t@),
        }
    }
}

impl GraphDataView {
    /// No entry is held for a reference to an npm package.
    pub open spec fn valid(self) -> bool {
        forall|s: SpecifierView| #[trigger] self.modules.contains_key(s) ==> !s.npm
    }

    /// Nothing is known.
    pub open spec fn empty() -> GraphDataView {
        GraphDataView {
            modules: Map::empty(),
            npm_packages: Seq::empty(),
            referrer_map: Map::empty(),
            graph_imports: Seq::empty(),
            cjs_esm_translations: Map::empty(),
        }
    }
}

impl Default for GraphData {
    fn default() -> (result: Self)
        ensures
            result@ == GraphDataView::empty(),
    {
        let result = GraphData {
            modules: SpecifierMap::new(),
            npm_packages: Vec::new(),
            referrer_map: SpecifierMap::new(),
            graph_imports: Vec::new(),
            cjs_esm_translations: SpecifierMap::new(),
        };
        assert(result@ =~= GraphDataView::empty());
        result
    }
}

impl GraphDataView {
    /// The walk over these modules from `roots`.
    pub open spec fn walk(
        self,
        roots: Seq<(SpecifierView, ModuleKind)>,
        follow_dynamic: bool,
        follow_type_only: bool,
        check_js: bool,
    ) -> Walk {
        Walk {
            modules: self.modules,
            imports: self.graph_imports,
            roots,
            follow_dynamic,
            follow_type_only,
            check_js,
        }
    }
}

/// Entries that a walk has found by what they stand for.
pub open spec fn found_views(found: Map<SpecifierView, &ModuleEntry>) -> Map<
    SpecifierView,
    ModuleEntryView,
> {
    found.map_values(|e: &ModuleEntry| e@)
}

impl GraphDataView {
    /// The part that holds only the modules to which a walk comes from `roots`
    /// that follows everything; nothing if one of them is not known.
    pub open spec fn segment(self, roots: Seq<(SpecifierView, ModuleKind)>) -> Option<
        GraphDataView,
    > {
        match self.walk(roots, true, true, true).outcome() {
            Some(modules) => Some(
                GraphDataView {
                    modules,
                    npm_packages: self.npm_packages,
                    referrer_map: self.referrer_map.restrict(modules.dom()),
                    graph_imports: self.graph_imports,
                    cjs_esm_translations: Map::empty(),
                },
            ),
            None => None,
        }
    }
}

/// What a check returned by what it stands for.
pub open spec fn check_result(result: Option<Result<(), CheckError>>) -> Option<
    Result<(), CheckErrorView>,
> {
    match result {
        Some(Ok(_)) => Some(Ok(())),
        Some(Err(error)) => Some(Err(error@)),
        None => None,
    }
}

impl GraphDataView {
    /// What a check of `walk` reports for the module `specifier`.
    pub open spec fn failure(self, walk: Walk, specifier: SpecifierView) -> Option<
        CheckErrorView,
    > {
        walk.entry_failure(self.referrer_map, specifier, self.modules[specifier])
    }

    /// `result` is what a check from `roots` may return: nothing if a module is
    /// not known, success if no module that the walk comes to fails, else what
    /// it reports for one that does.
    pub open spec fn checked(
        self,
        roots: Seq<(SpecifierView, ModuleKind)>,
        follow_type_only: bool,
        check_js: bool,
        result: Option<Result<(), CheckErrorView>>,
    ) -> bool {
        let walk = self.walk(roots, false, follow_type_only, check_js);
        match result {
            None => !walk.complete(),
            Some(Ok(_)) => walk.complete() && forall|s: SpecifierView| #[trigger]
                walk.visits(s) ==> self.failure(walk, s) is None,
            Some(Err(error)) => walk.complete() && exists|s: SpecifierView| #[trigger]
                walk.visits(s) && self.failure(walk, s) == Some(error),
        }
    }

    /// The data with the modules marked as checked under `lib` to which a walk
    /// comes from `roots` that follows everything.
    pub open spec fn with_checked(
        self,
        roots: Seq<(SpecifierView, ModuleKind)>,
        lib: TsTypeLib,
    ) -> GraphDataView {
        let walk = self.walk(roots, true, true, true);
        GraphDataView {
            modules: Map::new(
                |s: SpecifierView| self.modules.contains_key(s),
                |s: SpecifierView|
                    if walk.visits(s) {
                        self.modules[s].with_lib(lib)
                    } else {
                        self.modules[s]
                    },
            ),
            ..self
        }
    }
}

impl ModuleEntryView {
    /// The entry with a module marked as checked under `lib`.
    pub open spec fn with_lib(self, lib: TsTypeLib) -> ModuleEntryView {
        match self {
            ModuleEntryView::Module { code, dependencies, media_type, checked_libs, maybe_types } =>
                ModuleEntryView::Module {
                    code,
                    dependencies,
                    media_type,
                    checked_libs: checked_libs.insert(lib),
                    maybe_types,
                },
            _ => self,
        }
    }

    /// A second mark under the same library changes nothing.
    pub proof fn lemma_with_lib_twice(self, lib: TsTypeLib)
        ensures
            self.with_lib(lib).with_lib(lib) == self.with_lib(lib),
    {
        if let ModuleEntryView::Module { checked_libs, .. } = self {
            assert(checked_libs.insert(lib).insert(lib) =~= checked_libs.insert(lib));
        }
    }
}

impl ModuleEntry {
    /// The entry with a module marked as checked under `lib`.
    fn marked(self, lib: TsTypeLib) -> (result: Self)
        ensures
            result@ == self@.with_lib(lib),
    {
        match self {
            ModuleEntry::Module { code, dependencies, media_type, checked_libs, maybe_types } =>
                ModuleEntry::Module {
                    code,
                    dependencies,
                    media_type,
                    checked_libs: checked_libs.with(lib),
                    maybe_types,
                },
            ModuleEntry::Error(error) => ModuleEntry::Error(error),
            ModuleEntry::Redirect(specifier) => ModuleEntry::Redirect(specifier),
        }
    }
}

/// `specifier` is among the first `n` of `specifiers`.
spec fn named(specifiers: Seq<ModuleSpecifier>, n: int, specifier: SpecifierView) -> bool {
    exists|k: int| 0 <= k < n && (#[trigger] specifiers[k])@ == specifier
}

/// The dependencies that the first of `imports` with this referrer imports.
pub open spec fn imported_by(imports: Seq<GraphImportView>, referrer: SpecifierView) -> Option<
    Seq<ImportView>,
>
    decreases imports.len(),
{
    if imports.len() == 0 {
        None
    } else if imports[0].referrer == referrer {
        Some(imports[0].dependencies)
    } else {
        imported_by(imports.drop_first(), referrer)
    }
}

impl GraphDataView {
    /// The specifier to which `specifier` was redirected, else itself.
    pub open spec fn followed(self, specifier: SpecifierView) -> SpecifierView {
        if self.modules.contains_key(specifier) && self.modules[specifier] is Redirect {
            self.modules[specifier]->Redirect_0
        } else {
            specifier
        }
    }

    /// `specifier` is a known module.
    pub open spec fn has_module(self, specifier: SpecifierView) -> bool {
        self.modules.contains_key(specifier) && self.modules[specifier] is Module
    }

    /// `specifier` is a module marked as checked under `lib`.
    pub open spec fn passed(self, specifier: SpecifierView, lib: TsTypeLib) -> bool {
        self.has_module(specifier) && self.modules[specifier]->checked_libs.contains(lib)
    }

    /// All of `roots`, where they are redirected to, are marked as checked under
    /// `lib`.
    pub open spec fn type_checked(
        self,
        roots: Seq<(SpecifierView, ModuleKind)>,
        lib: TsTypeLib,
    ) -> bool {
        forall|i: int|
            0 <= i < roots.len() ==> self.passed(self.followed((#[trigger] roots[i]).0), lib)
    }

    /// The dependencies of the module, or of the configuration, to which
    /// `specifier` leads.
    pub open spec fn dependencies_of(self, specifier: SpecifierView) -> Option<Seq<ImportView>> {
        let found = self.followed(specifier);
        if self.has_module(found) {
            Some(self.modules[found]->dependencies)
        } else {
            imported_by(self.graph_imports, found)
        }
    }
}

impl GraphData {
    /// Store data from `graph` into `self`.
    pub fn add_graph(&mut self, graph: &ModuleGraph, reload: bool)
        ensures
            final(self)@ == old(self)@.with_graph(graph@, reload),
    {
        note_configurations(&mut self.referrer_map, &graph.imports);
        append_imports(&mut self.graph_imports, &graph.imports);
        let mut has_npm_specifier_in_graph = false;
        let ghost before = Known {
            modules: entry_views(self.modules@),
            referrers: range_views(self.referrer_map@),
        };
        let ghost all = graph@.specifiers;
        let ghost redirects = graph@.redirects;
        let ghost graph_imports_after = self.graph_imports@;
        let mut i: usize = 0;
        assert(all.take(0) =~= Seq::empty());
        while i < graph.specifiers.len()
            invariant
                i <= graph.specifiers@.len(),
                all == graph@.specifiers,
                redirects == redirect_views(graph.redirects@),
                self.graph_imports@ == graph_imports_after,
                self.npm_packages@ == old(self).npm_packages@,
                self.cjs_esm_translations@ == old(self).cjs_esm_translations@,
                has_npm_specifier_in_graph == names_npm_package(all.take(i as int)),
                (Known {
                    modules: entry_views(self.modules@),
                    referrers: range_views(self.referrer_map@),
                }) == before.with_entries(redirects, all.take(i as int), reload),
            decreases graph.specifiers.len() - i,
        {
            let entry = &graph.specifiers[i];
            proof {
                let shorter = all.take(i as int);
                let longer = all.take(i + 1);
                assert(longer.drop_last() =~= shorter);
                assert(longer.last() == entry@);
                if names_npm_package(shorter) {
                    let k = choose|k: int|
                        0 <= k < shorter.len() && (#[trigger] shorter[k]).specifier.npm;
                    assert(longer[k].specifier.npm);
                }
                if entry@.specifier.npm {
                    assert(longer[i as int].specifier.npm);
                }
                if names_npm_package(longer) && !entry@.specifier.npm {
                    let k = choose|k: int|
                        0 <= k < longer.len() && (#[trigger] longer[k]).specifier.npm;
                    assert(shorter[k].specifier.npm);
                }
            }
            if entry.specifier.npm {
                has_npm_specifier_in_graph = true;
            }
            add_entry(
                &mut self.modules,
                &mut self.referrer_map,
                &graph.redirects,
                entry,
                reload,
            );
            i = i + 1;
        }
        assert(all.take(all.len() as int) =~= all);
        if has_npm_specifier_in_graph {
            append_requirements(&mut self.npm_packages, &graph.npm_package_reqs);
        }
        assert(self@ =~= old(self)@.with_graph(graph@, reload));
    }

    /// Every specifier of which something is known, with what is known.
    pub fn entries(&self) -> (result: Vec<(&ModuleSpecifier, &ModuleEntry)>)
        ensures
            forall|i: int|
                #![trigger result@[i]]
                0 <= i < result@.len() ==> {
                    &&& self@.modules.contains_key(result@[i].0@)
                    &&& self@.modules[result@[i].0@] == result@[i].1@
                },
            forall|i: int, j: int|
                #![trigger result@[i], result@[j]]
                0 <= i < j < result@.len() ==> result@[i].0@ != result@[j].0@,
            forall|s: SpecifierView| #[trigger]
                self@.modules.contains_key(s) ==> exists|i: int|
                    0 <= i < result@.len() && (#[trigger] result@[i]).0@ == s,
    {
        let mut result: Vec<(&ModuleSpecifier, &ModuleEntry)> = Vec::new();
        let n = self.modules.len();
        let mut i: usize = 0;
        while i < n
            invariant
                n == self.modules.order().len(),
                i <= n,
                result@.len() == i,
                forall|k: int|
                    #![trigger result@[k]]
                    0 <= k < i ==> {
                        &&& result@[k].0@ == self.modules.order()[k]
                        &&& self.modules@.contains_key(result@[k].0@)
                        &&& self.modules@[result@[k].0@] == *result@[k].1
                    },
            decreases n - i,
        {
            result.push((self.modules.key_at(i), self.modules.value_at(i)));
            i = i + 1;
        }
        proof {
            assert forall|s: SpecifierView| #[trigger]
                self@.modules.contains_key(s) implies exists|i: int|
                0 <= i < result@.len() && (#[trigger] result@[i]).0@ == s by {
                assert(self.modules.order().contains(s));
                let k = choose|k: int|
                    0 <= k < self.modules.order().len() && self.modules.order()[k] == s;
                assert(result@[k].0@ == s);
            }
        }
        result
    }

    /// Gets the npm package requirements from all the encountered graphs
    /// in the order that they should be resolved.
    pub fn npm_package_reqs(&self) -> (result: &Vec<NpmPackageReq>)
        ensures
            requirements(result@) == self@.npm_packages,
    {
        &self.npm_packages
    }

    /// Walk dependencies from `roots` and return every encountered specifier.
    /// Return `None` if any modules are not known.
    pub fn walk<'a>(
        &'a self,
        roots: &[(ModuleSpecifier, ModuleKind)],
        follow_dynamic: bool,
        follow_type_only: bool,
        check_js: bool,
    ) -> (result: Option<SpecifierMap<&'a ModuleEntry>>)
        ensures
            ({
                let walk = self@.walk(
                    root_views(roots@),
                    follow_dynamic,
                    follow_type_only,
                    check_js,
                );
                match result {
                    Some(found) => walk.outcome() == Some(found_views(found@)),
                    None => walk.outcome() is None,
                }
            }),
    {
        walk_modules(
            &self.modules,
            &self.graph_imports,
            roots,
            follow_dynamic,
            follow_type_only,
            check_js,
        )
    }

    /// Clone part of `self`, containing only modules which are dependencies of
    /// `roots`. Returns `None` if any roots, or any of their dependencies, are
    /// not known.
    pub fn graph_segment(&self, roots: &[(ModuleSpecifier, ModuleKind)]) -> (result: Option<Self>)
        ensures
            match result {
                Some(segment) => self@.segment(root_views(roots@)) == Some(segment@),
                None => self@.segment(root_views(roots@)) is None,
            },
    {
        let found = match self.walk(roots, true, true, true) {
            Some(found) => found,
            None => return None,
        };
        let mut modules: SpecifierMap<ModuleEntry> = SpecifierMap::new();
        let mut referrer_map: SpecifierMap<Range> = SpecifierMap::new();
        let n = found.len();
        let ghost order = found.order();
        let mut i: usize = 0;
        while i < n
            invariant
                n == order.len(),
                order == found.order(),
                order.no_duplicates(),
                i <= n,
                forall|s: SpecifierView| #[trigger]
                    modules@.contains_key(s) <==> order.take(i as int).contains(s),
                forall|s: SpecifierView| #[trigger]
                    modules@.contains_key(s) ==> modules@[s]@ == found@[s]@,
                forall|s: SpecifierView| #[trigger]
                    referrer_map@.contains_key(s) <==> order.take(i as int).contains(s)
                        && self.referrer_map@.contains_key(s),
                forall|s: SpecifierView| #[trigger]
                    referrer_map@.contains_key(s) ==> referrer_map@[s]@ == self.referrer_map@[s]@,
            decreases n - i,
        {
            let specifier = found.key_at(i);
            let entry = found.value_at(i);
            proof {
                let shorter = order.take(i as int);
                let longer = order.take(i + 1);
                assert forall|s: SpecifierView| #[trigger]
                    longer.contains(s) <==> shorter.contains(s) || s == specifier@ by {
                    assert(longer[i as int] == specifier@);
                    if shorter.contains(s) {
                        let k = choose|k: int| 0 <= k < shorter.len() && shorter[k] == s;
                        assert(longer[k] == s);
                    }
                    if longer.contains(s) && s != specifier@ {
                        let k = choose|k: int| 0 <= k < longer.len() && longer[k] == s;
                        assert(shorter[k] == s);
                    }
                }
            }
            modules.insert(specifier.clone(), (*entry).clone());
            if let Some(referrer) = self.referrer_map.get(specifier) {
                referrer_map.insert(specifier.clone(), referrer.clone());
            }
            i = i + 1;
        }
        let mut npm_packages: Vec<NpmPackageReq> = Vec::new();
        append_requirements(&mut npm_packages, &self.npm_packages);
        let mut imports: Vec<GraphImport> = Vec::new();
        append_imports(&mut imports, &self.graph_imports);
        let result = GraphData {
            modules,
            npm_packages,
            referrer_map,
            graph_imports: imports,
            cjs_esm_translations: SpecifierMap::new(),
        };
        proof {
            assert(order.take(n as int) =~= order);
            let expected = self@.segment(root_views(roots@))->0;
            assert forall|s: SpecifierView|
                result@.modules.contains_key(s) == expected.modules.contains_key(s) by {
                assert(order.contains(s) <==> found@.contains_key(s));
                assert(found_views(found@).contains_key(s) <==> found@.contains_key(s));
            }
            assert(result@.modules =~= expected.modules);
            assert(result@.npm_packages =~= expected.npm_packages);
            assert(result@.referrer_map =~= expected.referrer_map);
            assert(result@.graph_imports =~= expected.graph_imports);
            assert(result@.cjs_esm_translations =~= expected.cjs_esm_translations);
            assert(result@ == expected);
        }
        Some(result)
    }

    /// Check if `roots` and their deps are available. Returns `Some(Ok(()))` if
    /// so. Returns `Some(Err(_))` if there is a known module graph or resolution
    /// error statically reachable from `roots`. Returns `None` if any modules are
    /// not known. Where there are several errors, any of them may be returned.
    pub fn check(
        &self,
        roots: &[(ModuleSpecifier, ModuleKind)],
        follow_type_only: bool,
        check_js: bool,
    ) -> (result: Option<Result<(), CheckError>>)
        ensures
            self@.checked(
                root_views(roots@),
                follow_type_only,
                check_js,
                check_result(result),
            ),
    {
        let ghost walk = self@.walk(root_views(roots@), false, follow_type_only, check_js);
        let found = match self.walk(roots, false, follow_type_only, check_js) {
            Some(found) => found,
            None => return None,
        };
        proof {
            assert forall|s: SpecifierView| #[trigger]
                walk.visits(s) <==> found@.contains_key(s) by {
                assert(found_views(found@).contains_key(s) <==> found@.contains_key(s));
                assert(walk.visited().contains_key(s) <==> walk.visits(s));
            }
        }
        let n = found.len();
        let mut i: usize = 0;
        while i < n
            invariant
                walk == self@.walk(root_views(roots@), false, follow_type_only, check_js),
                walk.outcome() == Some(found_views(found@)),
                forall|s: SpecifierView| #[trigger] walk.visits(s) <==> found@.contains_key(s),
                n == found.order().len(),
                i <= n,
                forall|k: int|
                    0 <= k < i ==> self@.failure(walk, #[trigger] found.order()[k]) is None,
            decreases n - i,
        {
            let specifier = found.key_at(i);
            let entry = found.value_at(i);
            proof {
                assert(walk.visits(specifier@));
                assert(found_views(found@)[specifier@] == entry@);
                assert(walk.visited()[specifier@] == self@.modules[specifier@]);
            }
            if let Some(error) = check_entry(
                specifier,
                entry,
                &self.referrer_map,
                roots,
                follow_type_only,
                check_js,
                Ghost(walk),
            ) {
                return Some(Err(error));
            }
            i = i + 1;
        }
        proof {
            assert forall|s: SpecifierView| #[trigger]
                walk.visits(s) implies self@.failure(walk, s) is None by {
                assert(found.order().contains(s));
                let k = choose|k: int| 0 <= k < found.order().len() && found.order()[k] == s;
                assert(self@.failure(walk, found.order()[k]) is None);
            }
        }
        Some(Ok(()))
    }

    /// Mark `roots` and all of their dependencies as type checked under `lib`.
    /// Assumes that all of those modules are known.
    pub fn set_type_checked(&mut self, roots: &[(ModuleSpecifier, ModuleKind)], lib: TsTypeLib)
        requires
            old(self)@.walk(root_views(roots@), true, true, true).complete(),
        ensures
            final(self)@ == old(self)@.with_checked(root_views(roots@), lib),
    {
        let ghost walk = self@.walk(root_views(roots@), true, true, true);
        let ghost before = entry_views(self.modules@);
        let mut specifiers: Vec<ModuleSpecifier> = Vec::new();
        if let Some(found) = self.walk(roots, true, true, true) {
            let n = found.len();
            let mut i: usize = 0;
            while i < n
                invariant
                    n == found.order().len(),
                    i <= n,
                    specifiers@.len() == i,
                    forall|k: int|
                        0 <= k < i ==> (#[trigger] specifiers@[k])@ == found.order()[k],
                decreases n - i,
            {
                specifiers.push(found.key_at(i).clone());
                i = i + 1;
            }
            proof {
                assert forall|s: SpecifierView| #[trigger]
                    walk.visits(s) <==> named(specifiers@, n as int, s) by {
                    assert(found_views(found@).contains_key(s) <==> found@.contains_key(s));
                    assert(walk.visited().contains_key(s) <==> walk.visits(s));
                    if found@.contains_key(s) {
                        assert(found.order().contains(s));
                        let k = choose|k: int|
                            0 <= k < found.order().len() && found.order()[k] == s;
                        assert(specifiers@[k]@ == s);
                    }
                    if named(specifiers@, n as int, s) {
                        let k = choose|k: int| 0 <= k < n && (#[trigger] specifiers@[k])@ == s;
                        assert(found.order()[k] == s);
                        assert(found.order().contains(s));
                    }
                }
            }
        }
        assert forall|s: SpecifierView| #[trigger]
            named(specifiers@, specifiers@.len() as int, s) implies before.contains_key(s) by {
            assert(walk.visits(s));
        }
        let mut j: usize = 0;
        while j < specifiers.len()
            invariant
                j <= specifiers@.len(),
                before == entry_views(old(self).modules@),
                self.npm_packages == old(self).npm_packages,
                self.referrer_map == old(self).referrer_map,
                self.graph_imports == old(self).graph_imports,
                self.cjs_esm_translations == old(self).cjs_esm_translations,
                forall|s: SpecifierView| #[trigger]
                    named(specifiers@, specifiers@.len() as int, s) ==> before.contains_key(s),
                entry_views(self.modules@).dom() == before.dom(),
                forall|s: SpecifierView| #[trigger]
                    before.contains_key(s) ==> entry_views(self.modules@)[s] == if named(
                        specifiers@,
                        j as int,
                        s,
                    ) {
                        before[s].with_lib(lib)
                    } else {
                        before[s]
                    },
            decreases specifiers.len() - j,
        {
            let ghost middle = entry_views(self.modules@);
            let ghost specifier = specifiers@[j as int]@;
            assert(named(specifiers@, specifiers@.len() as int, specifier));
            assert(before.contains_key(specifier));
            if let Some(i) = self.modules.index_of(&specifiers[j]) {
                let entry = self.modules.replace(i, ModuleEntry::Redirect(specifiers[j].clone()));
                let marked = entry.marked(lib);
                self.modules.replace(i, marked);
            }
            proof {
                let after = entry_views(self.modules@);
                assert(after.dom() =~= before.dom());
                assert forall|s: SpecifierView| #[trigger] before.contains_key(s) implies after[s]
                    == if named(specifiers@, j + 1, s) {
                    before[s].with_lib(lib)
                } else {
                    before[s]
                } by {
                    if s == specifier {
                        assert(specifiers@[j as int]@ == s);
                        assert(named(specifiers@, j + 1, s));
                        before[s].lemma_with_lib_twice(lib);
                    } else {
                        assert(named(specifiers@, j + 1, s) <==> named(specifiers@, j as int, s));
                    }
                }
            }
            j = j + 1;
        }
        proof {
            let expected = old(self)@.with_checked(root_views(roots@), lib);
            assert(self@.modules =~= expected.modules);
            assert(self@ == expected);
        }
    }

    /// Check if `roots` are all marked as type checked under `lib`.
    pub fn is_type_checked(
        &self,
        roots: &[(ModuleSpecifier, ModuleKind)],
        lib: &TsTypeLib,
    ) -> (result: bool)
        ensures
            result == self@.type_checked(root_views(roots@), *lib),
    {
        let ghost all = root_views(roots@);
        let mut i: usize = 0;
        while i < roots.len()
            invariant
                i <= roots@.len(),
                all == root_views(roots@),
                forall|k: int|
                    0 <= k < i ==> self@.passed(
                        self@.followed((#[trigger] all[k]).0),
                        *lib,
                    ),
            decreases roots.len() - i,
        {
            let found = self.follow_redirect(&roots[i].0);
            let passed = match self.modules.get(&found) {
                Some(ModuleEntry::Module { checked_libs, .. }) => checked_libs.contains(lib),
                _ => false,
            };
            proof {
                assert(all[i as int].0 == roots@[i as int].0@);
                assert(passed == self@.passed(self@.followed(all[i as int].0), *lib));
            }
            if !passed {
                return false;
            }
            i = i + 1;
        }
        true
    }

    /// If `specifier` is known and a redirect, return the found specifier.
    /// Otherwise return `specifier`.
    pub fn follow_redirect(&self, specifier: &ModuleSpecifier) -> (result: ModuleSpecifier)
        ensures
            result@ == self@.followed(specifier@),
    {
        match self.modules.get(specifier) {
            Some(ModuleEntry::Redirect(found)) => found.clone(),
            _ => specifier.clone(),
        }
    }

    /// What is known of `specifier`.
    pub fn get<'a>(&'a self, specifier: &ModuleSpecifier) -> (result: Option<&'a ModuleEntry>)
        ensures
            match result {
                Some(entry) => self@.modules.contains_key(specifier@)
                    && self@.modules[specifier@] == entry@,
                None => !self@.modules.contains_key(specifier@),
            },
    {
        self.modules.get(specifier)
    }

    /// Get the dependencies of a module or graph import.
    pub fn get_dependencies<'a>(&'a self, specifier: &ModuleSpecifier) -> (result: Option<
        &'a Dependencies,
    >)
        ensures
            match result {
                Some(dependencies) => self@.dependencies_of(specifier@) == Some(dependencies@),
                None => self@.dependencies_of(specifier@) is None,
            },
    {
        let found = self.follow_redirect(specifier);
        if let Some(ModuleEntry::Module { dependencies, .. }) = self.get(&found) {
            return Some(dependencies);
        }
        let ghost all = self@.graph_imports;
        let mut i: usize = 0;
        assert(all.skip(0) =~= all);
        while i < self.graph_imports.len()
            invariant
                i <= self.graph_imports@.len(),
                all == graph_imports(self.graph_imports@),
                self@.dependencies_of(specifier@) == imported_by(all.skip(i as int), found@),
            decreases self.graph_imports.len() - i,
        {
            assert(all.skip(i as int)[0] == self.graph_imports@[i as int]@);
            if self.graph_imports[i].referrer.same(&found) {
                return Some(&self.graph_imports[i].dependencies);
            }
            assert(all.skip(i as int).drop_first() =~= all.skip(i + 1));
            i = i + 1;
        }
        None
    }

    /// The translation of the CommonJS module `specifier` to an ES module.
    pub fn get_cjs_esm_translation<'a>(&'a self, specifier: &ModuleSpecifier) -> (result: Option<
        &'a String,
    >)
        ensures
            match result {
                Some(text) => self@.cjs_esm_translations.contains_key(specifier@)
                    && self@.cjs_esm_translations[specifier@] == text@,
                None => !self@.cjs_esm_translations.contains_key(specifier@),
            },
    {
        self.cjs_esm_translations.get(specifier)
    }
}

/// Puts copies of `more` behind `imports`.
fn append_imports(imports: &mut Vec<GraphImport>, more: &Vec<GraphImport>)
    ensures
        graph_imports(final(imports)@) == graph_imports(old(imports)@) + graph_imports(more@),
{
    let mut i: usize = 0;
    assert(graph_imports(imports@) =~= graph_imports(old(imports)@) + graph_imports(more@).take(0));
    while i < more.len()
        invariant
            i <= more@.len(),
            graph_imports(imports@) == graph_imports(old(imports)@) + graph_imports(more@).take(
                i as int,
            ),
        decreases more.len() - i,
    {
        let ghost before = imports@;
        imports.push(more[i].clone());
        proof {
            assert(graph_imports(imports@) =~= graph_imports(before).push(more@[i as int]@));
            assert(graph_imports(more@).take(i + 1) =~= graph_imports(more@).take(i as int).push(
                more@[i as int]@,
            ));
            assert(graph_imports(imports@) =~= graph_imports(old(imports)@) + graph_imports(
                more@,
            ).take(i + 1));
        }
        i = i + 1;
    }
    assert(graph_imports(more@).take(i as int) =~= graph_imports(more@));
}

/// Puts copies of `more` behind `reqs`.
fn append_requirements(reqs: &mut Vec<NpmPackageReq>, more: &Vec<NpmPackageReq>)
    ensures
        requirements(final(reqs)@) == requirements(old(reqs)@) + requirements(more@),
{
    let mut i: usize = 0;
    assert(requirements(reqs@) =~= requirements(old(reqs)@) + requirements(more@).take(0));
    while i < more.len()
        invariant
            i <= more@.len(),
            requirements(reqs@) == requirements(old(reqs)@) + requirements(more@).take(i as int),
        decreases more.len() - i,
    {
        let ghost before = reqs@;
        reqs.push(more[i].clone());
        proof {
            assert(requirements(reqs@) =~= requirements(before).push(more@[i as int]@));
            assert(requirements(more@).take(i + 1) =~= requirements(more@).take(i as int).push(
                more@[i as int]@,
            ));
            assert(requirements(reqs@) =~= requirements(old(reqs)@) + requirements(more@).take(
                i + 1,
            ));
        }
        i = i + 1;
    }
    assert(requirements(more@).take(i as int) =~= requirements(more@));
}

impl From<&ModuleGraph> for GraphData {
    fn from(graph: &ModuleGraph) -> (result: Self)
        ensures
            result@ == GraphDataView::empty().with_graph(graph@, false),
    {
        let mut graph_data = GraphData::default();
        graph_data.add_graph(graph, false);
        graph_data
    }
}

impl vstd::std_specs::convert::FromSpecImpl<&ModuleGraph> for GraphData {
    open spec fn obeys_from_spec() -> bool {
        false
    }

    open spec fn from_spec(graph: &ModuleGraph) -> Self {
        arbitrary()
    }
}

/// Like `graph.valid()`, but enhanced with referrer info.
pub fn graph_valid(graph: &ModuleGraph, follow_type_only: bool, check_js: bool) -> (result: Result<
    (),
    CheckError,
>)
    requires
        GraphDataView::empty().with_graph(graph@, false).walk(
            graph@.roots,
            false,
            follow_type_only,
            check_js,
        ).complete(),
    ensures
        GraphDataView::empty().with_graph(graph@, false).checked(
            graph@.roots,
            follow_type_only,
            check_js,
            check_result(Some(result)),
        ),
{
    let graph_data = GraphData::from(graph);
    graph_data.check(&graph.roots, follow_type_only, check_js).unwrap()
}

} // verus!
