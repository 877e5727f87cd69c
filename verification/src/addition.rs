//! Adding a module graph to what is known.
use vstd::prelude::*;
use crate::dependency::{Dependencies, ImportView};
use crate::graph_data::{
    CheckedLibs, GraphDataView, ModuleEntry, ModuleEntryView, entry_views, range_views,
};
use crate::module_graph::{
    GraphEntry, GraphEntryView, GraphImport, GraphImportView, Module, ModuleGraphView, ModuleView,
    graph_imports, redirect_views,
};
use crate::resolution::{Range, RangeView, Resolved, ResolvedView};
use crate::specifier::{ModuleSpecifier, SpecifierView};
use crate::specifier_map::SpecifierMap;

verus! {

/// Where `specifier` leads by `redirects`.
pub open spec fn redirected(
    redirects: Map<SpecifierView, SpecifierView>,
    specifier: SpecifierView,
) -> SpecifierView {
    if redirects.contains_key(specifier) {
        redirects[specifier]
    } else {
        specifier
    }
}

/// The referrers, with that of `resolved`: the module it leads to was imported
/// at its range, unless an earlier place is known.
pub open spec fn note(
    referrers: Map<SpecifierView, RangeView>,
    resolved: ResolvedView,
    redirects: Map<SpecifierView, SpecifierView>,
) -> Map<SpecifierView, RangeView> {
    match resolved {
        ResolvedView::Found { specifier, range, .. } if !referrers.contains_key(
            redirected(redirects, specifier),
        ) => referrers.insert(redirected(redirects, specifier), range),
        _ => referrers,
    }
}

/// The referrers, with those of `imports`, one after the other.
pub open spec fn note_imports(
    referrers: Map<SpecifierView, RangeView>,
    imports: Seq<ImportView>,
    redirects: Map<SpecifierView, SpecifierView>,
) -> Map<SpecifierView, RangeView>
    decreases imports.len(),
{
    if imports.len() == 0 {
        referrers
    } else {
        let dependency = imports.last().dependency;
        note(
            note(
                note_imports(referrers, imports.drop_last(), redirects),
                dependency.maybe_code,
                redirects,
            ),
            dependency.maybe_type,
            redirects,
        )
    }
}

/// The referrers, with those of the imports of configurations, which are not
/// redirected.
pub open spec fn note_graph_imports(
    referrers: Map<SpecifierView, RangeView>,
    imports: Seq<GraphImportView>,
) -> Map<SpecifierView, RangeView>
    decreases imports.len(),
{
    if imports.len() == 0 {
        referrers
    } else {
        note_imports(
            note_graph_imports(referrers, imports.drop_last()),
            imports.last().dependencies,
            Map::empty(),
        )
    }
}

/// The referrers, with those of the types and of the imports of `module`.
pub open spec fn note_module(
    referrers: Map<SpecifierView, RangeView>,
    module: ModuleView,
    redirects: Map<SpecifierView, SpecifierView>,
) -> Map<SpecifierView, RangeView> {
    let with_types = match module.maybe_types {
        Some(types) => note(referrers, types, redirects),
        None => referrers,
    };
    note_imports(with_types, module.dependencies, redirects)
}

/// The entry that a graph gives to one of its specifiers: a redirect before all
/// else, no entry to a module without source.
pub open spec fn entry_for(
    redirects: Map<SpecifierView, SpecifierView>,
    entry: GraphEntryView,
) -> Option<ModuleEntryView> {
    if redirects.contains_key(entry.specifier) {
        Some(ModuleEntryView::Redirect(redirects[entry.specifier]))
    } else {
        match entry.result {
            Ok(module) => match module.maybe_source {
                Some(source) => Some(
                    ModuleEntryView::Module {
                        code: source,
                        dependencies: module.dependencies,
                        media_type: module.media_type,
                        checked_libs: Set::empty(),
                        maybe_types: module.maybe_types,
                    },
                ),
                None => None,
            },
            Err(error) => Some(ModuleEntryView::Error(error)),
        }
    }
}

/// The modules and the referrers that are known.
#[verifier::ext_equal]
pub struct Known {
    pub modules: Map<SpecifierView, ModuleEntryView>,
    pub referrers: Map<SpecifierView, RangeView>,
}

impl Known {
    /// The specifier of `entry` is left as it is: it names an npm package, or it
    /// is known and not to be loaded again.
    pub open spec fn skips(self, entry: GraphEntryView, reload: bool) -> bool {
        entry.specifier.npm || (!reload && self.modules.contains_key(entry.specifier))
    }

    /// What is known with one more entry of a graph.
    pub open spec fn with_entry(
        self,
        redirects: Map<SpecifierView, SpecifierView>,
        entry: GraphEntryView,
        reload: bool,
    ) -> Known {
        if self.skips(entry, reload) {
            self
        } else {
            match entry_for(redirects, entry) {
                Some(found) => Known {
                    modules: self.modules.insert(entry.specifier, found),
                    referrers: if found is Module {
                        note_module(self.referrers, entry.result->Ok_0, redirects)
                    } else {
                        self.referrers
                    },
                },
                None => self,
            }
        }
    }

    /// What is known with `entries` of a graph, one after the other.
    pub open spec fn with_entries(
        self,
        redirects: Map<SpecifierView, SpecifierView>,
        entries: Seq<GraphEntryView>,
        reload: bool,
    ) -> Known
        decreases entries.len(),
    {
        if entries.len() == 0 {
            self
        } else {
            self.with_entries(redirects, entries.drop_last(), reload).with_entry(
                redirects,
                entries.last(),
                reload,
            )
        }
    }
}

/// One of `entries` names an npm package.
pub open spec fn names_npm_package(entries: Seq<GraphEntryView>) -> bool {
    exists|i: int| 0 <= i < entries.len() && (#[trigger] entries[i]).specifier.npm
}

impl GraphDataView {
    /// What is known with `graph`: the imports of configurations come first,
    /// then the specifiers of the graph in their order. The npm packages that
    /// the graph requires come behind those known, if it names one.
    pub open spec fn with_graph(self, graph: ModuleGraphView, reload: bool) -> GraphDataView {
        let before = Known {
            modules: self.modules,
            referrers: note_graph_imports(self.referrer_map, graph.imports),
        };
        let after = before.with_entries(graph.redirects, graph.specifiers, reload);
        GraphDataView {
            modules: after.modules,
            npm_packages: if names_npm_package(graph.specifiers) {
                self.npm_packages + graph.npm_package_reqs
            } else {
                self.npm_packages
            },
            referrer_map: after.referrers,
            graph_imports: self.graph_imports + graph.imports,
            cjs_esm_translations: self.cjs_esm_translations,
        }
    }
}

/// Notes where the module was imported to which `resolved` leads.
fn note_resolved(
    referrers: &mut SpecifierMap<Range>,
    resolved: &Resolved,
    redirects: &SpecifierMap<ModuleSpecifier>,
)
    ensures
        range_views(final(referrers)@) == note(
            range_views(old(referrers)@),
            resolved@,
            redirect_views(redirects@),
        ),
{
    if let Resolved::Found { specifier, range, .. } = resolved {
        let target = match redirects.get(specifier) {
            Some(found) => found,
            None => specifier,
        };
        if !referrers.contains_key(target) {
            referrers.insert(target.clone(), range.clone());
            assert(range_views(referrers@) =~= range_views(old(referrers)@).insert(
                target@,
                range@,
            ));
        }
    }
}

/// Notes where the modules were imported to which `dependencies` lead.
fn note_dependencies(
    referrers: &mut SpecifierMap<Range>,
    dependencies: &Dependencies,
    redirects: &SpecifierMap<ModuleSpecifier>,
)
    ensures
        range_views(final(referrers)@) == note_imports(
            range_views(old(referrers)@),
            dependencies@,
            redirect_views(redirects@),
        ),
{
    let n = dependencies.len();
    let mut i: usize = 0;
    assert(dependencies@.take(0) =~= Seq::empty());
    while i < n
        invariant
            n == dependencies@.len(),
            i <= n,
            range_views(referrers@) == note_imports(
                range_views(old(referrers)@),
                dependencies@.take(i as int),
                redirect_views(redirects@),
            ),
        decreases n - i,
    {
        let import = dependencies.import_at(i);
        note_resolved(referrers, &import.dependency.maybe_code, redirects);
        note_resolved(referrers, &import.dependency.maybe_type, redirects);
        assert(dependencies@.take(i + 1).drop_last() =~= dependencies@.take(i as int));
        assert(dependencies@.take(i + 1).last() == import@);
        i = i + 1;
    }
    assert(dependencies@.take(n as int) =~= dependencies@);
}

/// Notes where the modules were imported that the configurations import.
pub(crate) fn note_configurations(
    referrers: &mut SpecifierMap<Range>,
    imports: &Vec<GraphImport>,
)
    ensures
        range_views(final(referrers)@) == note_graph_imports(
            range_views(old(referrers)@),
            graph_imports(imports@),
        ),
{
    let no_redirects: SpecifierMap<ModuleSpecifier> = SpecifierMap::new();
    assert(redirect_views(no_redirects@) =~= Map::empty());
    let ghost all = graph_imports(imports@);
    let mut i: usize = 0;
    assert(all.take(0) =~= Seq::empty());
    while i < imports.len()
        invariant
            i <= imports@.len(),
            all == graph_imports(imports@),
            redirect_views(no_redirects@) == Map::<SpecifierView, SpecifierView>::empty(),
            range_views(referrers@) == note_graph_imports(
                range_views(old(referrers)@),
                all.take(i as int),
            ),
        decreases imports.len() - i,
    {
        note_dependencies(referrers, &imports[i].dependencies, &no_redirects);
        assert(all.take(i + 1).drop_last() =~= all.take(i as int));
        assert(all.take(i + 1).last() == imports@[i as int]@);
        i = i + 1;
    }
    assert(all.take(imports@.len() as int) =~= all);
}

/// Adds a module with source to what is known.
fn add_module(
    modules: &mut SpecifierMap<ModuleEntry>,
    referrers: &mut SpecifierMap<Range>,
    redirects: &SpecifierMap<ModuleSpecifier>,
    specifier: &ModuleSpecifier,
    module: &Module,
    source: &String,
)
    requires
        module@.maybe_source == Some(source@),
    ensures
        entry_views(final(modules)@) == entry_views(old(modules)@).insert(
            specifier@,
            ModuleEntryView::Module {
                code: source@,
                dependencies: module@.dependencies,
                media_type: module@.media_type,
                checked_libs: Set::empty(),
                maybe_types: module@.maybe_types,
            },
        ),
        range_views(final(referrers)@) == note_module(
            range_views(old(referrers)@),
            module@,
            redirect_views(redirects@),
        ),
{
    let maybe_types = match &module.maybe_types_dependency {
        Some(types) => Some(types.1.clone()),
        None => None,
    };
    if let Some(resolved) = &maybe_types {
        note_resolved(referrers, resolved, redirects);
    }
    note_dependencies(referrers, &module.dependencies, redirects);
    let entry = ModuleEntry::Module {
        code: source.clone(),
        dependencies: module.dependencies.clone(),
        media_type: module.media_type,
        checked_libs: CheckedLibs::new(),
        maybe_types,
    };
    let ghost added = entry@;
    modules.insert(specifier.clone(), entry);
    assert(entry_views(modules@) =~= entry_views(old(modules)@).insert(specifier@, added));
}

/// Adds one entry of a graph to what is known.
pub(crate) fn add_entry(
    modules: &mut SpecifierMap<ModuleEntry>,
    referrers: &mut SpecifierMap<Range>,
    redirects: &SpecifierMap<ModuleSpecifier>,
    entry: &GraphEntry,
    reload: bool,
)
    ensures
        (Known {
            modules: entry_views(final(modules)@),
            referrers: range_views(final(referrers)@),
        }) == (Known {
            modules: entry_views(old(modules)@),
            referrers: range_views(old(referrers)@),
        }).with_entry(redirect_views(redirects@), entry@, reload),
{
    let specifier = &entry.specifier;
    if specifier.npm {
        return;
    }
    if !reload && modules.contains_key(specifier) {
        return;
    }
    if let Some(found) = redirects.get(specifier) {
        let redirect = ModuleEntry::Redirect(found.clone());
        let ghost added = redirect@;
        modules.insert(specifier.clone(), redirect);
        assert(entry_views(modules@) =~= entry_views(old(modules)@).insert(specifier@, added));
        return;
    }
    match &entry.result {
        Ok(module) => {
            if let Some(source) = &module.maybe_source {
                add_module(modules, referrers, redirects, specifier, module, source);
            }
        },
        Err(error) => {
            let failed = ModuleEntry::Error(error.clone());
            let ghost added = failed@;
            modules.insert(specifier.clone(), failed);
            assert(entry_views(modules@) =~= entry_views(old(modules)@).insert(specifier@, added));
        },
    }
}

} // verus!
