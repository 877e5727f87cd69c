//! What holds of the data when module graphs are added to it.
use vstd::map_lib::lemma_submap_of_trans;
use vstd::prelude::*;
use crate::addition::{
    Known, entry_for, names_npm_package, note, note_graph_imports, note_imports, note_module,
    redirected,
};
use crate::dependency::ImportView;
use crate::graph_data::{GraphDataView, ModuleEntryView, TsTypeLib};
use crate::laws::law_following_more_visits_more;
use crate::module_graph::{GraphEntryView, GraphImportView, ModuleGraphView, ModuleView};
use crate::resolution::{ModuleKind, RangeView, ResolvedView};
use crate::specifier::SpecifierView;

verus! {

/// The module to which `resolved` leads has a referrer, if it leads to one.
spec fn noted(
    referrers: Map<SpecifierView, RangeView>,
    resolved: ResolvedView,
    redirects: Map<SpecifierView, SpecifierView>,
) -> bool {
    resolved matches ResolvedView::Found { specifier, .. } ==> referrers.contains_key(
        redirected(redirects, specifier),
    )
}

/// The modules to which `imports` lead have referrers.
spec fn imports_noted(
    referrers: Map<SpecifierView, RangeView>,
    imports: Seq<ImportView>,
    redirects: Map<SpecifierView, SpecifierView>,
) -> bool {
    forall|i: int|
        #![trigger imports[i]]
        0 <= i < imports.len() ==> {
            &&& noted(referrers, imports[i].dependency.maybe_code, redirects)
            &&& noted(referrers, imports[i].dependency.maybe_type, redirects)
        }
}

/// The modules that configurations import have referrers.
spec fn graph_imports_noted(
    referrers: Map<SpecifierView, RangeView>,
    imports: Seq<GraphImportView>,
) -> bool {
    forall|i: int|
        #![trigger imports[i]]
        0 <= i < imports.len() ==> imports_noted(referrers, imports[i].dependencies, Map::empty())
}

/// Noting imports changes no referrer that is known, and notes all of them.
proof fn lemma_note_imports(
    referrers: Map<SpecifierView, RangeView>,
    imports: Seq<ImportView>,
    redirects: Map<SpecifierView, SpecifierView>,
)
    ensures
        referrers.submap_of(note_imports(referrers, imports, redirects)),
        imports_noted(note_imports(referrers, imports, redirects), imports, redirects),
    decreases imports.len(),
{
    if imports.len() > 0 {
        lemma_note_imports(referrers, imports.drop_last(), redirects);
        let before = note_imports(referrers, imports.drop_last(), redirects);
        let after = note_imports(referrers, imports, redirects);
        assert(before.submap_of(after));
        assert forall|i: int| #![trigger imports[i]] 0 <= i < imports.len() implies {
            &&& noted(after, imports[i].dependency.maybe_code, redirects)
            &&& noted(after, imports[i].dependency.maybe_type, redirects)
        } by {
            if i < imports.len() - 1 {
                assert(imports.drop_last()[i] == imports[i]);
                assert(noted(before, imports[i].dependency.maybe_code, redirects));
            }
        }
    }
}

/// Noting imports that are noted changes nothing.
proof fn lemma_note_imports_again(
    referrers: Map<SpecifierView, RangeView>,
    imports: Seq<ImportView>,
    redirects: Map<SpecifierView, SpecifierView>,
)
    requires
        imports_noted(referrers, imports, redirects),
    ensures
        note_imports(referrers, imports, redirects) == referrers,
    decreases imports.len(),
{
    if imports.len() > 0 {
        assert forall|i: int|
            #![trigger imports.drop_last()[i]]
            0 <= i < imports.drop_last().len() implies {
            &&& noted(referrers, imports.drop_last()[i].dependency.maybe_code, redirects)
            &&& noted(referrers, imports.drop_last()[i].dependency.maybe_type, redirects)
        } by {
            assert(imports.drop_last()[i] == imports[i]);
        }
        lemma_note_imports_again(referrers, imports.drop_last(), redirects);
        assert(imports.last() == imports[imports.len() - 1]);
    }
}

/// What is noted stays noted.
proof fn lemma_imports_stay_noted(
    before: Map<SpecifierView, RangeView>,
    after: Map<SpecifierView, RangeView>,
    imports: Seq<ImportView>,
    redirects: Map<SpecifierView, SpecifierView>,
)
    requires
        before.submap_of(after),
        imports_noted(before, imports, redirects),
    ensures
        imports_noted(after, imports, redirects),
{
    assert forall|i: int| #![trigger imports[i]] 0 <= i < imports.len() implies {
        &&& noted(after, imports[i].dependency.maybe_code, redirects)
        &&& noted(after, imports[i].dependency.maybe_type, redirects)
    } by {
        assert(noted(before, imports[i].dependency.maybe_code, redirects));
        assert(noted(before, imports[i].dependency.maybe_type, redirects));
    }
}

/// Noting the imports of configurations changes no referrer that is known, and
/// notes all of them.
proof fn lemma_note_graph_imports(
    referrers: Map<SpecifierView, RangeView>,
    imports: Seq<GraphImportView>,
)
    ensures
        referrers.submap_of(note_graph_imports(referrers, imports)),
        graph_imports_noted(note_graph_imports(referrers, imports), imports),
    decreases imports.len(),
{
    if imports.len() > 0 {
        let before = note_graph_imports(referrers, imports.drop_last());
        let after = note_graph_imports(referrers, imports);
        lemma_note_graph_imports(referrers, imports.drop_last());
        lemma_note_imports(before, imports.last().dependencies, Map::empty());
        lemma_submap_of_trans(referrers, before, after);
        assert forall|i: int| #![trigger imports[i]] 0 <= i < imports.len() implies imports_noted(
            after,
            imports[i].dependencies,
            Map::empty(),
        ) by {
            if i < imports.len() - 1 {
                assert(imports.drop_last()[i] == imports[i]);
                lemma_imports_stay_noted(before, after, imports[i].dependencies, Map::empty());
            }
        }
    }
}

/// Noting the imports of configurations that are noted changes nothing.
proof fn lemma_note_graph_imports_again(
    referrers: Map<SpecifierView, RangeView>,
    imports: Seq<GraphImportView>,
)
    requires
        graph_imports_noted(referrers, imports),
    ensures
        note_graph_imports(referrers, imports) == referrers,
    decreases imports.len(),
{
    if imports.len() > 0 {
        assert forall|i: int|
            #![trigger imports.drop_last()[i]]
            0 <= i < imports.drop_last().len() implies imports_noted(
            referrers,
            imports.drop_last()[i].dependencies,
            Map::empty(),
        ) by {
            assert(imports.drop_last()[i] == imports[i]);
        }
        lemma_note_graph_imports_again(referrers, imports.drop_last());
        assert(imports.last() == imports[imports.len() - 1]);
        lemma_note_imports_again(referrers, imports.last().dependencies, Map::empty());
    }
}

/// Noting a module changes no referrer that is known.
proof fn lemma_note_module(
    referrers: Map<SpecifierView, RangeView>,
    module: ModuleView,
    redirects: Map<SpecifierView, SpecifierView>,
)
    ensures
        referrers.submap_of(note_module(referrers, module, redirects)),
{
    let with_types = match module.maybe_types {
        Some(types) => note(referrers, types, redirects),
        None => referrers,
    };
    lemma_note_imports(with_types, module.dependencies, redirects);
    lemma_submap_of_trans(
        referrers,
        with_types,
        note_module(referrers, module, redirects),
    );
}

/// With more entries no known referrer changes, and no known entry unless it is
/// loaded again.
proof fn lemma_with_entries_keeps(
    known: Known,
    redirects: Map<SpecifierView, SpecifierView>,
    entries: Seq<GraphEntryView>,
    reload: bool,
)
    ensures
        known.referrers.submap_of(known.with_entries(redirects, entries, reload).referrers),
        known.modules.dom().subset_of(known.with_entries(redirects, entries, reload).modules.dom()),
        !reload ==> known.modules.submap_of(
            known.with_entries(redirects, entries, reload).modules,
        ),
    decreases entries.len(),
{
    if entries.len() > 0 {
        lemma_with_entries_keeps(known, redirects, entries.drop_last(), reload);
        let before = known.with_entries(redirects, entries.drop_last(), reload);
        let entry = entries.last();
        if let Ok(module) = entry.result {
            lemma_note_module(before.referrers, module, redirects);
        }
        let after = before.with_entry(redirects, entry, reload);
        lemma_submap_of_trans(known.referrers, before.referrers, after.referrers);
        if !reload {
            lemma_submap_of_trans(known.modules, before.modules, after.modules);
        }
    }
}

/// Without loading again, what is known of a specifier is kept when a graph is
/// added, marks of type checks with it.
pub proof fn law_known_entries_are_kept(data: GraphDataView, graph: ModuleGraphView)
    ensures
        data.modules.submap_of(data.with_graph(graph, false).modules),
        forall|s: SpecifierView, lib: TsTypeLib|
            data.passed(s, lib) ==> #[trigger] data.with_graph(graph, false).passed(s, lib),
{
    let before = Known {
        modules: data.modules,
        referrers: note_graph_imports(data.referrer_map, graph.imports),
    };
    lemma_with_entries_keeps(before, graph.redirects, graph.specifiers, false);
}

/// The first known referrer of a module stays its referrer, whatever graphs are
/// added, and specifiers that are known stay known.
pub proof fn law_first_referrer_is_kept(data: GraphDataView, graph: ModuleGraphView, reload: bool)
    ensures
        data.referrer_map.submap_of(data.with_graph(graph, reload).referrer_map),
        data.modules.dom().subset_of(data.with_graph(graph, reload).modules.dom()),
{
    lemma_note_graph_imports(data.referrer_map, graph.imports);
    let before = Known {
        modules: data.modules,
        referrers: note_graph_imports(data.referrer_map, graph.imports),
    };
    lemma_with_entries_keeps(before, graph.redirects, graph.specifiers, reload);
    lemma_submap_of_trans(
        data.referrer_map,
        before.referrers,
        data.with_graph(graph, reload).referrer_map,
    );
}

/// The npm packages required stay in their order; those that a graph requires
/// come behind them if it names one, else none do.
pub proof fn law_npm_packages_are_appended(
    data: GraphDataView,
    graph: ModuleGraphView,
    reload: bool,
)
    ensures
        data.npm_packages.is_prefix_of(data.with_graph(graph, reload).npm_packages),
        names_npm_package(graph.specifiers) ==> data.with_graph(graph, reload).npm_packages
            == data.npm_packages + graph.npm_package_reqs,
        !names_npm_package(graph.specifiers) ==> data.with_graph(graph, reload).npm_packages
            == data.npm_packages,
{
}

/// With more entries no npm package becomes a key.
proof fn lemma_with_entries_valid(
    known: Known,
    redirects: Map<SpecifierView, SpecifierView>,
    entries: Seq<GraphEntryView>,
    reload: bool,
)
    requires
        forall|s: SpecifierView| #[trigger] known.modules.contains_key(s) ==> !s.npm,
    ensures
        forall|s: SpecifierView| #[trigger]
            known.with_entries(redirects, entries, reload).modules.contains_key(s) ==> !s.npm,
    decreases entries.len(),
{
    if entries.len() > 0 {
        lemma_with_entries_valid(known, redirects, entries.drop_last(), reload);
        let before = known.with_entries(redirects, entries.drop_last(), reload);
        let after = before.with_entry(redirects, entries.last(), reload);
        assert forall|s: SpecifierView| #[trigger] after.modules.contains_key(s) implies !s.npm by {
            assert(before.modules.contains_key(s) || s == entries.last().specifier);
        }
    }
}

/// No operation gives an entry to a reference to an npm package.
pub proof fn law_no_entry_for_npm_packages(
    data: GraphDataView,
    graph: ModuleGraphView,
    reload: bool,
    roots: Seq<(SpecifierView, ModuleKind)>,
    lib: TsTypeLib,
)
    requires
        data.valid(),
    ensures
        GraphDataView::empty().valid(),
        data.with_graph(graph, reload).valid(),
        data.with_checked(roots, lib).valid(),
        data.segment(roots) is Some ==> data.segment(roots)->0.valid(),
{
    let before = Known {
        modules: data.modules,
        referrers: note_graph_imports(data.referrer_map, graph.imports),
    };
    lemma_with_entries_valid(before, graph.redirects, graph.specifiers, reload);
}

/// `specifier` is not among `entries`.
pub open spec fn absent(entries: Seq<GraphEntryView>, specifier: SpecifierView) -> bool {
    forall|i: int| 0 <= i < entries.len() ==> (#[trigger] entries[i]).specifier != specifier
}

/// What is known of a specifier changes only by its own entries.
proof fn lemma_absent_entry(
    known: Known,
    redirects: Map<SpecifierView, SpecifierView>,
    entries: Seq<GraphEntryView>,
    reload: bool,
    specifier: SpecifierView,
)
    requires
        absent(entries, specifier),
    ensures
        known.with_entries(redirects, entries, reload).modules.get(specifier)
            == known.modules.get(specifier),
    decreases entries.len(),
{
    if entries.len() > 0 {
        assert forall|i: int| 0 <= i < entries.drop_last().len() implies (
        #[trigger] entries.drop_last()[i]).specifier != specifier by {
            assert(entries.drop_last()[i] == entries[i]);
        }
        lemma_absent_entry(known, redirects, entries.drop_last(), reload, specifier);
        assert(entries.last() == entries[entries.len() - 1]);
    }
}

/// What one entry makes known of its specifier.
pub open spec fn known_with(
    before: Option<ModuleEntryView>,
    redirects: Map<SpecifierView, SpecifierView>,
    entry: GraphEntryView,
    reload: bool,
) -> Option<ModuleEntryView> {
    if entry.specifier.npm || (!reload && before is Some) {
        before
    } else {
        match entry_for(redirects, entry) {
            Some(found) => Some(found),
            None => before,
        }
    }
}

/// What is known of a specifier that stands among `entries` once.
proof fn lemma_single_entry(
    known: Known,
    redirects: Map<SpecifierView, SpecifierView>,
    entries: Seq<GraphEntryView>,
    reload: bool,
    i: int,
)
    requires
        0 <= i < entries.len(),
        absent(entries.take(i), entries[i].specifier),
        absent(entries.skip(i + 1), entries[i].specifier),
    ensures
        known.with_entries(redirects, entries, reload).modules.get(entries[i].specifier)
            == known_with(
            known.modules.get(entries[i].specifier),
            redirects,
            entries[i],
            reload,
        ),
    decreases entries.len(),
{
    let specifier = entries[i].specifier;
    if i == entries.len() - 1 {
        assert(entries.drop_last() =~= entries.take(i));
        lemma_absent_entry(known, redirects, entries.drop_last(), reload, specifier);
    } else {
        let shorter = entries.drop_last();
        assert(shorter.take(i) =~= entries.take(i));
        assert forall|k: int| 0 <= k < shorter.skip(i + 1).len() implies (#[trigger] shorter.skip(
            i + 1,
        )[k]).specifier != specifier by {
            assert(shorter.skip(i + 1)[k] == entries.skip(i + 1)[k]);
        }
        lemma_single_entry(known, redirects, shorter, reload, i);
        assert(entries.skip(i + 1)[entries.len() - i - 2] == entries.last());
    }
}

/// What is known of a specifier when a graph is added: nothing changes if the
/// graph does not have it; if the graph has it once, it becomes what the graph
/// gives it, unless it names an npm package, is known and not loaded again, or
/// the graph has no source for it.
pub proof fn law_added_entry(
    data: GraphDataView,
    graph: ModuleGraphView,
    reload: bool,
    specifier: SpecifierView,
)
    ensures
        absent(graph.specifiers, specifier) ==> data.with_graph(graph, reload).modules.get(
            specifier,
        ) == data.modules.get(specifier),
        forall|i: int|
            #![trigger graph.specifiers[i]]
            0 <= i < graph.specifiers.len() && graph.specifiers[i].specifier == specifier
                && absent(graph.specifiers.take(i), specifier) && absent(
                graph.specifiers.skip(i + 1),
                specifier,
            ) ==> data.with_graph(graph, reload).modules.get(specifier) == known_with(
                data.modules.get(specifier),
                graph.redirects,
                graph.specifiers[i],
                reload,
            ),
{
    let before = Known {
        modules: data.modules,
        referrers: note_graph_imports(data.referrer_map, graph.imports),
    };
    if absent(graph.specifiers, specifier) {
        lemma_absent_entry(before, graph.redirects, graph.specifiers, reload, specifier);
    }
    assert forall|i: int|
        #![trigger graph.specifiers[i]]
        0 <= i < graph.specifiers.len() && graph.specifiers[i].specifier == specifier && absent(
            graph.specifiers.take(i),
            specifier,
        ) && absent(graph.specifiers.skip(i + 1), specifier) implies data.with_graph(
        graph,
        reload,
    ).modules.get(specifier) == known_with(
        data.modules.get(specifier),
        graph.redirects,
        graph.specifiers[i],
        reload,
    ) by {
        lemma_single_entry(before, graph.redirects, graph.specifiers, reload, i);
    }
}

/// With entries, each of them is skipped afterwards or gives nothing.
proof fn lemma_nothing_left(
    known: Known,
    redirects: Map<SpecifierView, SpecifierView>,
    entries: Seq<GraphEntryView>,
)
    ensures
        forall|i: int|
            #![trigger entries[i]]
            0 <= i < entries.len() ==> known.with_entries(redirects, entries, false).skips(
                entries[i],
                false,
            ) || entry_for(redirects, entries[i]) is None,
    decreases entries.len(),
{
    if entries.len() > 0 {
        let before = known.with_entries(redirects, entries.drop_last(), false);
        let after = known.with_entries(redirects, entries, false);
        lemma_nothing_left(known, redirects, entries.drop_last());
        assert forall|i: int|
            #![trigger entries[i]]
            0 <= i < entries.len() implies after.skips(entries[i], false) || entry_for(
            redirects,
            entries[i],
        ) is None by {
            if i < entries.len() - 1 {
                assert(entries.drop_last()[i] == entries[i]);
            }
        }
    }
}

/// Entries that are skipped or give nothing change nothing.
proof fn lemma_no_change(
    known: Known,
    redirects: Map<SpecifierView, SpecifierView>,
    entries: Seq<GraphEntryView>,
)
    requires
        forall|i: int|
            #![trigger entries[i]]
            0 <= i < entries.len() ==> known.skips(entries[i], false) || entry_for(
                redirects,
                entries[i],
            ) is None,
    ensures
        known.with_entries(redirects, entries, false) == known,
    decreases entries.len(),
{
    if entries.len() > 0 {
        assert forall|i: int|
            #![trigger entries.drop_last()[i]]
            0 <= i < entries.drop_last().len() implies known.skips(
            entries.drop_last()[i],
            false,
        ) || entry_for(redirects, entries.drop_last()[i]) is None by {
            assert(entries.drop_last()[i] == entries[i]);
        }
        lemma_no_change(known, redirects, entries.drop_last());
        assert(entries.last() == entries[entries.len() - 1]);
    }
}

/// A graph that is added a second time, without loading again, makes nothing
/// more known of modules and referrers.
pub proof fn law_adding_again_learns_nothing(data: GraphDataView, graph: ModuleGraphView)
    ensures
        data.with_graph(graph, false).with_graph(graph, false).modules == data.with_graph(
            graph,
            false,
        ).modules,
        data.with_graph(graph, false).with_graph(graph, false).referrer_map == data.with_graph(
            graph,
            false,
        ).referrer_map,
{
    let noted = note_graph_imports(data.referrer_map, graph.imports);
    let before = Known { modules: data.modules, referrers: noted };
    let once = before.with_entries(graph.redirects, graph.specifiers, false);
    lemma_note_graph_imports(data.referrer_map, graph.imports);
    lemma_with_entries_keeps(before, graph.redirects, graph.specifiers, false);
    assert forall|i: int|
        #![trigger graph.imports[i]]
        0 <= i < graph.imports.len() implies imports_noted(
        once.referrers,
        graph.imports[i].dependencies,
        Map::empty(),
    ) by {
        lemma_imports_stay_noted(
            noted,
            once.referrers,
            graph.imports[i].dependencies,
            Map::empty(),
        );
    }
    lemma_note_graph_imports_again(once.referrers, graph.imports);
    lemma_nothing_left(before, graph.redirects, graph.specifiers);
    lemma_no_change(once, graph.redirects, graph.specifiers);
    assert(Known {
        modules: once.modules,
        referrers: note_graph_imports(once.referrers, graph.imports),
    } == once);
}

/// The types and the imports of `module` lead to modules that have referrers.
spec fn module_noted(
    referrers: Map<SpecifierView, RangeView>,
    module: ModuleView,
    redirects: Map<SpecifierView, SpecifierView>,
) -> bool {
    &&& module.maybe_types matches Some(types) ==> noted(referrers, types, redirects)
    &&& imports_noted(referrers, module.dependencies, redirects)
}

/// Noting a module notes all it leads to; noting it again changes nothing.
proof fn lemma_note_module_again(
    referrers: Map<SpecifierView, RangeView>,
    module: ModuleView,
    redirects: Map<SpecifierView, SpecifierView>,
)
    ensures
        module_noted(note_module(referrers, module, redirects), module, redirects),
        module_noted(referrers, module, redirects) ==> note_module(referrers, module, redirects)
            == referrers,
{
    let with_types = match module.maybe_types {
        Some(types) => note(referrers, types, redirects),
        None => referrers,
    };
    lemma_note_imports(with_types, module.dependencies, redirects);
    if let Some(types) = module.maybe_types {
        if let ResolvedView::Found { specifier, .. } = types {
            assert(with_types.dom().contains(redirected(redirects, specifier)));
        }
    }
    if module_noted(referrers, module, redirects) {
        lemma_note_imports_again(referrers, module.dependencies, redirects);
    }
}

/// The modules that `entries` bring lead to modules that have referrers.
spec fn entries_noted(
    referrers: Map<SpecifierView, RangeView>,
    redirects: Map<SpecifierView, SpecifierView>,
    entries: Seq<GraphEntryView>,
) -> bool {
    forall|i: int|
        #![trigger entries[i]]
        0 <= i < entries.len() && !entries[i].specifier.npm && (entry_for(redirects, entries[i])
            matches Some(found) && found is Module) ==> module_noted(
            referrers,
            entries[i].result->Ok_0,
            redirects,
        )
}

/// What is noted of a module stays noted.
proof fn lemma_module_stays_noted(
    before: Map<SpecifierView, RangeView>,
    after: Map<SpecifierView, RangeView>,
    module: ModuleView,
    redirects: Map<SpecifierView, SpecifierView>,
)
    requires
        before.submap_of(after),
        module_noted(before, module, redirects),
    ensures
        module_noted(after, module, redirects),
{
    lemma_imports_stay_noted(before, after, module.dependencies, redirects);
    if let Some(ResolvedView::Found { specifier, .. }) = module.maybe_types {
        assert(before.dom().contains(redirected(redirects, specifier)));
        assert(after.dom().contains(redirected(redirects, specifier)));
    }
}

/// Loading entries again notes all they lead to.
proof fn lemma_reloaded_entries_noted(
    known: Known,
    redirects: Map<SpecifierView, SpecifierView>,
    entries: Seq<GraphEntryView>,
)
    ensures
        entries_noted(
            known.with_entries(redirects, entries, true).referrers,
            redirects,
            entries,
        ),
    decreases entries.len(),
{
    if entries.len() > 0 {
        let shorter = entries.drop_last();
        let before = known.with_entries(redirects, shorter, true);
        let after = known.with_entries(redirects, entries, true);
        lemma_reloaded_entries_noted(known, redirects, shorter);
        lemma_with_entries_keeps(before, redirects, seq![entries.last()], true);
        assert(seq![entries.last()].drop_last() =~= Seq::empty());
        reveal_with_fuel(Known::with_entries, 2);
        assert(before.with_entries(redirects, seq![entries.last()], true) == after);
        assert forall|i: int|
            #![trigger entries[i]]
            0 <= i < entries.len() && !entries[i].specifier.npm && (entry_for(
                redirects,
                entries[i],
            ) matches Some(found) && found is Module) implies module_noted(
            after.referrers,
            entries[i].result->Ok_0,
            redirects,
        ) by {
            if i < shorter.len() {
                assert(shorter[i] == entries[i]);
                lemma_module_stays_noted(
                    before.referrers,
                    after.referrers,
                    entries[i].result->Ok_0,
                    redirects,
                );
            } else {
                lemma_note_module_again(before.referrers, entries[i].result->Ok_0, redirects);
            }
        }
    }
}

/// Entries that are noted change no referrer.
proof fn lemma_noted_entries_change_no_referrer(
    known: Known,
    redirects: Map<SpecifierView, SpecifierView>,
    entries: Seq<GraphEntryView>,
)
    requires
        entries_noted(known.referrers, redirects, entries),
    ensures
        known.with_entries(redirects, entries, true).referrers == known.referrers,
    decreases entries.len(),
{
    if entries.len() > 0 {
        let shorter = entries.drop_last();
        assert forall|i: int|
            #![trigger shorter[i]]
            0 <= i < shorter.len() && !shorter[i].specifier.npm && (entry_for(
                redirects,
                shorter[i],
            ) matches Some(found) && found is Module) implies module_noted(
            known.referrers,
            shorter[i].result->Ok_0,
            redirects,
        ) by {
            assert(shorter[i] == entries[i]);
        }
        lemma_noted_entries_change_no_referrer(known, redirects, shorter);
        let entry = entries[entries.len() - 1];
        if let Ok(module) = entry.result {
            lemma_note_module_again(known.referrers, module, redirects);
        }
    }
}

/// What the last of `entries` that gives something to `specifier` gives it.
spec fn last_given(
    redirects: Map<SpecifierView, SpecifierView>,
    entries: Seq<GraphEntryView>,
    specifier: SpecifierView,
) -> Option<ModuleEntryView>
    decreases entries.len(),
{
    if entries.len() == 0 {
        None
    } else if entries.last().specifier == specifier && !specifier.npm && entry_for(
        redirects,
        entries.last(),
    ) is Some {
        entry_for(redirects, entries.last())
    } else {
        last_given(redirects, entries.drop_last(), specifier)
    }
}

/// Loading entries again leaves what the last of them gives.
proof fn lemma_reloaded_entry(
    known: Known,
    redirects: Map<SpecifierView, SpecifierView>,
    entries: Seq<GraphEntryView>,
    specifier: SpecifierView,
)
    ensures
        known.with_entries(redirects, entries, true).modules.get(specifier) == match last_given(
            redirects,
            entries,
            specifier,
        ) {
            Some(found) => Some(found),
            None => known.modules.get(specifier),
        },
    decreases entries.len(),
{
    if entries.len() > 0 {
        lemma_reloaded_entry(known, redirects, entries.drop_last(), specifier);
    }
}

/// A graph that is loaded a second time makes nothing more known of modules and
/// referrers.
pub proof fn law_reloading_again_learns_nothing(data: GraphDataView, graph: ModuleGraphView)
    ensures
        data.with_graph(graph, true).with_graph(graph, true).modules == data.with_graph(
            graph,
            true,
        ).modules,
        data.with_graph(graph, true).with_graph(graph, true).referrer_map == data.with_graph(
            graph,
            true,
        ).referrer_map,
{
    let noted = note_graph_imports(data.referrer_map, graph.imports);
    let before = Known { modules: data.modules, referrers: noted };
    let once = before.with_entries(graph.redirects, graph.specifiers, true);
    let twice = once.with_entries(graph.redirects, graph.specifiers, true);
    lemma_note_graph_imports(data.referrer_map, graph.imports);
    lemma_with_entries_keeps(before, graph.redirects, graph.specifiers, true);
    assert forall|i: int|
        #![trigger graph.imports[i]]
        0 <= i < graph.imports.len() implies imports_noted(
        once.referrers,
        graph.imports[i].dependencies,
        Map::empty(),
    ) by {
        lemma_imports_stay_noted(
            noted,
            once.referrers,
            graph.imports[i].dependencies,
            Map::empty(),
        );
    }
    lemma_note_graph_imports_again(once.referrers, graph.imports);
    assert(Known {
        modules: once.modules,
        referrers: note_graph_imports(once.referrers, graph.imports),
    } == once);
    lemma_reloaded_entries_noted(before, graph.redirects, graph.specifiers);
    lemma_noted_entries_change_no_referrer(once, graph.redirects, graph.specifiers);
    assert forall|s: SpecifierView| once.modules.get(s) == twice.modules.get(s) by {
        lemma_reloaded_entry(before, graph.redirects, graph.specifiers, s);
        lemma_reloaded_entry(once, graph.redirects, graph.specifiers, s);
    }
    assert forall|s: SpecifierView|
        once.modules.contains_key(s) == twice.modules.contains_key(s) by {
        assert(once.modules.get(s) == twice.modules.get(s));
    }
    assert forall|s: SpecifierView| #[trigger] once.modules.contains_key(s) implies once.modules[s]
        == twice.modules[s] by {
        assert(once.modules.get(s) == twice.modules.get(s));
    }
    assert(once.modules =~= twice.modules);
}

/// `graph` gives an entry to `specifier`.
pub open spec fn has_entry(graph: ModuleGraphView, specifier: SpecifierView) -> bool {
    exists|i: int|
        0 <= i < graph.specifiers.len() && (#[trigger] graph.specifiers[i]).specifier == specifier
            && entry_for(graph.redirects, graph.specifiers[i]) is Some
}

/// `graph` gives an entry to whatever it leads to: to its roots, to what
/// configurations import and to what its modules lead to, but for npm packages.
pub open spec fn is_closed(graph: ModuleGraphView) -> bool {
    let walk = GraphDataView::empty().with_graph(graph, false).walk(
        graph.roots,
        true,
        true,
        true,
    );
    &&& forall|s: SpecifierView| walk.starts_at(s) && !s.npm ==> #[trigger] has_entry(graph, s)
    &&& forall|i: int, s: SpecifierView|
        #![trigger graph.specifiers[i], has_entry(graph, s)]
        0 <= i < graph.specifiers.len() && (entry_for(graph.redirects, graph.specifiers[i])
            matches Some(entry) && walk.follows(entry, s)) && !s.npm ==> has_entry(graph, s)
}

/// Every entry that is known comes from the graph, if none was known before.
proof fn lemma_entries_come_from_graph(
    known: Known,
    redirects: Map<SpecifierView, SpecifierView>,
    entries: Seq<GraphEntryView>,
    specifier: SpecifierView,
)
    requires
        known.modules == Map::<SpecifierView, ModuleEntryView>::empty(),
        known.with_entries(redirects, entries, false).modules.contains_key(specifier),
    ensures
        exists|i: int|
            0 <= i < entries.len() && (#[trigger] entries[i]).specifier == specifier && entry_for(
                redirects,
                entries[i],
            ) == Some(known.with_entries(redirects, entries, false).modules[specifier]),
    decreases entries.len(),
{
    if entries.len() > 0 {
        let shorter = entries.drop_last();
        let before = known.with_entries(redirects, shorter, false);
        let after = known.with_entries(redirects, entries, false);
        if before.modules.contains_key(specifier) {
            lemma_entries_come_from_graph(known, redirects, shorter, specifier);
            let i = choose|i: int|
                0 <= i < shorter.len() && (#[trigger] shorter[i]).specifier == specifier
                    && entry_for(redirects, shorter[i]) == Some(before.modules[specifier]);
            assert(entries[i] == shorter[i]);
            assert(after.modules[specifier] == before.modules[specifier]);
        } else {
            assert(entries[entries.len() - 1].specifier == specifier);
        }
    }
}

/// In data composed from one closed graph every walk from the graph's roots is
/// complete, whatever it follows.
pub proof fn law_closed_graph_is_complete(
    graph: ModuleGraphView,
    follow_dynamic: bool,
    follow_type_only: bool,
    check_js: bool,
)
    requires
        is_closed(graph),
    ensures
        GraphDataView::empty().with_graph(graph, false).walk(
            graph.roots,
            follow_dynamic,
            follow_type_only,
            check_js,
        ).complete(),
{
    let data = GraphDataView::empty().with_graph(graph, false);
    let all = data.walk(graph.roots, true, true, true);
    let before = Known {
        modules: Map::<SpecifierView, ModuleEntryView>::empty(),
        referrers: note_graph_imports(Map::empty(), graph.imports),
    };
    assert forall|s: SpecifierView| #[trigger] has_entry(graph, s) && !s.npm implies
        data.modules.contains_key(s) by {
        let i = choose|i: int|
            0 <= i < graph.specifiers.len() && (#[trigger] graph.specifiers[i]).specifier == s
                && entry_for(graph.redirects, graph.specifiers[i]) is Some;
        lemma_nothing_left(before, graph.redirects, graph.specifiers);
        assert(before.with_entries(graph.redirects, graph.specifiers, false).skips(
            graph.specifiers[i],
            false,
        ));
    }
    let set = Set::new(|s: SpecifierView| s.npm || has_entry(graph, s));
    assert forall|s: SpecifierView| all.starts_at(s) implies set.contains(s) by {
        assert(s.npm || has_entry(graph, s));
    }
    assert forall|x: SpecifierView, y: SpecifierView|
        set.contains(x) && #[trigger] all.steps(x, y) implies set.contains(y) by {
        lemma_entries_come_from_graph(before, graph.redirects, graph.specifiers, x);
        let i = choose|i: int|
            0 <= i < graph.specifiers.len() && (#[trigger] graph.specifiers[i]).specifier == x
                && entry_for(graph.redirects, graph.specifiers[i]) == Some(data.modules[x]);
        assert(all.follows(data.modules[x], y));
        assert(y.npm || has_entry(graph, y));
    }
    all.lemma_reaches_within(set);
    assert forall|s: SpecifierView| #[trigger] all.visits(s) implies all.modules.contains_key(s) by {
        assert(all.reaches(s));
        assert(has_entry(graph, s));
    }
    law_following_more_visits_more(
        data.walk(graph.roots, follow_dynamic, follow_type_only, check_js),
        all,
    );
}

} // verus!
