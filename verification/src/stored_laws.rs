//! What is known after a graph was added, said of the graph itself.
use vstd::prelude::*;
use crate::addition::{
    Known, entry_for, note, note_graph_imports, note_imports, note_module, redirected,
};
use crate::dependency::ImportView;
use crate::graph_data::{GraphDataView, ModuleEntryView};
use crate::module_graph::{GraphEntryView, GraphImportView, ModuleGraphView, ModuleView};
use crate::resolution::{RangeView, ResolvedView};
use crate::specifier::SpecifierView;

verus! {

/// Entries that give nothing to `s` leave what is known of it.
proof fn lemma_nothing_given(
    known: Known,
    redirects: Map<SpecifierView, SpecifierView>,
    entries: Seq<GraphEntryView>,
    reload: bool,
    s: SpecifierView,
)
    requires
        s.npm || (!reload && known.modules.contains_key(s)) || forall|k: int|
            0 <= k < entries.len() && (#[trigger] entries[k]).specifier == s ==> entry_for(
                redirects,
                entries[k],
            ) is None,
    ensures
        known.with_entries(redirects, entries, reload).modules.contains_key(s)
            == known.modules.contains_key(s),
        known.modules.contains_key(s) ==> known.with_entries(redirects, entries, reload).modules[s]
            == known.modules[s],
    decreases entries.len(),
{
    if entries.len() > 0 {
        let shorter = entries.drop_last();
        if !s.npm && (reload || !known.modules.contains_key(s)) {
            assert forall|k: int|
                0 <= k < shorter.len() && (#[trigger] shorter[k]).specifier == s implies entry_for(
                redirects,
                shorter[k],
            ) is None by {
                assert(shorter[k] == entries[k]);
            }
            assert(entries[entries.len() - 1] == entries.last());
        }
        lemma_nothing_given(known, redirects, shorter, reload, s);
    }
}

/// What the deciding entry gives to its specifier is known afterwards: the last
/// that gives something where what is known is loaded again, else the first.
proof fn lemma_given(
    known: Known,
    redirects: Map<SpecifierView, SpecifierView>,
    entries: Seq<GraphEntryView>,
    reload: bool,
    i: int,
)
    requires
        0 <= i < entries.len(),
        !entries[i].specifier.npm,
        entry_for(redirects, entries[i]) is Some,
        reload ==> forall|k: int|
            i < k < entries.len() && (#[trigger] entries[k]).specifier == entries[i].specifier
                ==> entry_for(redirects, entries[k]) is None,
        !reload ==> !known.modules.contains_key(entries[i].specifier) && forall|k: int|
            0 <= k < i && (#[trigger] entries[k]).specifier == entries[i].specifier ==> entry_for(
                redirects,
                entries[k],
            ) is None,
    ensures
        known.with_entries(redirects, entries, reload).modules.contains_key(entries[i].specifier),
        Some(known.with_entries(redirects, entries, reload).modules[entries[i].specifier])
            == entry_for(redirects, entries[i]),
    decreases entries.len(),
{
    let shorter = entries.drop_last();
    let s = entries[i].specifier;
    if i < entries.len() - 1 {
        assert(shorter[i] == entries[i]);
        assert forall|k: int|
            #![trigger shorter[k]]
            0 <= k < shorter.len() implies shorter[k] == entries[k] by {}
        lemma_given(known, redirects, shorter, reload, i);
        assert(entries[entries.len() - 1] == entries.last());
    } else if !reload {
        assert forall|k: int|
            0 <= k < shorter.len() && (#[trigger] shorter[k]).specifier == s implies entry_for(
            redirects,
            shorter[k],
        ) is None by {
            assert(shorter[k] == entries[k]);
        }
        lemma_nothing_given(known, redirects, shorter, reload, s);
    }
}

/// What the graph says of one of its specifiers is known once the graph was
/// added: where it was redirected to, else the module, as it is and without
/// marks, else the error. That is what the first entry says that says something,
/// if the specifier was not known, and the last if what is known is loaded
/// again. A module without source says nothing.
pub proof fn law_entry_is_stored(
    data: GraphDataView,
    graph: ModuleGraphView,
    reload: bool,
    i: int,
)
    requires
        0 <= i < graph.specifiers.len(),
        !graph.specifiers[i].specifier.npm,
        graph.redirects.contains_key(graph.specifiers[i].specifier)
            || graph.specifiers[i].result is Err
            || graph.specifiers[i].result->Ok_0.maybe_source is Some,
        reload ==> forall|k: int|
            i < k < graph.specifiers.len() && (#[trigger] graph.specifiers[k]).specifier
                == graph.specifiers[i].specifier ==> !graph.redirects.contains_key(
                graph.specifiers[k].specifier,
            ) && graph.specifiers[k].result is Ok
                && graph.specifiers[k].result->Ok_0.maybe_source is None,
        !reload ==> !data.modules.contains_key(graph.specifiers[i].specifier) && forall|k: int|
            0 <= k < i && (#[trigger] graph.specifiers[k]).specifier
                == graph.specifiers[i].specifier ==> !graph.redirects.contains_key(
                graph.specifiers[k].specifier,
            ) && graph.specifiers[k].result is Ok
                && graph.specifiers[k].result->Ok_0.maybe_source is None,
    ensures
        ({
            let s = graph.specifiers[i].specifier;
            let after = data.with_graph(graph, reload).modules;
            &&& after.contains_key(s)
            &&& graph.redirects.contains_key(s) ==> after[s] == ModuleEntryView::Redirect(
                graph.redirects[s],
            )
            &&& !graph.redirects.contains_key(s) ==> match graph.specifiers[i].result {
                Ok(module) => after[s] == (ModuleEntryView::Module {
                    code: module.maybe_source->0,
                    dependencies: module.dependencies,
                    media_type: module.media_type,
                    checked_libs: Set::empty(),
                    maybe_types: module.maybe_types,
                }),
                Err(error) => after[s] == ModuleEntryView::Error(error),
            }
        }),
{
    let before = Known {
        modules: data.modules,
        referrers: note_graph_imports(data.referrer_map, graph.imports),
    };
    lemma_given(before, graph.redirects, graph.specifiers, reload, i);
}

/// What is known of a specifier stays as it is if it names an npm package, if it
/// is known and not loaded again, or if the graph says nothing of it: it does
/// not have it, or only as a module without source that was not redirected.
pub proof fn law_entry_is_left(
    data: GraphDataView,
    graph: ModuleGraphView,
    reload: bool,
    s: SpecifierView,
)
    requires
        s.npm || (!reload && data.modules.contains_key(s)) || forall|k: int|
            0 <= k < graph.specifiers.len() && (#[trigger] graph.specifiers[k]).specifier == s
                ==> !graph.redirects.contains_key(s) && graph.specifiers[k].result is Ok
                && graph.specifiers[k].result->Ok_0.maybe_source is None,
    ensures
        data.with_graph(graph, reload).modules.contains_key(s) == data.modules.contains_key(s),
        data.modules.contains_key(s) ==> data.with_graph(graph, reload).modules[s]
            == data.modules[s],
{
    let before = Known {
        modules: data.modules,
        referrers: note_graph_imports(data.referrer_map, graph.imports),
    };
    lemma_nothing_given(before, graph.redirects, graph.specifiers, reload, s);
}

/// The imports of configurations come behind those known, and the translations
/// stay. The npm packages that the graph requires come behind those known if one
/// of its specifiers names an npm package, else none do.
pub proof fn law_rest_is_stored(data: GraphDataView, graph: ModuleGraphView, reload: bool)
    ensures
        data.with_graph(graph, reload).graph_imports == data.graph_imports + graph.imports,
        data.with_graph(graph, reload).cjs_esm_translations == data.cjs_esm_translations,
        (exists|i: int|
            0 <= i < graph.specifiers.len() && (#[trigger] graph.specifiers[i]).specifier.npm)
            ==> data.with_graph(graph, reload).npm_packages == data.npm_packages
            + graph.npm_package_reqs,
        (forall|i: int|
            0 <= i < graph.specifiers.len() ==> !(#[trigger] graph.specifiers[i]).specifier.npm)
            ==> data.with_graph(graph, reload).npm_packages == data.npm_packages,
{
}

/// `resolved` leads to `t`, where that was redirected to.
spec fn points_to(
    resolved: ResolvedView,
    redirects: Map<SpecifierView, SpecifierView>,
    t: SpecifierView,
) -> bool {
    resolved matches ResolvedView::Found { specifier, .. } && redirected(redirects, specifier) == t
}

/// An import leads to `t` by its code or by its types.
spec fn import_points_to(
    import: ImportView,
    redirects: Map<SpecifierView, SpecifierView>,
    t: SpecifierView,
) -> bool {
    points_to(import.dependency.maybe_code, redirects, t) || points_to(
        import.dependency.maybe_type,
        redirects,
        t,
    )
}

/// Imports that do not lead to `t` leave its referrer.
proof fn lemma_imports_leave(
    referrers: Map<SpecifierView, RangeView>,
    imports: Seq<ImportView>,
    redirects: Map<SpecifierView, SpecifierView>,
    t: SpecifierView,
)
    requires
        referrers.contains_key(t) || forall|k: int|
            0 <= k < imports.len() ==> !import_points_to(#[trigger] imports[k], redirects, t),
    ensures
        note_imports(referrers, imports, redirects).contains_key(t) == referrers.contains_key(t),
        referrers.contains_key(t) ==> note_imports(referrers, imports, redirects)[t]
            == referrers[t],
    decreases imports.len(),
{
    if imports.len() > 0 {
        let shorter = imports.drop_last();
        assert forall|k: int|
            0 <= k < shorter.len() && !referrers.contains_key(t) implies !import_points_to(
            #[trigger] shorter[k],
            redirects,
            t,
        ) by {
            assert(shorter[k] == imports[k]);
        }
        lemma_imports_leave(referrers, shorter, redirects, t);
        assert(imports[imports.len() - 1] == imports.last());
    }
}

/// The first of `imports` that leads to `t` is its referrer, by its code if that
/// leads there, else by its types.
proof fn lemma_imports_refer(
    referrers: Map<SpecifierView, RangeView>,
    imports: Seq<ImportView>,
    redirects: Map<SpecifierView, SpecifierView>,
    t: SpecifierView,
    j: int,
)
    requires
        !referrers.contains_key(t),
        0 <= j < imports.len(),
        import_points_to(imports[j], redirects, t),
        forall|k: int|
            0 <= k < j ==> !import_points_to(#[trigger] imports[k], redirects, t),
    ensures
        note_imports(referrers, imports, redirects).contains_key(t),
        note_imports(referrers, imports, redirects)[t] == if points_to(
            imports[j].dependency.maybe_code,
            redirects,
            t,
        ) {
            imports[j].dependency.maybe_code->range
        } else {
            imports[j].dependency.maybe_type->range
        },
    decreases imports.len(),
{
    let shorter = imports.drop_last();
    assert forall|k: int| #![trigger shorter[k]] 0 <= k < shorter.len() implies shorter[k]
        == imports[k] by {}
    if j < imports.len() - 1 {
        lemma_imports_refer(referrers, shorter, redirects, t, j);
    } else {
        lemma_imports_leave(referrers, shorter, redirects, t);
    }
}

/// Configurations that do not lead to `t` leave its referrer.
proof fn lemma_configurations_leave(
    referrers: Map<SpecifierView, RangeView>,
    imports: Seq<GraphImportView>,
    t: SpecifierView,
)
    requires
        referrers.contains_key(t) || forall|i: int, j: int|
            0 <= i < imports.len() && 0 <= j < imports[i].dependencies.len() ==> !import_points_to(
                #[trigger] imports[i].dependencies[j],
                Map::empty(),
                t,
            ),
    ensures
        note_graph_imports(referrers, imports).contains_key(t) == referrers.contains_key(t),
        referrers.contains_key(t) ==> note_graph_imports(referrers, imports)[t] == referrers[t],
    decreases imports.len(),
{
    if imports.len() > 0 {
        let shorter = imports.drop_last();
        let last = imports[imports.len() - 1];
        assert forall|i: int, j: int|
            0 <= i < shorter.len() && 0 <= j < shorter[i].dependencies.len()
                && !referrers.contains_key(t) implies !import_points_to(
            #[trigger] shorter[i].dependencies[j],
            Map::empty(),
            t,
        ) by {
            assert(shorter[i] == imports[i]);
            assert(!import_points_to(imports[i].dependencies[j], Map::empty(), t));
        }
        lemma_configurations_leave(referrers, shorter, t);
        let before = note_graph_imports(referrers, shorter);
        assert forall|k: int|
            0 <= k < last.dependencies.len() && !before.contains_key(t) implies !import_points_to(
            #[trigger] last.dependencies[k],
            Map::empty(),
            t,
        ) by {
            assert(!import_points_to(
                imports[imports.len() - 1].dependencies[k],
                Map::empty(),
                t,
            ));
        }
        lemma_imports_leave(before, last.dependencies, Map::empty(), t);
    }
}

/// The first import of a configuration that leads to `t` is its referrer.
proof fn lemma_configurations_refer(
    referrers: Map<SpecifierView, RangeView>,
    imports: Seq<GraphImportView>,
    t: SpecifierView,
    i: int,
    j: int,
)
    requires
        !referrers.contains_key(t),
        0 <= i < imports.len(),
        0 <= j < imports[i].dependencies.len(),
        import_points_to(imports[i].dependencies[j], Map::empty(), t),
        forall|k: int, l: int|
            0 <= k <= i && 0 <= l < imports[k].dependencies.len() && (k < i || l < j)
                ==> !import_points_to(#[trigger] imports[k].dependencies[l], Map::empty(), t),
    ensures
        note_graph_imports(referrers, imports).contains_key(t),
        note_graph_imports(referrers, imports)[t] == if points_to(
            imports[i].dependencies[j].dependency.maybe_code,
            Map::empty(),
            t,
        ) {
            imports[i].dependencies[j].dependency.maybe_code->range
        } else {
            imports[i].dependencies[j].dependency.maybe_type->range
        },
    decreases imports.len(),
{
    let shorter = imports.drop_last();
    let before = note_graph_imports(referrers, shorter);
    let last = imports[imports.len() - 1];
    assert forall|k: int, l: int|
        0 <= k <= i && k < shorter.len() && 0 <= l < shorter[k].dependencies.len() && (k < i || l
            < j) implies !import_points_to(
        #[trigger] shorter[k].dependencies[l],
        Map::empty(),
        t,
    ) by {
        assert(!import_points_to(imports[k].dependencies[l], Map::empty(), t));
    }
    if i < imports.len() - 1 {
        assert(shorter[i] == imports[i]);
        lemma_configurations_refer(referrers, shorter, t, i, j);
        lemma_imports_leave(before, last.dependencies, Map::empty(), t);
    } else {
        lemma_configurations_leave(referrers, shorter, t);
        assert forall|k: int| 0 <= k < j implies !import_points_to(
            #[trigger] last.dependencies[k],
            Map::empty(),
            t,
        ) by {
            assert(!import_points_to(imports[i].dependencies[k], Map::empty(), t));
        }
        lemma_imports_refer(before, last.dependencies, Map::empty(), t, j);
    }
}

/// A module leads to `t` by its types or by an import.
spec fn module_points_to(
    module: ModuleView,
    redirects: Map<SpecifierView, SpecifierView>,
    t: SpecifierView,
) -> bool {
    ||| module.maybe_types matches Some(types) && points_to(types, redirects, t)
    ||| exists|j: int|
        0 <= j < module.dependencies.len() && import_points_to(
            #[trigger] module.dependencies[j],
            redirects,
            t,
        )
}

/// A module that does not lead to `t` leaves its referrer.
proof fn lemma_module_leaves(
    referrers: Map<SpecifierView, RangeView>,
    module: ModuleView,
    redirects: Map<SpecifierView, SpecifierView>,
    t: SpecifierView,
)
    requires
        referrers.contains_key(t) || !module_points_to(module, redirects, t),
    ensures
        note_module(referrers, module, redirects).contains_key(t) == referrers.contains_key(t),
        referrers.contains_key(t) ==> note_module(referrers, module, redirects)[t] == referrers[t],
{
    let with_types = match module.maybe_types {
        Some(types) => note(referrers, types, redirects),
        None => referrers,
    };
    assert(with_types.contains_key(t) == referrers.contains_key(t));
    lemma_imports_leave(with_types, module.dependencies, redirects, t);
}

/// The entry at `i` is taken over as a module: it is one with source, neither an
/// npm package nor redirected, and is loaded again or the first that says
/// something of a specifier that was not known.
spec fn taken_over(
    known: Known,
    redirects: Map<SpecifierView, SpecifierView>,
    entries: Seq<GraphEntryView>,
    reload: bool,
    i: int,
) -> bool {
    &&& !entries[i].specifier.npm
    &&& entry_for(redirects, entries[i]) matches Some(found) && found is Module
    &&& reload || (!known.modules.contains_key(entries[i].specifier) && forall|k: int|
        0 <= k < i && (#[trigger] entries[k]).specifier == entries[i].specifier ==> entry_for(
            redirects,
            entries[k],
        ) is None)
}

/// What the last of `entries` does to the referrers.
proof fn lemma_last_entry(
    known: Known,
    redirects: Map<SpecifierView, SpecifierView>,
    entries: Seq<GraphEntryView>,
    reload: bool,
)
    requires
        entries.len() > 0,
    ensures
        known.with_entries(redirects, entries, reload).referrers == if taken_over(
            known,
            redirects,
            entries,
            reload,
            entries.len() - 1,
        ) {
            note_module(
                known.with_entries(redirects, entries.drop_last(), reload).referrers,
                entries.last().result->Ok_0,
                redirects,
            )
        } else {
            known.with_entries(redirects, entries.drop_last(), reload).referrers
        },
{
    let shorter = entries.drop_last();
    let last = entries[entries.len() - 1];
    let before = known.with_entries(redirects, shorter, reload);
    if !last.specifier.npm && !reload {
        if known.modules.contains_key(last.specifier) {
            lemma_nothing_given(known, redirects, shorter, reload, last.specifier);
        } else if forall|k: int|
            0 <= k < entries.len() - 1 && (#[trigger] entries[k]).specifier == last.specifier
                ==> entry_for(redirects, entries[k]) is None {
            assert forall|k: int|
                0 <= k < shorter.len() && (#[trigger] shorter[k]).specifier
                    == last.specifier implies entry_for(redirects, shorter[k]) is None by {
                assert(shorter[k] == entries[k]);
            }
            lemma_nothing_given(known, redirects, shorter, reload, last.specifier);
        } else {
            let k = choose|k: int|
                0 <= k < entries.len() - 1 && (#[trigger] entries[k]).specifier == last.specifier
                    && entry_for(redirects, entries[k]) is Some;
            assert(shorter[k] == entries[k]);
            lemma_something_given(known, redirects, shorter, k);
            assert(before.modules.contains_key(last.specifier));
        }
    }
}

/// After an entry that gives something, its specifier is known.
proof fn lemma_something_given(
    known: Known,
    redirects: Map<SpecifierView, SpecifierView>,
    entries: Seq<GraphEntryView>,
    k: int,
)
    requires
        0 <= k < entries.len(),
        !entries[k].specifier.npm,
        entry_for(redirects, entries[k]) is Some,
    ensures
        known.with_entries(redirects, entries, false).modules.contains_key(entries[k].specifier),
    decreases entries.len(),
{
    if k < entries.len() - 1 {
        assert(entries.drop_last()[k] == entries[k]);
        lemma_something_given(known, redirects, entries.drop_last(), k);
    }
}

/// Whether an entry is taken over does not depend on those behind it.
proof fn lemma_taken_over_prefix(
    known: Known,
    redirects: Map<SpecifierView, SpecifierView>,
    entries: Seq<GraphEntryView>,
    reload: bool,
    i: int,
)
    requires
        0 <= i < entries.len() - 1,
    ensures
        taken_over(known, redirects, entries, reload, i) == taken_over(
            known,
            redirects,
            entries.drop_last(),
            reload,
            i,
        ),
{
    let shorter = entries.drop_last();
    assert(shorter[i] == entries[i]);
    assert forall|k: int| #![trigger shorter[k]] #![trigger entries[k]] 0 <= k < i implies shorter[k]
        == entries[k] by {}
}

/// Entries that do not lead to `t` leave its referrer.
proof fn lemma_entries_leave(
    known: Known,
    redirects: Map<SpecifierView, SpecifierView>,
    entries: Seq<GraphEntryView>,
    reload: bool,
    t: SpecifierView,
)
    requires
        known.referrers.contains_key(t) || forall|i: int|
            #![trigger entries[i]]
            0 <= i < entries.len() && taken_over(known, redirects, entries, reload, i)
                ==> !module_points_to(entries[i].result->Ok_0, redirects, t),
    ensures
        known.with_entries(redirects, entries, reload).referrers.contains_key(t)
            == known.referrers.contains_key(t),
        known.referrers.contains_key(t) ==> known.with_entries(
            redirects,
            entries,
            reload,
        ).referrers[t] == known.referrers[t],
    decreases entries.len(),
{
    if entries.len() > 0 {
        let shorter = entries.drop_last();
        assert forall|i: int|
            #![trigger shorter[i]]
            0 <= i < shorter.len() && !known.referrers.contains_key(t) && taken_over(
                known,
                redirects,
                shorter,
                reload,
                i,
            ) implies !module_points_to(shorter[i].result->Ok_0, redirects, t) by {
            lemma_taken_over_prefix(known, redirects, entries, reload, i);
            assert(shorter[i] == entries[i]);
        }
        lemma_entries_leave(known, redirects, shorter, reload, t);
        lemma_last_entry(known, redirects, entries, reload);
        let before = known.with_entries(redirects, shorter, reload);
        if taken_over(known, redirects, entries, reload, entries.len() - 1) {
            assert(entries[entries.len() - 1] == entries.last());
            lemma_module_leaves(before.referrers, entries.last().result->Ok_0, redirects, t);
        }
    }
}

/// The first entry taken over that leads to `t` has its referrer.
proof fn lemma_entries_refer(
    known: Known,
    redirects: Map<SpecifierView, SpecifierView>,
    entries: Seq<GraphEntryView>,
    reload: bool,
    t: SpecifierView,
    i: int,
)
    requires
        !known.referrers.contains_key(t),
        0 <= i < entries.len(),
        taken_over(known, redirects, entries, reload, i),
        module_points_to(entries[i].result->Ok_0, redirects, t),
        forall|k: int|
            #![trigger entries[k]]
            0 <= k < i && taken_over(known, redirects, entries, reload, k) ==> !module_points_to(
                entries[k].result->Ok_0,
                redirects,
                t,
            ),
    ensures
        exists|before: Map<SpecifierView, RangeView>|
            !before.contains_key(t) && known.with_entries(
                redirects,
                entries,
                reload,
            ).referrers.contains_key(t) == (#[trigger] note_module(
                before,
                entries[i].result->Ok_0,
                redirects,
            )).contains_key(t) && known.with_entries(redirects, entries, reload).referrers[t]
                == note_module(before, entries[i].result->Ok_0, redirects)[t],
    decreases entries.len(),
{
    let shorter = entries.drop_last();
    let before = known.with_entries(redirects, shorter, reload);
    let module = entries[i].result->Ok_0;
    lemma_last_entry(known, redirects, entries, reload);
    if i < entries.len() - 1 {
        assert(shorter[i] == entries[i]);
        lemma_taken_over_prefix(known, redirects, entries, reload, i);
        assert forall|k: int|
            #![trigger shorter[k]]
            0 <= k < i && taken_over(known, redirects, shorter, reload, k) implies !module_points_to(
            shorter[k].result->Ok_0,
            redirects,
            t,
        ) by {
            lemma_taken_over_prefix(known, redirects, entries, reload, k);
            assert(shorter[k] == entries[k]);
        }
        lemma_entries_refer(known, redirects, shorter, reload, t, i);
        let first = choose|first: Map<SpecifierView, RangeView>|
            !first.contains_key(t) && before.referrers.contains_key(t) == (#[trigger] note_module(
                first,
                module,
                redirects,
            )).contains_key(t) && before.referrers[t] == note_module(first, module, redirects)[t];
        lemma_module_refers(first, module, redirects, t);
        if taken_over(known, redirects, entries, reload, entries.len() - 1) {
            lemma_module_leaves(before.referrers, entries.last().result->Ok_0, redirects, t);
        }
    } else {
        assert forall|k: int|
            #![trigger shorter[k]]
            0 <= k < shorter.len() && taken_over(
                known,
                redirects,
                shorter,
                reload,
                k,
            ) implies !module_points_to(shorter[k].result->Ok_0, redirects, t) by {
            lemma_taken_over_prefix(known, redirects, entries, reload, k);
            assert(shorter[k] == entries[k]);
        }
        lemma_entries_leave(known, redirects, shorter, reload, t);
        assert(entries[entries.len() - 1] == entries.last());
        assert(note_module(before.referrers, module, redirects).contains_key(t)
            == known.with_entries(redirects, entries, reload).referrers.contains_key(t));
    }
}

/// A module that leads to `t` gives it a referrer.
proof fn lemma_module_refers(
    referrers: Map<SpecifierView, RangeView>,
    module: ModuleView,
    redirects: Map<SpecifierView, SpecifierView>,
    t: SpecifierView,
)
    requires
        module_points_to(module, redirects, t),
    ensures
        note_module(referrers, module, redirects).contains_key(t),
    decreases module.dependencies.len(),
{
    let with_types = match module.maybe_types {
        Some(types) => note(referrers, types, redirects),
        None => referrers,
    };
    if with_types.contains_key(t) {
        lemma_imports_leave(with_types, module.dependencies, redirects, t);
    } else {
        let j = lemma_first_pointer(module.dependencies, redirects, t);
        lemma_imports_refer(with_types, module.dependencies, redirects, t, j);
    }
}

/// Of imports that lead to `t` there is a first.
proof fn lemma_first_pointer(
    imports: Seq<ImportView>,
    redirects: Map<SpecifierView, SpecifierView>,
    t: SpecifierView,
) -> (j: int)
    requires
        exists|j: int|
            0 <= j < imports.len() && import_points_to(#[trigger] imports[j], redirects, t),
    ensures
        0 <= j < imports.len(),
        import_points_to(imports[j], redirects, t),
        forall|k: int| 0 <= k < j ==> !import_points_to(#[trigger] imports[k], redirects, t),
    decreases imports.len(),
{
    let shorter = imports.drop_last();
    if exists|j: int|
        0 <= j < shorter.len() && import_points_to(#[trigger] shorter[j], redirects, t) {
        let j = lemma_first_pointer(shorter, redirects, t);
        assert forall|k: int| 0 <= k < j implies !import_points_to(
            #[trigger] imports[k],
            redirects,
            t,
        ) by {
            assert(shorter[k] == imports[k]);
        }
        assert(imports[j] == shorter[j]);
        j
    } else {
        assert forall|k: int| 0 <= k < imports.len() - 1 implies !import_points_to(
            #[trigger] imports[k],
            redirects,
            t,
        ) by {
            assert(shorter[k] == imports[k]);
        }
        imports.len() - 1
    }
}

/// A module has as its first known referrer, if it had none, the first import of
/// a configuration that was resolved to it, by the code before the types.
pub proof fn law_configurations_come_first(
    data: GraphDataView,
    graph: ModuleGraphView,
    reload: bool,
    t: SpecifierView,
    i: int,
    j: int,
)
    requires
        !data.referrer_map.contains_key(t),
        0 <= i < graph.imports.len(),
        0 <= j < graph.imports[i].dependencies.len(),
        ({
            let leads = |r: ResolvedView|
                r matches ResolvedView::Found { specifier, .. } && specifier == t;
            let all = graph.imports;
            &&& leads(all[i].dependencies[j].dependency.maybe_code) || leads(
                all[i].dependencies[j].dependency.maybe_type,
            )
            &&& forall|k: int, l: int|
                #![trigger all[k].dependencies[l]]
                0 <= k <= i && 0 <= l < all[k].dependencies.len() && (k < i || l < j) ==> !leads(
                    all[k].dependencies[l].dependency.maybe_code,
                ) && !leads(all[k].dependencies[l].dependency.maybe_type)
        }),
    ensures
        ({
            let after = data.with_graph(graph, reload).referrer_map;
            let dependency = graph.imports[i].dependencies[j].dependency;
            &&& after.contains_key(t)
            &&& after[t] == match dependency.maybe_code {
                ResolvedView::Found { specifier, range, .. } if specifier == t => range,
                _ => dependency.maybe_type->range,
            }
        }),
{
    let before = Known {
        modules: data.modules,
        referrers: note_graph_imports(data.referrer_map, graph.imports),
    };
    assert(import_points_to(graph.imports[i].dependencies[j], Map::empty(), t));
    lemma_configurations_refer(data.referrer_map, graph.imports, t, i, j);
    lemma_entries_leave(before, graph.redirects, graph.specifiers, reload, t);
}

/// A module has as its first known referrer, if it had none and no configuration
/// imports it, the first module taken over from the graph that leads to it, or
/// to where it was redirected from: by its types, else by the first of its
/// imports that leads there, by the code before the types. A module is taken
/// over if it has source, is no npm package, was not redirected, and is loaded
/// again or was not known and comes first.
pub proof fn law_first_import_is_the_referrer(
    data: GraphDataView,
    graph: ModuleGraphView,
    reload: bool,
    t: SpecifierView,
    i: int,
    j: int,
)
    requires
        !data.referrer_map.contains_key(t),
        0 <= i < graph.specifiers.len(),
        ({
            let configured = |r: ResolvedView|
                r matches ResolvedView::Found { specifier, .. } && specifier == t;
            let leads = |r: ResolvedView|
                r matches ResolvedView::Found { specifier, .. } && (
                if graph.redirects.contains_key(specifier) {
                    graph.redirects[specifier]
                } else {
                    specifier
                }) == t;
            let says_nothing = |e: GraphEntryView|
                !graph.redirects.contains_key(e.specifier) && e.result is Ok
                    && e.result->Ok_0.maybe_source is None;
            let all = graph.specifiers;
            let taken = |k: int|
                !all[k].specifier.npm && !graph.redirects.contains_key(all[k].specifier)
                    && all[k].result is Ok && all[k].result->Ok_0.maybe_source is Some && (reload
                    || (!data.modules.contains_key(all[k].specifier) && forall|l: int|
                    0 <= l < k && (#[trigger] all[l]).specifier == all[k].specifier
                        ==> says_nothing(all[l])));
            let module = all[i].result->Ok_0;
            &&& forall|k: int, l: int|
                #![trigger graph.imports[k].dependencies[l]]
                0 <= k < graph.imports.len() && 0 <= l < graph.imports[k].dependencies.len()
                    ==> !configured(graph.imports[k].dependencies[l].dependency.maybe_code)
                    && !configured(graph.imports[k].dependencies[l].dependency.maybe_type)
            &&& taken(i)
            &&& forall|k: int|
                #![trigger all[k]]
                0 <= k < i && taken(k) ==> !(
                all[k].result->Ok_0.maybe_types matches Some(types) && leads(types))
            &&& forall|k: int, l: int|
                #![trigger all[k].result->Ok_0.dependencies[l]]
                0 <= k < i && taken(k) && 0 <= l
                    < all[k].result->Ok_0.dependencies.len() ==> !leads(
                    all[k].result->Ok_0.dependencies[l].dependency.maybe_code,
                ) && !leads(all[k].result->Ok_0.dependencies[l].dependency.maybe_type)
            &&& (module.maybe_types matches Some(types) && leads(types)) || {
                &&& 0 <= j < module.dependencies.len()
                &&& leads(module.dependencies[j].dependency.maybe_code) || leads(
                    module.dependencies[j].dependency.maybe_type,
                )
                &&& forall|l: int|
                    #![trigger module.dependencies[l]]
                    0 <= l < j ==> !leads(module.dependencies[l].dependency.maybe_code) && !leads(
                        module.dependencies[l].dependency.maybe_type,
                    )
            }
        }),
    ensures
        ({
            let leads = |r: ResolvedView|
                r matches ResolvedView::Found { specifier, .. } && (
                if graph.redirects.contains_key(specifier) {
                    graph.redirects[specifier]
                } else {
                    specifier
                }) == t;
            let after = data.with_graph(graph, reload).referrer_map;
            let module = graph.specifiers[i].result->Ok_0;
            &&& after.contains_key(t)
            &&& after[t] == if module.maybe_types matches Some(types) && leads(types) {
                module.maybe_types->0->range
            } else if leads(module.dependencies[j].dependency.maybe_code) {
                module.dependencies[j].dependency.maybe_code->range
            } else {
                module.dependencies[j].dependency.maybe_type->range
            }
        }),
{
    let before = Known {
        modules: data.modules,
        referrers: note_graph_imports(data.referrer_map, graph.imports),
    };
    let all = graph.specifiers;
    let redirects = graph.redirects;
    let module = all[i].result->Ok_0;
    assert forall|k: int, l: int|
        0 <= k < graph.imports.len() && 0 <= l
            < graph.imports[k].dependencies.len() implies !import_points_to(
        #[trigger] graph.imports[k].dependencies[l],
        Map::empty(),
        t,
    ) by {}
    lemma_configurations_leave(data.referrer_map, graph.imports, t);
    assert(taken_over(before, redirects, all, reload, i));
    assert(module_points_to(module, redirects, t)) by {
        if !(module.maybe_types matches Some(types) && points_to(types, redirects, t)) {
            assert(import_points_to(module.dependencies[j], redirects, t));
        }
    }
    assert forall|k: int|
        #![trigger all[k]]
        0 <= k < i && taken_over(before, redirects, all, reload, k) implies !module_points_to(
        all[k].result->Ok_0,
        redirects,
        t,
    ) by {
        assert(all[k].result is Ok);
        assert forall|l: int|
            0 <= l < all[k].result->Ok_0.dependencies.len() implies !import_points_to(
            #[trigger] all[k].result->Ok_0.dependencies[l],
            redirects,
            t,
        ) by {}
    }
    lemma_entries_refer(before, redirects, all, reload, t, i);
    let first = choose|first: Map<SpecifierView, RangeView>|
        !first.contains_key(t) && before.with_entries(
            redirects,
            all,
            reload,
        ).referrers.contains_key(t) == (#[trigger] note_module(
            first,
            module,
            redirects,
        )).contains_key(t) && before.with_entries(redirects, all, reload).referrers[t]
            == note_module(first, module, redirects)[t];
    let with_types = match module.maybe_types {
        Some(types) => note(first, types, redirects),
        None => first,
    };
    if module.maybe_types matches Some(types) && points_to(types, redirects, t) {
        lemma_imports_leave(with_types, module.dependencies, redirects, t);
    } else {
        assert forall|l: int| 0 <= l < j implies !import_points_to(
            #[trigger] module.dependencies[l],
            redirects,
            t,
        ) by {}
        lemma_imports_refer(with_types, module.dependencies, redirects, t, j);
    }
}

/// A module keeps the referrer it has, and gets none if it has none and neither a
/// configuration nor a module taken over from the graph leads to it.
pub proof fn law_no_other_referrer(
    data: GraphDataView,
    graph: ModuleGraphView,
    reload: bool,
    t: SpecifierView,
)
    requires
        data.referrer_map.contains_key(t) || ({
            let configured = |r: ResolvedView|
                r matches ResolvedView::Found { specifier, .. } && specifier == t;
            let leads = |r: ResolvedView|
                r matches ResolvedView::Found { specifier, .. } && (
                if graph.redirects.contains_key(specifier) {
                    graph.redirects[specifier]
                } else {
                    specifier
                }) == t;
            let says_nothing = |e: GraphEntryView|
                !graph.redirects.contains_key(e.specifier) && e.result is Ok
                    && e.result->Ok_0.maybe_source is None;
            let all = graph.specifiers;
            let taken = |k: int|
                !all[k].specifier.npm && !graph.redirects.contains_key(all[k].specifier)
                    && all[k].result is Ok && all[k].result->Ok_0.maybe_source is Some && (reload
                    || (!data.modules.contains_key(all[k].specifier) && forall|l: int|
                    0 <= l < k && (#[trigger] all[l]).specifier == all[k].specifier
                        ==> says_nothing(all[l])));
            &&& forall|k: int, l: int|
                #![trigger graph.imports[k].dependencies[l]]
                0 <= k < graph.imports.len() && 0 <= l < graph.imports[k].dependencies.len()
                    ==> !configured(graph.imports[k].dependencies[l].dependency.maybe_code)
                    && !configured(graph.imports[k].dependencies[l].dependency.maybe_type)
            &&& forall|k: int|
                #![trigger all[k]]
                0 <= k < all.len() && taken(k) ==> !(
                all[k].result->Ok_0.maybe_types matches Some(types) && leads(types))
            &&& forall|k: int, l: int|
                #![trigger all[k].result->Ok_0.dependencies[l]]
                0 <= k < all.len() && taken(k) && 0 <= l
                    < all[k].result->Ok_0.dependencies.len() ==> !leads(
                    all[k].result->Ok_0.dependencies[l].dependency.maybe_code,
                ) && !leads(all[k].result->Ok_0.dependencies[l].dependency.maybe_type)
        }),
    ensures
        data.with_graph(graph, reload).referrer_map.contains_key(t)
            == data.referrer_map.contains_key(t),
        data.referrer_map.contains_key(t) ==> data.with_graph(graph, reload).referrer_map[t]
            == data.referrer_map[t],
{
    let before = Known {
        modules: data.modules,
        referrers: note_graph_imports(data.referrer_map, graph.imports),
    };
    let all = graph.specifiers;
    let redirects = graph.redirects;
    if !data.referrer_map.contains_key(t) {
        assert forall|k: int, l: int|
            0 <= k < graph.imports.len() && 0 <= l
                < graph.imports[k].dependencies.len() implies !import_points_to(
            #[trigger] graph.imports[k].dependencies[l],
            Map::empty(),
            t,
        ) by {}
        assert forall|k: int|
            #![trigger all[k]]
            0 <= k < all.len() && taken_over(
                before,
                redirects,
                all,
                reload,
                k,
            ) implies !module_points_to(all[k].result->Ok_0, redirects, t) by {
            assert(all[k].result is Ok);
            assert forall|l: int|
                0 <= l < all[k].result->Ok_0.dependencies.len() implies !import_points_to(
                #[trigger] all[k].result->Ok_0.dependencies[l],
                redirects,
                t,
            ) by {}
        }
    }
    lemma_configurations_leave(data.referrer_map, graph.imports, t);
    lemma_entries_leave(before, redirects, all, reload, t);
}

} // verus!
