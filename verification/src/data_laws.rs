//! What the operations on the data do, said of the data itself.
use vstd::prelude::*;
use crate::dependency::ImportView;
use crate::graph_data::{GraphDataView, ModuleEntryView, TsTypeLib, imported_by};
use crate::module_graph::GraphImportView;
use crate::resolution::ModuleKind;
use crate::specifier::SpecifierView;

verus! {

/// Data without graphs is empty.
pub proof fn law_empty_data()
    ensures
        forall|s: SpecifierView| !(#[trigger] GraphDataView::empty().modules.contains_key(s)),
        forall|s: SpecifierView| !(#[trigger] GraphDataView::empty().referrer_map.contains_key(s)),
        forall|s: SpecifierView| !(
        #[trigger] GraphDataView::empty().cjs_esm_translations.contains_key(s)),
        GraphDataView::empty().npm_packages.len() == 0,
        GraphDataView::empty().graph_imports.len() == 0,
{
}

/// A segment is to be had exactly if the walk that follows everything is
/// complete. It holds what that walk finds, with the referrers of that alone, and
/// all npm packages and configured imports, but no translations.
pub proof fn law_segment(data: GraphDataView, roots: Seq<(SpecifierView, ModuleKind)>)
    ensures
        ({
            let outcome = data.walk(roots, true, true, true).outcome();
            let segment = data.segment(roots);
            &&& segment is Some <==> outcome is Some
            &&& segment is Some ==> {
                &&& forall|s: SpecifierView| #[trigger]
                    segment->0.modules.contains_key(s) <==> outcome->0.contains_key(s)
                &&& forall|s: SpecifierView| #[trigger]
                    segment->0.modules.contains_key(s) ==> data.modules.contains_key(s)
                        && segment->0.modules[s] == data.modules[s]
                &&& forall|s: SpecifierView| #[trigger]
                    segment->0.referrer_map.contains_key(s) <==> outcome->0.contains_key(s)
                        && data.referrer_map.contains_key(s)
                &&& forall|s: SpecifierView| #[trigger]
                    segment->0.referrer_map.contains_key(s) ==> segment->0.referrer_map[s]
                        == data.referrer_map[s]
                &&& segment->0.npm_packages == data.npm_packages
                &&& segment->0.graph_imports == data.graph_imports
                &&& forall|s: SpecifierView| !(
                #[trigger] segment->0.cjs_esm_translations.contains_key(s))
            }
        }),
{
}

/// Marking adds the library to the modules that the walk finds which follows
/// everything, and to no other, and changes nothing else.
pub proof fn law_marking(
    data: GraphDataView,
    roots: Seq<(SpecifierView, ModuleKind)>,
    lib: TsTypeLib,
)
    requires
        data.walk(roots, true, true, true).outcome() is Some,
    ensures
        ({
            let found = data.walk(roots, true, true, true).outcome()->0;
            let after = data.with_checked(roots, lib);
            &&& forall|s: SpecifierView| #[trigger]
                after.modules.contains_key(s) <==> data.modules.contains_key(s)
            &&& forall|s: SpecifierView| #[trigger]
                after.modules.contains_key(s) ==> match data.modules[s] {
                    ModuleEntryView::Module {
                        code,
                        dependencies,
                        media_type,
                        checked_libs,
                        maybe_types,
                    } => {
                        &&& after.modules[s] is Module
                        &&& after.modules[s]->code == code
                        &&& after.modules[s]->dependencies == dependencies
                        &&& after.modules[s]->media_type == media_type
                        &&& after.modules[s]->maybe_types == maybe_types
                        &&& forall|l: TsTypeLib| #[trigger]
                            after.modules[s]->checked_libs.contains(l) <==> checked_libs.contains(l)
                                || (l == lib && found.contains_key(s))
                    },
                    _ => after.modules[s] == data.modules[s],
                }
            &&& after.referrer_map == data.referrer_map
            &&& after.npm_packages == data.npm_packages
            &&& after.graph_imports == data.graph_imports
            &&& after.cjs_esm_translations == data.cjs_esm_translations
        }),
{
    let walk = data.walk(roots, true, true, true);
    assert forall|s: SpecifierView| data.modules.contains_key(s) implies walk.visits(s)
        == #[trigger] walk.outcome()->0.contains_key(s) by {}
}

/// Roots are found checked under a library exactly if every one of them is, in
/// itself or where it was redirected to, a module that holds the library.
pub proof fn law_every_root_is_checked(
    data: GraphDataView,
    roots: Seq<(SpecifierView, ModuleKind)>,
    lib: TsTypeLib,
)
    ensures
        data.type_checked(roots, lib) <==> forall|i: int|
            0 <= i < roots.len() ==> {
                let root = (#[trigger] roots[i]).0;
                let target = if data.modules.contains_key(root) && data.modules[root] is Redirect {
                    data.modules[root]->Redirect_0
                } else {
                    root
                };
                &&& data.modules.contains_key(target)
                &&& data.modules[target] is Module
                &&& data.modules[target]->checked_libs.contains(lib)
            },
{
    if data.type_checked(roots, lib) {
        assert forall|i: int| 0 <= i < roots.len() implies data.passed(
            data.followed((#[trigger] roots[i]).0),
            lib,
        ) by {}
    }
}

/// Joined roots are found checked exactly if both parts are.
pub proof fn law_joined_roots_are_checked(
    data: GraphDataView,
    first: Seq<(SpecifierView, ModuleKind)>,
    second: Seq<(SpecifierView, ModuleKind)>,
    lib: TsTypeLib,
)
    ensures
        data.type_checked(first + second, lib) <==> data.type_checked(first, lib)
            && data.type_checked(second, lib),
{
    law_every_root_is_checked(data, first + second, lib);
    law_every_root_is_checked(data, first, lib);
    law_every_root_is_checked(data, second, lib);
    let all = first + second;
    if data.type_checked(all, lib) {
        assert forall|i: int| 0 <= i < first.len() implies data.passed(
            data.followed((#[trigger] first[i]).0),
            lib,
        ) by {
            assert(all[i] == first[i]);
        }
        assert forall|i: int| 0 <= i < second.len() implies data.passed(
            data.followed((#[trigger] second[i]).0),
            lib,
        ) by {
            assert(all[first.len() + i] == second[i]);
        }
    }
    if data.type_checked(first, lib) && data.type_checked(second, lib) {
        assert forall|i: int| 0 <= i < all.len() implies data.passed(
            data.followed((#[trigger] all[i]).0),
            lib,
        ) by {
            if i < first.len() {
                assert(all[i] == first[i]);
            } else {
                assert(all[i] == second[i - first.len()]);
            }
        }
    }
}

/// A specifier is followed to the target of its redirect, once, and to itself if
/// it was not redirected.
pub proof fn law_redirect_is_followed(data: GraphDataView, s: SpecifierView)
    ensures
        data.modules.contains_key(s) && data.modules[s] is Redirect ==> data.modules[s]
            == ModuleEntryView::Redirect(data.followed(s)),
        !(data.modules.contains_key(s) && data.modules[s] is Redirect) ==> data.followed(s) == s,
{
}

/// The first configuration with a referrer gives its imports; without one there
/// are none.
proof fn lemma_imported_by(imports: Seq<GraphImportView>, referrer: SpecifierView, i: int)
    requires
        0 <= i <= imports.len(),
        i < imports.len() ==> imports[i].referrer == referrer,
        forall|k: int| 0 <= k < i ==> (#[trigger] imports[k]).referrer != referrer,
    ensures
        imported_by(imports, referrer) == if i < imports.len() {
            Some(imports[i].dependencies)
        } else {
            None
        },
    decreases imports.len(),
{
    if imports.len() > 0 && i > 0 {
        let later = imports.drop_first();
        assert(imports[0].referrer != referrer);
        assert forall|k: int| 0 <= k < i - 1 implies (#[trigger] later[k]).referrer != referrer by {
            assert(later[k] == imports[k + 1]);
        }
        lemma_imported_by(later, referrer, i - 1);
    }
}

/// The dependencies of a specifier are all those of the module that it is, or to
/// which it was redirected. Where that is no module, they are those of the first
/// configuration, at position `i`, that is it; there are none without one.
pub proof fn law_dependencies(data: GraphDataView, s: SpecifierView, i: int)
    requires
        ({
            let target = if data.modules.contains_key(s) && data.modules[s] is Redirect {
                data.modules[s]->Redirect_0
            } else {
                s
            };
            &&& 0 <= i <= data.graph_imports.len()
            &&& i < data.graph_imports.len() ==> data.graph_imports[i].referrer == target
            &&& forall|k: int|
                0 <= k < i ==> (#[trigger] data.graph_imports[k]).referrer != target
        }),
    ensures
        ({
            let target = if data.modules.contains_key(s) && data.modules[s] is Redirect {
                data.modules[s]->Redirect_0
            } else {
                s
            };
            data.dependencies_of(s) == if data.modules.contains_key(target)
                && data.modules[target] is Module {
                Some(data.modules[target]->dependencies)
            } else if i < data.graph_imports.len() {
                Some(data.graph_imports[i].dependencies)
            } else {
                None::<Seq<ImportView>>
            }
        }),
{
    lemma_imported_by(data.graph_imports, data.followed(s), i);
}

} // verus!
