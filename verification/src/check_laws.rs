//! What a check reports, said of the entries themselves.
use vstd::prelude::*;
use crate::check::{
    CheckErrorView, first_import_error, import_error, located, made_up, module_error,
};
use crate::dependency::ImportView;
use crate::graph_data::{GraphDataView, ModuleEntryView};
use crate::resolution::{ModuleKind, RangeView, ResolutionErrorView, ResolvedView};
use crate::specifier::SpecifierView;
use crate::text::{decimal, text_occurs_at};
use crate::walk::Walk;

verus! {

/// Imports have no error exactly if none of them has one.
proof fn lemma_no_import_error(imports: Seq<ImportView>, with_types: bool)
    ensures
        first_import_error(imports, with_types) is None <==> forall|i: int|
            0 <= i < imports.len() ==> import_error(#[trigger] imports[i], with_types) is None,
    decreases imports.len(),
{
    if imports.len() > 0 {
        let later = imports.drop_first();
        lemma_no_import_error(later, with_types);
        if first_import_error(imports, with_types) is None {
            assert forall|i: int| 0 <= i < imports.len() implies import_error(
                #[trigger] imports[i],
                with_types,
            ) is None by {
                if i > 0 {
                    assert(import_error(later[i - 1], with_types) is None);
                }
            }
        }
        if forall|i: int|
            0 <= i < imports.len() ==> import_error(#[trigger] imports[i], with_types) is None {
            assert forall|i: int| 0 <= i < later.len() implies import_error(
                #[trigger] later[i],
                with_types,
            ) is None by {
                assert(later[i] == imports[i + 1]);
            }
        }
    }
}

/// The error of imports is that of the first that has one.
proof fn lemma_first_import_error(imports: Seq<ImportView>, with_types: bool)
    requires
        first_import_error(imports, with_types) is Some,
    ensures
        exists|i: int|
            #![trigger imports[i]]
            0 <= i < imports.len() && import_error(imports[i], with_types) == first_import_error(
                imports,
                with_types,
            ) && forall|k: int|
                0 <= k < i ==> import_error(#[trigger] imports[k], with_types) is None,
    decreases imports.len(),
{
    if import_error(imports[0], with_types) is Some {
        assert(import_error(imports[0], with_types) == first_import_error(imports, with_types));
    } else {
        let later = imports.drop_first();
        lemma_first_import_error(later, with_types);
        let i = choose|i: int|
            #![trigger later[i]]
            0 <= i < later.len() && import_error(later[i], with_types) == first_import_error(
                later,
                with_types,
            ) && forall|k: int|
                0 <= k < i ==> import_error(#[trigger] later[k], with_types) is None;
        assert(imports[i + 1] == later[i]);
        assert forall|k: int| 0 <= k < i + 1 implies import_error(
            #[trigger] imports[k],
            with_types,
        ) is None by {
            if k > 0 {
                assert(later[k - 1] == imports[k]);
            }
        }
    }
}

/// The range lies in a module of the runtime exactly if its text says so.
proof fn lemma_made_up(range: RangeView)
    ensures
        made_up(range) <==> exists|k: int|
            0 <= k <= range.specifier.text.len() - 5
                && #[trigger] range.specifier.text.subrange(k, k + 5) == "$deno"@,
{
    reveal_strlit("$deno");
    let text = range.specifier.text;
    if made_up(range) {
        let k = choose|k: int| text_occurs_at(text, "$deno"@, k);
        assert(text.subrange(k, k + 5) == "$deno"@);
    }
    if exists|k: int|
        0 <= k <= text.len() - 5 && #[trigger] text.subrange(k, k + 5) == "$deno"@ {
        let k = choose|k: int|
            0 <= k <= text.len() - 5 && #[trigger] text.subrange(k, k + 5) == "$deno"@;
        assert(text_occurs_at(text, "$deno"@, k));
    }
}

/// What a walk finds is what it comes to.
proof fn lemma_found(walk: Walk, s: SpecifierView)
    requires
        walk.outcome() is Some,
    ensures
        walk.outcome()->0.contains_key(s) <==> walk.visits(s),
        walk.visits(s) ==> walk.outcome()->0[s] == walk.modules[s],
{
}

/// A check finds a module unknown exactly if the walk does.
pub proof fn law_check_needs_every_module(
    data: GraphDataView,
    roots: Seq<(SpecifierView, ModuleKind)>,
    follow_type_only: bool,
    check_js: bool,
    result: Option<Result<(), CheckErrorView>>,
)
    requires
        data.checked(roots, follow_type_only, check_js, result),
    ensures
        result is None <==> data.walk(roots, false, follow_type_only, check_js).outcome() is None,
{
}

/// A check passes exactly if all modules are known, none failed to load, and
/// nothing could not be resolved: neither the code of an import, nor its types
/// or those of the module where types count. That holds of every import but
/// dynamic ones. Types count if they are followed and the module is no
/// JavaScript, or JavaScript is checked.
pub proof fn law_check_examines_every_import(
    data: GraphDataView,
    roots: Seq<(SpecifierView, ModuleKind)>,
    follow_type_only: bool,
    check_js: bool,
)
    ensures
        ({
            let outcome = data.walk(roots, false, follow_type_only, check_js).outcome();
            data.checked(roots, follow_type_only, check_js, Some(Ok(()))) <==> {
                &&& outcome is Some
                &&& forall|s: SpecifierView| #[trigger]
                    outcome->0.contains_key(s) ==> !(data.modules[s] is Error)
                &&& forall|s: SpecifierView, i: int|
                    #![trigger data.modules[s]->dependencies[i]]
                    outcome->0.contains_key(s) && data.modules[s] is Module && 0 <= i
                        < data.modules[s]->dependencies.len()
                        && !data.modules[s]->dependencies[i].dependency.is_dynamic ==> {
                        &&& !(data.modules[s]->dependencies[i].dependency.maybe_code is Failed)
                        &&& follow_type_only && (check_js || !(
                        data.modules[s]->media_type is JavaScript
                            || data.modules[s]->media_type is Mjs
                            || data.modules[s]->media_type is Cjs
                            || data.modules[s]->media_type is Jsx)) ==> !(
                        data.modules[s]->dependencies[i].dependency.maybe_type is Failed)
                    }
                &&& forall|s: SpecifierView| #[trigger]
                    outcome->0.contains_key(s) && data.modules[s] is Module && follow_type_only && (
                    check_js || !(data.modules[s]->media_type is JavaScript
                        || data.modules[s]->media_type is Mjs || data.modules[s]->media_type is Cjs
                        || data.modules[s]->media_type is Jsx)) ==> !(
                    data.modules[s]->maybe_types matches Some(ResolvedView::Failed(_)))
            }
        }),
{
    let walk = data.walk(roots, false, follow_type_only, check_js);
    let outcome = walk.outcome();
    if data.checked(roots, follow_type_only, check_js, Some(Ok(()))) {
        assert forall|s: SpecifierView| #[trigger] outcome->0.contains_key(s) implies data.failure(
            walk,
            s,
        ) is None by {
            assert(walk.visits(s));
        }
        assert forall|s: SpecifierView, i: int|
            #![trigger data.modules[s]->dependencies[i]]
            outcome->0.contains_key(s) && data.modules[s] is Module && 0 <= i
                < data.modules[s]->dependencies.len()
                && !data.modules[s]->dependencies[i].dependency.is_dynamic implies {
            &&& !(data.modules[s]->dependencies[i].dependency.maybe_code is Failed)
            &&& walk.checks_types(data.modules[s]->media_type) ==> !(
            data.modules[s]->dependencies[i].dependency.maybe_type is Failed)
        } by {
            let with_types = walk.checks_types(data.modules[s]->media_type);
            let imports = data.modules[s]->dependencies;
            assert(data.failure(walk, s) is None);
            lemma_no_import_error(imports, with_types);
            assert(import_error(imports[i], with_types) is None);
        }
        assert forall|s: SpecifierView| #[trigger]
            outcome->0.contains_key(s) && data.modules[s] is Module && walk.checks_types(
                data.modules[s]->media_type,
            ) implies !(data.modules[s]->maybe_types matches Some(ResolvedView::Failed(_))) by {
            assert(data.failure(walk, s) is None);
        }
    } else if outcome is Some {
        let s = choose|s: SpecifierView| #[trigger]
            walk.visits(s) && data.failure(walk, s) is Some;
        lemma_found(walk, s);
        assert(outcome->0.contains_key(s));
        if data.modules[s] is Module {
            let with_types = walk.checks_types(data.modules[s]->media_type);
            let imports = data.modules[s]->dependencies;
            if !(with_types && (data.modules[s]->maybe_types matches Some(ResolvedView::Failed(
                _,
            )))) {
                assert(module_error(imports, data.modules[s]->maybe_types, with_types) is Some);
                lemma_no_import_error(imports, with_types);
                let i = choose|i: int|
                    0 <= i < imports.len() && import_error(#[trigger] imports[i], with_types)
                        is Some;
                assert(data.modules[s]->dependencies[i] == imports[i]);
            }
        }
    }
}

/// The error of a check is that of a module which the walk finds. A module that
/// failed to load has its own error, with where it was first imported unless it
/// is a root. Else it is the first error of the module: that of its types where
/// they count, then that of the first import that has one, the code before the
/// types. The place is put below the message, unless it is in a module of the
/// runtime.
pub proof fn law_check_reports_the_first_error(
    data: GraphDataView,
    roots: Seq<(SpecifierView, ModuleKind)>,
    follow_type_only: bool,
    check_js: bool,
    error: CheckErrorView,
)
    requires
        data.checked(roots, follow_type_only, check_js, Some(Err(error))),
    ensures
        ({
            let outcome = data.walk(roots, false, follow_type_only, check_js).outcome();
            let hidden = |range: RangeView|
                exists|k: int|
                    0 <= k <= range.specifier.text.len() - 5
                        && #[trigger] range.specifier.text.subrange(k, k + 5) == "$deno"@;
            let placed = |message: Seq<char>, range: RangeView|
                message + "\n    at "@ + range.specifier.text + ":"@ + decimal(
                    (range.start.line + 1) as nat,
                ) + ":"@ + decimal((range.start.character + 1) as nat);
            let unresolved = |r: ResolutionErrorView|
                if hidden(r.range) {
                    CheckErrorView::Resolution(r)
                } else {
                    CheckErrorView::Located { class: r.class, message: placed(r.message, r.range) }
                };
            &&& outcome is Some
            &&& exists|s: SpecifierView| #[trigger]
                outcome->0.contains_key(s) && {
                    let types = follow_type_only && (check_js || !(
                    data.modules[s]->media_type is JavaScript || data.modules[s]->media_type is Mjs
                        || data.modules[s]->media_type is Cjs
                        || data.modules[s]->media_type is Jsx));
                    match data.modules[s] {
                        ModuleEntryView::Redirect(_) => false,
                        ModuleEntryView::Error(e) => error == if (forall|i: int|
                            0 <= i < roots.len() ==> (#[trigger] roots[i]).0 != s)
                            && data.referrer_map.contains_key(s) && !hidden(data.referrer_map[s]) {
                            CheckErrorView::Located {
                                class: e.class,
                                message: placed(e.message, data.referrer_map[s]),
                            }
                        } else {
                            CheckErrorView::Module(e)
                        },
                        ModuleEntryView::Module { dependencies, maybe_types, .. } => {
                            ||| types && (maybe_types matches Some(ResolvedView::Failed(r))
                                && error == unresolved(r))
                            ||| !(types && (maybe_types matches Some(ResolvedView::Failed(_)))) && exists|
                                i: int,
                            |
                                #![trigger dependencies[i]]
                                0 <= i < dependencies.len()
                                    && !dependencies[i].dependency.is_dynamic && (forall|k: int|
                                    0 <= k < i && !(
                                    #[trigger] dependencies[k]).dependency.is_dynamic ==> !(
                                    dependencies[k].dependency.maybe_code is Failed) && !(types
                                        && dependencies[k].dependency.maybe_type is Failed))
                                    && match dependencies[i].dependency.maybe_code {
                                    ResolvedView::Failed(r) => error == unresolved(r),
                                    _ => types && (dependencies[i].dependency.maybe_type matches
                                        ResolvedView::Failed(r) && error == unresolved(r)),
                                }
                        },
                    }
                }
        }),
{
    let walk = data.walk(roots, false, follow_type_only, check_js);
    let s = choose|s: SpecifierView| #[trigger]
        walk.visits(s) && data.failure(walk, s) == Some(error);
    lemma_found(walk, s);
    assert(walk.outcome()->0.contains_key(s));
    assert forall|message: Seq<char>, range: RangeView| #[trigger] located(message, range)
        =~= message + "\n    at "@ + range.specifier.text + ":"@ + decimal(
        (range.start.line + 1) as nat,
    ) + ":"@ + decimal((range.start.character + 1) as nat) by {
        assert(located(message, range) == message + "\n    at "@ + range.shown());
    }
    match data.modules[s] {
        ModuleEntryView::Redirect(_) => {},
        ModuleEntryView::Error(e) => {
            if data.referrer_map.contains_key(s) {
                lemma_made_up(data.referrer_map[s]);
            }
            if walk.has_root(s) {
                let i = choose|i: int|
                    0 <= i < walk.roots.len() && (#[trigger] walk.roots[i]).0 == s;
                assert(roots[i].0 == s);
            } else {
                assert forall|i: int| 0 <= i < roots.len() implies (#[trigger] roots[i]).0 != s by {
                    assert(walk.roots[i].0 == roots[i].0);
                }
            }
        },
        ModuleEntryView::Module { dependencies, media_type, maybe_types, .. } => {
            let types = walk.checks_types(media_type);
            let r = module_error(dependencies, maybe_types, types)->0;
            lemma_made_up(r.range);
            if !(types && (maybe_types matches Some(ResolvedView::Failed(_)))) {
                assert(first_import_error(dependencies, types) == Some(r));
                lemma_first_import_error(dependencies, types);
                let i = choose|i: int|
                    #![trigger dependencies[i]]
                    0 <= i < dependencies.len() && import_error(dependencies[i], types)
                        == first_import_error(dependencies, types) && forall|k: int|
                        0 <= k < i ==> import_error(#[trigger] dependencies[k], types) is None;
                assert forall|k: int|
                    0 <= k < i && !(
                    #[trigger] dependencies[k]).dependency.is_dynamic implies !(
                dependencies[k].dependency.maybe_code is Failed) && !(types
                    && dependencies[k].dependency.maybe_type is Failed) by {
                    assert(import_error(dependencies[k], types) is None);
                }
            }
        },
    }
}

} // verus!
