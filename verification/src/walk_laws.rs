//! What a walk finds, said of the entries themselves.
use vstd::prelude::*;
use crate::graph_data::{GraphDataView, ModuleEntryView};
use crate::resolution::{ModuleKind, ResolvedView};
use crate::specifier::SpecifierView;
use crate::walk::Walk;

verus! {

/// What a walk finds is known, and is closed: it holds the roots, what the
/// configurations import, and with a module whatever its imports and its types
/// lead to, and with a redirect its target. Left out are npm packages, imports
/// of npm packages, dynamic imports unless they are followed, and types unless
/// they are followed and the module is no JavaScript, or JavaScript is checked.
pub proof fn law_walk_follows_every_import(
    data: GraphDataView,
    roots: Seq<(SpecifierView, ModuleKind)>,
    follow_dynamic: bool,
    follow_type_only: bool,
    check_js: bool,
)
    requires
        data.walk(roots, follow_dynamic, follow_type_only, check_js).outcome() is Some,
    ensures
        ({
            let found = data.walk(
                roots,
                follow_dynamic,
                follow_type_only,
                check_js,
            ).outcome()->0;
            &&& forall|s: SpecifierView| #[trigger]
                found.contains_key(s) ==> !s.npm && data.modules.contains_key(s) && found[s]
                    == data.modules[s]
            &&& forall|i: int|
                0 <= i < roots.len() && !(#[trigger] roots[i]).0.npm ==> found.contains_key(
                    roots[i].0,
                )
            &&& forall|i: int, j: int, t: SpecifierView|
                #![trigger data.graph_imports[i].dependencies[j], found.contains_key(t)]
                0 <= i < data.graph_imports.len() && 0 <= j
                    < data.graph_imports[i].dependencies.len() && !t.npm && ((
                data.graph_imports[i].dependencies[j].dependency.maybe_code matches
                    ResolvedView::Found { specifier, .. } && specifier == t) || (follow_type_only
                    && (data.graph_imports[i].dependencies[j].dependency.maybe_type matches
                    ResolvedView::Found { specifier, .. } && specifier == t)))
                    ==> found.contains_key(t)
            &&& forall|s: SpecifierView, i: int, t: SpecifierView|
                #![trigger data.modules[s]->dependencies[i], found.contains_key(t)]
                found.contains_key(s) && data.modules[s] is Module && 0 <= i
                    < data.modules[s]->dependencies.len()
                    && !data.modules[s]->dependencies[i].npm && (
                !data.modules[s]->dependencies[i].dependency.is_dynamic || follow_dynamic)
                    && !t.npm && ((data.modules[s]->dependencies[i].dependency.maybe_code matches
                    ResolvedView::Found { specifier, .. } && specifier == t) || (follow_type_only
                    && (check_js || !(data.modules[s]->media_type is JavaScript
                    || data.modules[s]->media_type is Mjs || data.modules[s]->media_type is Cjs
                    || data.modules[s]->media_type is Jsx)) && (
                data.modules[s]->dependencies[i].dependency.maybe_type matches
                    ResolvedView::Found { specifier, .. } && specifier == t)))
                    ==> found.contains_key(t)
            &&& forall|s: SpecifierView, t: SpecifierView|
                #![trigger found.contains_key(s), found.contains_key(t)]
                found.contains_key(s) && data.modules[s] is Module && follow_type_only && (check_js
                    || !(data.modules[s]->media_type is JavaScript
                    || data.modules[s]->media_type is Mjs || data.modules[s]->media_type is Cjs
                    || data.modules[s]->media_type is Jsx)) && !t.npm && (
                data.modules[s]->maybe_types matches Some(ResolvedView::Found { specifier, .. })
                    && specifier == t) ==> found.contains_key(t)
            &&& forall|s: SpecifierView, t: SpecifierView|
                #![trigger found.contains_key(s), found.contains_key(t)]
                found.contains_key(s) && data.modules[s] == ModuleEntryView::Redirect(t) && !t.npm
                    ==> found.contains_key(t)
        }),
{
    let walk = data.walk(roots, follow_dynamic, follow_type_only, check_js);
    let found = walk.outcome()->0;
    assert forall|s: SpecifierView| #[trigger] found.contains_key(s) implies !s.npm
        && data.modules.contains_key(s) && found[s] == data.modules[s] by {
        assert(walk.visits(s));
    }
    assert forall|i: int| 0 <= i < roots.len() && !(#[trigger] roots[i]).0.npm implies
        found.contains_key(roots[i].0) by {
        assert(walk.roots[i].0 == roots[i].0);
        lemma_started(walk, roots[i].0);
    }
    assert forall|i: int, j: int, t: SpecifierView|
        #![trigger data.graph_imports[i].dependencies[j], found.contains_key(t)]
        0 <= i < data.graph_imports.len() && 0 <= j < data.graph_imports[i].dependencies.len()
            && !t.npm && data.graph_imports[i].dependencies[j].leads_to(
            follow_type_only,
            t,
        ) implies found.contains_key(t) by {
        assert(walk.imports[i].dependencies[j].leads_to(walk.follow_type_only, t));
        assert(walk.has_import(t));
        lemma_started(walk, t);
    }
    assert forall|s: SpecifierView, i: int, t: SpecifierView|
        #![trigger data.modules[s]->dependencies[i], found.contains_key(t)]
        found.contains_key(s) && data.modules[s] is Module && 0 <= i
            < data.modules[s]->dependencies.len() && walk.follows_import(
            data.modules[s]->dependencies[i],
        ) && !t.npm && data.modules[s]->dependencies[i].leads_to(
            walk.checks_types(data.modules[s]->media_type),
            t,
        ) implies found.contains_key(t) by {
        assert(walk.follows(data.modules[s], t));
        lemma_went_on(walk, s, t);
    }
    assert forall|s: SpecifierView, t: SpecifierView|
        #![trigger found.contains_key(s), found.contains_key(t)]
        found.contains_key(s) && data.modules[s] is Module && walk.checks_types(
            data.modules[s]->media_type,
        ) && !t.npm && data.modules[s]->maybe_types is Some
            && data.modules[s]->maybe_types->0.leads_to(t) implies found.contains_key(t) by {
        assert(walk.follows(data.modules[s], t));
        lemma_went_on(walk, s, t);
    }
    assert forall|s: SpecifierView, t: SpecifierView|
        #![trigger found.contains_key(s), found.contains_key(t)]
        found.contains_key(s) && data.modules[s] == ModuleEntryView::Redirect(t)
            && !t.npm implies found.contains_key(t) by {
        lemma_went_on(walk, s, t);
    }
}

/// A complete walk finds that at which it starts.
proof fn lemma_started(walk: Walk, s: SpecifierView)
    requires
        walk.outcome() is Some,
        walk.starts_at(s),
        !s.npm,
    ensures
        walk.outcome()->0.contains_key(s),
{
    walk.lemma_reaches_start(s);
    assert(walk.visits(s));
}

/// A complete walk finds that to which it goes on from what it finds.
proof fn lemma_went_on(walk: Walk, s: SpecifierView, t: SpecifierView)
    requires
        walk.outcome() is Some,
        walk.outcome()->0.contains_key(s),
        walk.follows(walk.modules[s], t),
        !t.npm,
    ensures
        walk.outcome()->0.contains_key(t),
{
    assert(walk.visits(s));
    assert(walk.steps(s, t));
    walk.lemma_reaches_step(s, t);
    assert(walk.visits(t));
}

/// A walk finds no more than it has to: a set that holds the roots, what the
/// configurations import, and with a known module whatever its imports and types
/// lead to, and with a redirect its target, holds everything that a walk finds.
/// If all of such a set is known, but for npm packages, the walk is complete.
pub proof fn law_walk_finds_nothing_else(
    data: GraphDataView,
    roots: Seq<(SpecifierView, ModuleKind)>,
    follow_dynamic: bool,
    follow_type_only: bool,
    check_js: bool,
    set: Set<SpecifierView>,
)
    requires
        forall|i: int| 0 <= i < roots.len() ==> set.contains((#[trigger] roots[i]).0),
        forall|i: int, j: int|
            #![trigger data.graph_imports[i].dependencies[j]]
            0 <= i < data.graph_imports.len() && 0 <= j
                < data.graph_imports[i].dependencies.len() ==> {
                &&& data.graph_imports[i].dependencies[j].dependency.maybe_code matches
                    ResolvedView::Found { specifier, .. } ==> set.contains(specifier)
                &&& follow_type_only ==> (
                data.graph_imports[i].dependencies[j].dependency.maybe_type matches
                    ResolvedView::Found { specifier, .. } ==> set.contains(specifier))
            },
        forall|s: SpecifierView, i: int|
            #![trigger data.modules[s]->dependencies[i]]
            set.contains(s) && !s.npm && data.modules.contains_key(s) && data.modules[s] is Module
                && 0 <= i < data.modules[s]->dependencies.len()
                && !data.modules[s]->dependencies[i].npm && (
            !data.modules[s]->dependencies[i].dependency.is_dynamic || follow_dynamic) ==> {
                &&& data.modules[s]->dependencies[i].dependency.maybe_code matches
                    ResolvedView::Found { specifier, .. } ==> set.contains(specifier)
                &&& follow_type_only && (check_js || !(data.modules[s]->media_type is JavaScript
                    || data.modules[s]->media_type is Mjs || data.modules[s]->media_type is Cjs
                    || data.modules[s]->media_type is Jsx)) ==> (
                data.modules[s]->dependencies[i].dependency.maybe_type matches
                    ResolvedView::Found { specifier, .. } ==> set.contains(specifier))
            },
        forall|s: SpecifierView|
            #![trigger data.modules[s]]
            set.contains(s) && !s.npm && data.modules.contains_key(s) && data.modules[s] is Module
                && follow_type_only && (check_js || !(data.modules[s]->media_type is JavaScript
                || data.modules[s]->media_type is Mjs || data.modules[s]->media_type is Cjs
                || data.modules[s]->media_type is Jsx)) ==> (data.modules[s]->maybe_types matches
                Some(ResolvedView::Found { specifier, .. }) ==> set.contains(specifier)),
        forall|s: SpecifierView|
            #![trigger data.modules[s]]
            set.contains(s) && !s.npm && data.modules.contains_key(s) ==> (data.modules[s] matches
                ModuleEntryView::Redirect(target) ==> set.contains(target)),
    ensures
        ({
            let outcome = data.walk(
                roots,
                follow_dynamic,
                follow_type_only,
                check_js,
            ).outcome();
            &&& outcome is Some ==> forall|s: SpecifierView| #[trigger]
                outcome->0.contains_key(s) ==> set.contains(s)
            &&& (forall|s: SpecifierView| #[trigger]
                set.contains(s) && !s.npm ==> data.modules.contains_key(s)) ==> outcome is Some
        }),
{
    let walk = data.walk(roots, follow_dynamic, follow_type_only, check_js);
    assert forall|s: SpecifierView| walk.starts_at(s) implies set.contains(s) by {
        if walk.has_root(s) {
            let i = choose|i: int| 0 <= i < walk.roots.len() && (#[trigger] walk.roots[i]).0 == s;
            assert(set.contains(roots[i].0));
        } else {
            let (i, j) = choose|i: int, j: int|
                #![trigger walk.imports[i].dependencies[j]]
                0 <= i < walk.imports.len() && 0 <= j < walk.imports[i].dependencies.len()
                    && walk.imports[i].dependencies[j].leads_to(walk.follow_type_only, s);
            let import = data.graph_imports[i].dependencies[j];
            assert(import.leads_to(follow_type_only, s));
        }
    }
    assert forall|x: SpecifierView, y: SpecifierView|
        set.contains(x) && #[trigger] walk.steps(x, y) implies set.contains(y) by {
        let entry = data.modules[x];
        if entry is Module {
            let with_types = walk.checks_types(entry->media_type);
            if with_types && entry->maybe_types is Some && entry->maybe_types->0.leads_to(y) {
                assert(set.contains(y));
            } else {
                let all = entry->dependencies;
                let i = choose|i: int|
                    #![trigger all[i]]
                    0 <= i < all.len() && walk.follows_import(all[i]) && all[i].leads_to(
                        with_types,
                        y,
                    );
                assert(data.modules[x]->dependencies[i] == all[i]);
            }
        }
    }
    walk.lemma_reaches_within(set);
    if walk.outcome() is Some {
        assert forall|s: SpecifierView| #[trigger]
            walk.outcome()->0.contains_key(s) implies set.contains(s) by {
            assert(walk.visits(s));
            assert(walk.reaches(s));
        }
    }
    if forall|s: SpecifierView| #[trigger]
        set.contains(s) && !s.npm ==> data.modules.contains_key(s) {
        assert forall|s: SpecifierView| #[trigger]
            walk.visits(s) implies walk.modules.contains_key(s) by {
            assert(walk.reaches(s));
            assert(set.contains(s));
        }
    }
}

} // verus!
