//! What holds of the data as a whole.
use vstd::prelude::*;
use crate::addition_laws::law_known_entries_are_kept;
use crate::check::{CheckErrorView, first_import_error, import_error, module_error};
use crate::dependency::ImportView;
use crate::graph_data::{GraphDataView, ModuleEntryView, TsTypeLib};
use crate::module_graph::ModuleGraphView;
use crate::resolution::{ModuleKind, RangeView};
use crate::specifier::SpecifierView;
use crate::walk::Walk;

verus! {

/// Both walks go over the same modules from the same starts.
pub open spec fn same_ground(a: Walk, b: Walk) -> bool {
    a.modules == b.modules && a.imports == b.imports && a.roots == b.roots
}

/// `b` follows whatever `a` follows.
pub open spec fn follows_more(a: Walk, b: Walk) -> bool {
    &&& a.follow_dynamic ==> b.follow_dynamic
    &&& a.follow_type_only ==> b.follow_type_only
    &&& a.check_js ==> b.check_js
}

/// Where one walk goes, a walk that follows more goes too.
proof fn lemma_steps_monotone(a: Walk, b: Walk, entry: ModuleEntryView, specifier: SpecifierView)
    requires
        follows_more(a, b),
        a.follows(entry, specifier),
    ensures
        b.follows(entry, specifier),
{
    if let ModuleEntryView::Module { dependencies, media_type, maybe_types, .. } = entry {
        if !(a.checks_types(media_type) && maybe_types is Some && maybe_types->0.leads_to(
            specifier,
        )) {
            let i = choose|i: int|
                #![trigger dependencies[i]]
                0 <= i < dependencies.len() && a.follows_import(dependencies[i])
                    && dependencies[i].leads_to(a.checks_types(media_type), specifier);
            assert(b.follows_import(dependencies[i]));
            assert(dependencies[i].leads_to(b.checks_types(media_type), specifier));
        }
    }
}

/// A walk that follows more starts at whatever one starts at that follows less.
proof fn lemma_starts_monotone(a: Walk, b: Walk, specifier: SpecifierView)
    requires
        a.imports == b.imports,
        a.roots == b.roots,
        follows_more(a, b),
        a.starts_at(specifier),
    ensures
        b.starts_at(specifier),
{
    if !a.has_root(specifier) {
        let (i, j) = choose|i: int, j: int|
            #![trigger a.imports[i].dependencies[j]]
            0 <= i < a.imports.len() && 0 <= j < a.imports[i].dependencies.len()
                && a.imports[i].dependencies[j].leads_to(a.follow_type_only, specifier);
        assert(b.imports[i].dependencies[j].leads_to(b.follow_type_only, specifier));
        assert(b.has_import(specifier));
    } else {
        let i = choose|i: int| 0 <= i < a.roots.len() && (#[trigger] a.roots[i]).0 == specifier;
        assert(b.roots[i].0 == specifier);
    }
}

/// A walk that follows more comes to every module to which one comes that
/// follows less. If it is complete, so is the other.
pub proof fn law_following_more_visits_more(a: Walk, b: Walk)
    requires
        same_ground(a, b),
        follows_more(a, b),
    ensures
        forall|s: SpecifierView| #[trigger] a.visits(s) ==> b.visits(s),
        b.complete() ==> a.complete(),
{
    let set = Set::new(|s: SpecifierView| b.reaches(s));
    assert forall|s: SpecifierView| a.starts_at(s) implies set.contains(s) by {
        lemma_starts_monotone(a, b, s);
        b.lemma_reaches_start(s);
    }
    assert forall|x: SpecifierView, y: SpecifierView|
        set.contains(x) && #[trigger] a.steps(x, y) implies set.contains(y) by {
        lemma_steps_monotone(a, b, a.modules[x], y);
        b.lemma_reaches_step(x, y);
    }
    a.lemma_reaches_within(set);
    assert forall|s: SpecifierView| #[trigger] a.visits(s) implies b.visits(s) by {
        assert(a.reaches(s));
    }
    if b.complete() {
        assert forall|s: SpecifierView| #[trigger] a.visits(s) implies a.modules.contains_key(
            s,
        ) by {
            assert(b.visits(s));
        }
    }
}

/// What a walk finds is closed: it holds every root that is no npm package, and
/// with a module everything to which the walk goes on from it, but for npm
/// packages.
pub proof fn law_walk_is_closed(walk: Walk)
    requires
        walk.outcome() is Some,
    ensures
        forall|s: SpecifierView|
            walk.has_root(s) && !s.npm ==> #[trigger] walk.outcome()->0.contains_key(s),
        forall|s: SpecifierView, t: SpecifierView|
            walk.outcome()->0.contains_key(s) && #[trigger] walk.follows(
                walk.outcome()->0[s],
                t,
            ) && !t.npm ==> walk.outcome()->0.contains_key(t),
{
    let found = walk.outcome()->0;
    assert forall|s: SpecifierView| walk.has_root(s) && !s.npm implies #[trigger]
        found.contains_key(s) by {
        walk.lemma_reaches_start(s);
        assert(walk.visits(s));
    }
    assert forall|s: SpecifierView, t: SpecifierView|
        found.contains_key(s) && #[trigger] walk.follows(found[s], t)
            && !t.npm implies found.contains_key(t) by {
        assert(walk.visits(s));
        assert(walk.steps(s, t));
        walk.lemma_reaches_step(s, t);
        assert(walk.visits(t));
    }
}

/// A root that is not known, and is no npm package, leaves a walk without
/// outcome: neither a segment nor a check is to be had.
pub proof fn law_unknown_root(
    data: GraphDataView,
    roots: Seq<(SpecifierView, ModuleKind)>,
    i: int,
    follow_dynamic: bool,
    follow_type_only: bool,
    check_js: bool,
)
    requires
        0 <= i < roots.len(),
        !roots[i].0.npm,
        !data.modules.contains_key(roots[i].0),
    ensures
        data.walk(roots, follow_dynamic, follow_type_only, check_js).outcome() is None,
        data.segment(roots) is None,
        forall|result: Option<Result<(), CheckErrorView>>| #[trigger]
            data.checked(roots, follow_type_only, check_js, result) ==> result is None,
{
    let specifier = roots[i].0;
    let walk = data.walk(roots, follow_dynamic, follow_type_only, check_js);
    assert(walk.roots[i].0 == specifier);
    walk.lemma_reaches_start(specifier);
    assert(walk.visits(specifier));
    let all = data.walk(roots, true, true, true);
    assert(all.roots[i].0 == specifier);
    all.lemma_reaches_start(specifier);
    assert(all.visits(specifier));
    let checked = data.walk(roots, false, follow_type_only, check_js);
    assert(checked.roots[i].0 == specifier);
    checked.lemma_reaches_start(specifier);
    assert(checked.visits(specifier));
}

/// The first walk stays within what the second comes to.
proof fn lemma_walk_within(a: Walk, b: Walk)
    requires
        a.modules == b.modules,
        a.imports == b.imports,
        follows_more(a, b),
        forall|i: int| 0 <= i < a.roots.len() ==> b.reaches((#[trigger] a.roots[i]).0),
    ensures
        forall|s: SpecifierView| #[trigger] a.reaches(s) ==> b.reaches(s),
{
    let set = Set::new(|s: SpecifierView| b.reaches(s));
    assert forall|s: SpecifierView| a.starts_at(s) implies set.contains(s) by {
        if a.has_root(s) {
            let i = choose|i: int| 0 <= i < a.roots.len() && (#[trigger] a.roots[i]).0 == s;
            assert(b.reaches(a.roots[i].0));
        } else {
            let (i, j) = choose|i: int, j: int|
                #![trigger a.imports[i].dependencies[j]]
                0 <= i < a.imports.len() && 0 <= j < a.imports[i].dependencies.len()
                    && a.imports[i].dependencies[j].leads_to(a.follow_type_only, s);
            assert(b.imports[i].dependencies[j].leads_to(b.follow_type_only, s));
            assert(b.has_import(s));
            b.lemma_reaches_start(s);
        }
    }
    assert forall|x: SpecifierView, y: SpecifierView|
        set.contains(x) && #[trigger] a.steps(x, y) implies set.contains(y) by {
        lemma_steps_monotone(a, b, a.modules[x], y);
        b.lemma_reaches_step(x, y);
    }
    a.lemma_reaches_within(set);
}

/// The walks start alike, and follow alike.
spec fn same_ways(a: Walk, b: Walk) -> bool {
    &&& a.imports == b.imports
    &&& a.roots == b.roots
    &&& follows_more(a, b)
    &&& follows_more(b, a)
}

/// `walk` goes on from both entries to the same specifiers.
spec fn go_on_alike(walk: Walk, e: ModuleEntryView, f: ModuleEntryView) -> bool {
    forall|t: SpecifierView| #[trigger] walk.follows(e, t) == walk.follows(f, t)
}

/// Both walks know the same modules among those to which the first comes, and
/// go on alike from them.
spec fn agree_where_visited(a: Walk, b: Walk) -> bool {
    forall|s: SpecifierView| #[trigger]
        a.visits(s) ==> {
            &&& a.modules.contains_key(s) == b.modules.contains_key(s)
            &&& a.modules.contains_key(s) ==> go_on_alike(a, a.modules[s], b.modules[s])
        }
}

/// From where the first walk comes to, walks that agree go on alike.
proof fn lemma_same_step(a: Walk, b: Walk, x: SpecifierView, y: SpecifierView)
    requires
        same_ways(a, b),
        agree_where_visited(a, b),
        a.reaches(x),
    ensures
        a.steps(x, y) == b.steps(x, y),
{
    if !x.npm {
        assert(a.visits(x));
        if a.modules.contains_key(x) {
            assert(a.follows(a.modules[x], y) == a.follows(b.modules[x], y));
        }
        if a.follows(b.modules[x], y) {
            lemma_steps_monotone(a, b, b.modules[x], y);
        }
        if b.follows(b.modules[x], y) {
            lemma_steps_monotone(b, a, b.modules[x], y);
        }
    }
}

/// Walks that agree on the modules to which the first comes, come to the same
/// specifiers.
proof fn lemma_same_reach(a: Walk, b: Walk)
    requires
        same_ways(a, b),
        agree_where_visited(a, b),
    ensures
        forall|s: SpecifierView| #[trigger] a.reaches(s) <==> b.reaches(s),
{
    let both = Set::new(|s: SpecifierView| a.reaches(s) && b.reaches(s));
    assert forall|s: SpecifierView| a.starts_at(s) implies both.contains(s) by {
        a.lemma_reaches_start(s);
        lemma_starts_monotone(a, b, s);
        b.lemma_reaches_start(s);
    }
    assert forall|s: SpecifierView| b.starts_at(s) implies both.contains(s) by {
        b.lemma_reaches_start(s);
        lemma_starts_monotone(b, a, s);
        a.lemma_reaches_start(s);
    }
    assert forall|x: SpecifierView, y: SpecifierView|
        both.contains(x) && #[trigger] a.steps(x, y) implies both.contains(y) by {
        a.lemma_reaches_step(x, y);
        lemma_same_step(a, b, x, y);
        b.lemma_reaches_step(x, y);
    }
    assert forall|x: SpecifierView, y: SpecifierView|
        both.contains(x) && #[trigger] b.steps(x, y) implies both.contains(y) by {
        b.lemma_reaches_step(x, y);
        lemma_same_step(a, b, x, y);
        a.lemma_reaches_step(x, y);
    }
    a.lemma_reaches_within(both);
    b.lemma_reaches_within(both);
}

/// A segment answers every walk as the whole does, from any roots within its
/// own reach, whatever the walk follows.
pub proof fn law_segment_walks_alike(
    data: GraphDataView,
    roots: Seq<(SpecifierView, ModuleKind)>,
    others: Seq<(SpecifierView, ModuleKind)>,
    follow_dynamic: bool,
    follow_type_only: bool,
    check_js: bool,
)
    requires
        data.segment(roots) is Some,
        forall|i: int|
            0 <= i < others.len() ==> data.walk(roots, true, true, true).reaches(
                (#[trigger] others[i]).0,
            ),
    ensures
        data.segment(roots)->0.walk(
            others,
            follow_dynamic,
            follow_type_only,
            check_js,
        ).outcome() == data.walk(others, follow_dynamic, follow_type_only, check_js).outcome(),
        data.walk(others, follow_dynamic, follow_type_only, check_js).outcome() is Some,
{
    let segment = data.segment(roots)->0;
    let all = data.walk(roots, true, true, true);
    let whole = data.walk(others, follow_dynamic, follow_type_only, check_js);
    let part = segment.walk(others, follow_dynamic, follow_type_only, check_js);
    lemma_walk_within(whole, all);
    assert forall|s: SpecifierView| #[trigger] whole.visits(s) implies whole.modules.contains_key(s)
        && whole.modules.contains_key(s) == part.modules.contains_key(s) && whole.modules[s]
        == part.modules[s] by {
        assert(whole.reaches(s));
        assert(all.visits(s));
        assert(part.modules.contains_key(s));
    }
    lemma_same_reach(whole, part);
    assert forall|s: SpecifierView| #[trigger] whole.visits(s) <==> part.visits(s) by {
        assert(whole.reaches(s) <==> part.reaches(s));
    }
    assert forall|s: SpecifierView| #[trigger] part.visits(s) implies part.modules.contains_key(
        s,
    ) by {
        assert(whole.visits(s));
    }
    assert(part.visited() =~= whole.visited());
}

/// The segment of a segment, from the same roots, is the segment itself.
pub proof fn law_segment_of_segment(
    data: GraphDataView,
    roots: Seq<(SpecifierView, ModuleKind)>,
)
    requires
        data.segment(roots) is Some,
    ensures
        data.segment(roots)->0.segment(roots) == data.segment(roots),
{
    let segment = data.segment(roots)->0;
    let all = data.walk(roots, true, true, true);
    assert forall|i: int| 0 <= i < roots.len() implies all.reaches((#[trigger] roots[i]).0) by {
        assert(all.roots[i].0 == roots[i].0);
        all.lemma_reaches_start(roots[i].0);
    }
    law_segment_walks_alike(data, roots, roots, true, true, true);
    let again = segment.segment(roots)->0;
    assert(again.referrer_map =~= segment.referrer_map);
    assert(again =~= segment);
}

/// A walk that is complete finds the same when a graph is added, unless what is
/// known is loaded again or configurations import more.
pub proof fn law_complete_walk_is_kept(
    data: GraphDataView,
    graph: ModuleGraphView,
    roots: Seq<(SpecifierView, ModuleKind)>,
    follow_dynamic: bool,
    follow_type_only: bool,
    check_js: bool,
)
    requires
        data.walk(roots, follow_dynamic, follow_type_only, check_js).complete(),
        graph.imports.len() == 0,
    ensures
        data.with_graph(graph, false).walk(
            roots,
            follow_dynamic,
            follow_type_only,
            check_js,
        ).outcome() == data.walk(roots, follow_dynamic, follow_type_only, check_js).outcome(),
{
    let more = data.with_graph(graph, false);
    let a = data.walk(roots, follow_dynamic, follow_type_only, check_js);
    let b = more.walk(roots, follow_dynamic, follow_type_only, check_js);
    law_known_entries_are_kept(data, graph);
    assert(b.imports =~= a.imports);
    assert forall|s: SpecifierView| #[trigger] a.visits(s) implies a.modules.contains_key(s)
        && b.modules.contains_key(s) && a.modules[s] == b.modules[s] by {
        assert(data.modules.dom().contains(s));
        assert(more.modules.dom().contains(s));
    }
    lemma_same_reach(a, b);
    assert forall|s: SpecifierView| #[trigger] a.visits(s) <==> b.visits(s) by {
        assert(a.reaches(s) <==> b.reaches(s));
    }
    assert forall|s: SpecifierView| #[trigger] b.visits(s) implies b.modules.contains_key(s) by {
        assert(a.visits(s));
    }
    assert forall|s: SpecifierView| #[trigger] a.visited().contains_key(s) implies
        a.visited()[s] == b.visited()[s] by {
        assert(a.visits(s));
        assert(b.visits(s));
    }
    assert forall|s: SpecifierView|
        a.visited().contains_key(s) == b.visited().contains_key(s) by {
        assert(a.visits(s) <==> b.visits(s));
    }
    assert(b.visited() =~= a.visited());
}

/// Both walks report the same for a module of which the same is known.
proof fn lemma_same_failure(
    a: Walk,
    b: Walk,
    referrers_a: Map<SpecifierView, RangeView>,
    referrers_b: Map<SpecifierView, RangeView>,
    specifier: SpecifierView,
    entry: ModuleEntryView,
)
    requires
        a.roots == b.roots,
        a.follow_type_only == b.follow_type_only,
        a.check_js == b.check_js,
        referrers_a.contains_key(specifier) == referrers_b.contains_key(specifier),
        referrers_a.contains_key(specifier) ==> referrers_a[specifier] == referrers_b[specifier],
    ensures
        a.entry_failure(referrers_a, specifier, entry) == b.entry_failure(
            referrers_b,
            specifier,
            entry,
        ),
{
    assert(a.has_root(specifier) == b.has_root(specifier));
}

/// Two checks may return the same if they come to the same modules and report
/// the same for them.
proof fn lemma_same_checks(
    d: GraphDataView,
    e: GraphDataView,
    roots: Seq<(SpecifierView, ModuleKind)>,
    follow_type_only: bool,
    check_js: bool,
    result: Option<Result<(), CheckErrorView>>,
)
    requires
        ({
            let a = d.walk(roots, false, follow_type_only, check_js);
            let b = e.walk(roots, false, follow_type_only, check_js);
            &&& a.complete() == b.complete()
            &&& forall|s: SpecifierView| #[trigger] a.visits(s) == b.visits(s)
            &&& forall|s: SpecifierView| #[trigger]
                a.visits(s) && a.complete() ==> d.failure(a, s) == e.failure(b, s)
        }),
    ensures
        d.checked(roots, follow_type_only, check_js, result) == e.checked(
            roots,
            follow_type_only,
            check_js,
            result,
        ),
{
    let a = d.walk(roots, false, follow_type_only, check_js);
    let b = e.walk(roots, false, follow_type_only, check_js);
    match result {
        None => {},
        Some(Ok(_)) => {
            if d.checked(roots, follow_type_only, check_js, result) {
                assert forall|s: SpecifierView| #[trigger] b.visits(s) implies e.failure(b, s)
                    is None by {
                    assert(a.visits(s));
                }
            }
            if e.checked(roots, follow_type_only, check_js, result) {
                assert forall|s: SpecifierView| #[trigger] a.visits(s) implies d.failure(a, s)
                    is None by {
                    assert(b.visits(s));
                }
            }
        },
        Some(Err(error)) => {
            if d.checked(roots, follow_type_only, check_js, result) {
                let s = choose|s: SpecifierView| #[trigger]
                    a.visits(s) && d.failure(a, s) == Some(error);
                assert(b.visits(s));
            }
            if e.checked(roots, follow_type_only, check_js, result) {
                let s = choose|s: SpecifierView| #[trigger]
                    b.visits(s) && e.failure(b, s) == Some(error);
                assert(a.visits(s));
            }
        },
    }
}

/// A segment answers every check as the whole does, from any roots within its
/// own reach, and no such check finds a module that is not known.
pub proof fn law_segment_checks_alike(
    data: GraphDataView,
    roots: Seq<(SpecifierView, ModuleKind)>,
    others: Seq<(SpecifierView, ModuleKind)>,
    follow_type_only: bool,
    check_js: bool,
    result: Option<Result<(), CheckErrorView>>,
)
    requires
        data.segment(roots) is Some,
        forall|i: int|
            0 <= i < others.len() ==> data.walk(roots, true, true, true).reaches(
                (#[trigger] others[i]).0,
            ),
    ensures
        data.segment(roots)->0.checked(others, follow_type_only, check_js, result)
            == data.checked(others, follow_type_only, check_js, result),
        data.checked(others, follow_type_only, check_js, result) ==> result is Some,
{
    let segment = data.segment(roots)->0;
    let whole = data.walk(others, false, follow_type_only, check_js);
    let part = segment.walk(others, false, follow_type_only, check_js);
    law_segment_walks_alike(data, roots, others, false, follow_type_only, check_js);
    assert(whole.visited() == part.visited());
    assert forall|s: SpecifierView| #[trigger] whole.visits(s) == part.visits(s) by {
        assert(whole.visited().contains_key(s) == whole.visits(s));
        assert(part.visited().contains_key(s) == part.visits(s));
    }
    assert forall|s: SpecifierView| #[trigger] whole.visits(s) implies data.failure(whole, s)
        == segment.failure(part, s) by {
        assert(part.visits(s));
        assert(segment.modules.contains_key(s));
        lemma_same_failure(
            whole,
            part,
            data.referrer_map,
            segment.referrer_map,
            s,
            data.modules[s],
        );
    }
    lemma_same_checks(
        data,
        segment,
        others,
        follow_type_only,
        check_js,
        result,
    );
}

/// A mark as checked does not change where a walk goes on to.
proof fn lemma_mark_goes_on_alike(walk: Walk, entry: ModuleEntryView, lib: TsTypeLib)
    ensures
        go_on_alike(walk, entry, entry.with_lib(lib)),
{
    assert forall|t: SpecifierView| #[trigger]
        walk.follows(entry, t) == walk.follows(entry.with_lib(lib), t) by {
        if let ModuleEntryView::Module { dependencies, media_type, maybe_types, .. } = entry {
            let with_types = walk.checks_types(media_type);
            let by_types = with_types && maybe_types is Some && maybe_types->0.leads_to(t);
            if walk.follows(entry, t) && !by_types {
                let i = choose|i: int|
                    #![trigger dependencies[i]]
                    0 <= i < dependencies.len() && walk.follows_import(dependencies[i])
                        && dependencies[i].leads_to(with_types, t);
                let marked = entry.with_lib(lib);
                assert(marked is Module && marked->media_type == media_type);
                assert(marked->dependencies[i] == dependencies[i]);
                assert(walk.follows(marked, t));
            }
            if walk.follows(entry.with_lib(lib), t) && !by_types {
                let i = choose|i: int|
                    #![trigger dependencies[i]]
                    0 <= i < dependencies.len() && walk.follows_import(dependencies[i])
                        && dependencies[i].leads_to(with_types, t);
                assert(walk.follows(entry, t));
            }
        }
    }
}

/// Marking modules as checked changes neither which modules are known nor where
/// any walk comes to.
pub proof fn law_marks_change_no_walk(
    data: GraphDataView,
    roots: Seq<(SpecifierView, ModuleKind)>,
    lib: TsTypeLib,
    others: Seq<(SpecifierView, ModuleKind)>,
    follow_dynamic: bool,
    follow_type_only: bool,
    check_js: bool,
)
    ensures
        data.with_checked(roots, lib).modules.dom() == data.modules.dom(),
        forall|s: SpecifierView|
            data.with_checked(roots, lib).walk(
                others,
                follow_dynamic,
                follow_type_only,
                check_js,
            ).visits(s) == #[trigger] data.walk(
                others,
                follow_dynamic,
                follow_type_only,
                check_js,
            ).visits(s),
        data.with_checked(roots, lib).walk(
            others,
            follow_dynamic,
            follow_type_only,
            check_js,
        ).complete() == data.walk(others, follow_dynamic, follow_type_only, check_js).complete(),
{
    let marked = data.with_checked(roots, lib);
    let a = data.walk(others, follow_dynamic, follow_type_only, check_js);
    let b = marked.walk(others, follow_dynamic, follow_type_only, check_js);
    assert(marked.modules.dom() =~= data.modules.dom());
    assert forall|s: SpecifierView| #[trigger] a.visits(s) implies {
        &&& a.modules.contains_key(s) == b.modules.contains_key(s)
        &&& a.modules.contains_key(s) ==> go_on_alike(a, a.modules[s], b.modules[s])
    } by {
        lemma_mark_goes_on_alike(a, a.modules[s], lib);
    }
    lemma_same_reach(a, b);
    assert forall|s: SpecifierView| b.visits(s) == #[trigger] a.visits(s) by {
        assert(a.reaches(s) <==> b.reaches(s));
    }
    assert(a.complete() ==> b.complete()) by {
        if a.complete() {
            assert forall|s: SpecifierView| #[trigger] b.visits(s) implies b.modules.contains_key(
                s,
            ) by {
                assert(a.visits(s));
            }
        }
    }
    assert(b.complete() ==> a.complete()) by {
        if b.complete() {
            assert forall|s: SpecifierView| #[trigger] a.visits(s) implies a.modules.contains_key(
                s,
            ) by {
                assert(b.visits(s));
            }
        }
    }
}

/// Marking modules as checked changes no answer of a check.
pub proof fn law_marks_change_no_check(
    data: GraphDataView,
    roots: Seq<(SpecifierView, ModuleKind)>,
    lib: TsTypeLib,
    others: Seq<(SpecifierView, ModuleKind)>,
    follow_type_only: bool,
    check_js: bool,
    result: Option<Result<(), CheckErrorView>>,
)
    ensures
        data.with_checked(roots, lib).checked(others, follow_type_only, check_js, result)
            == data.checked(others, follow_type_only, check_js, result),
{
    let marked = data.with_checked(roots, lib);
    let a = data.walk(others, false, follow_type_only, check_js);
    let b = marked.walk(others, false, follow_type_only, check_js);
    law_marks_change_no_walk(data, roots, lib, others, false, follow_type_only, check_js);
    assert forall|s: SpecifierView| #[trigger] a.visits(s) && a.complete() implies data.failure(
        a,
        s,
    ) == marked.failure(b, s) by {
        assert(a.modules.contains_key(s));
        lemma_same_failure(a, b, data.referrer_map, data.referrer_map, s, data.modules[s]);
        let entry = data.modules[s];
        assert(b.entry_failure(data.referrer_map, s, entry) == b.entry_failure(
            data.referrer_map,
            s,
            entry.with_lib(lib),
        ));
    }
    lemma_same_checks(data, marked, others, follow_type_only, check_js, result);
}

/// Marking from `roots` marks every module to which a walk comes that follows
/// everything. It removes no mark, and adds none but these.
pub proof fn law_marks(
    data: GraphDataView,
    roots: Seq<(SpecifierView, ModuleKind)>,
    lib: TsTypeLib,
)
    requires
        data.walk(roots, true, true, true).complete(),
    ensures
        forall|s: SpecifierView|
            data.walk(roots, true, true, true).visits(s) && data.has_module(s) ==> #[trigger]
            data.with_checked(roots, lib).passed(s, lib),
        forall|s: SpecifierView, l: TsTypeLib|
            data.passed(s, l) ==> #[trigger] data.with_checked(roots, lib).passed(s, l),
        forall|s: SpecifierView, l: TsTypeLib| #[trigger]
            data.with_checked(roots, lib).passed(s, l) ==> data.passed(s, l) || (l == lib
                && data.walk(roots, true, true, true).visits(s)),
{
}

/// After marking from `roots`, they are found checked exactly if each of them
/// is a module or was redirected to one.
pub proof fn law_marked_roots_are_checked(
    data: GraphDataView,
    roots: Seq<(SpecifierView, ModuleKind)>,
    lib: TsTypeLib,
)
    requires
        data.walk(roots, true, true, true).complete(),
        data.valid(),
    ensures
        data.with_checked(roots, lib).type_checked(roots, lib) <==> forall|i: int|
            0 <= i < roots.len() ==> data.has_module(data.followed((#[trigger] roots[i]).0)),
{
    let walk = data.walk(roots, true, true, true);
    let marked = data.with_checked(roots, lib);
    assert forall|i: int| 0 <= i < roots.len() implies marked.passed(
        marked.followed((#[trigger] roots[i]).0),
        lib,
    ) == data.has_module(data.followed(roots[i].0)) by {
        let root = roots[i].0;
        assert(walk.roots[i].0 == root);
        walk.lemma_reaches_start(root);
        let found = data.followed(root);
        assert(marked.followed(root) == found);
        if data.has_module(found) {
            if found != root {
                assert(walk.steps(root, found));
                walk.lemma_reaches_step(root, found);
            }
            assert(walk.visits(found));
        }
    }
    if marked.type_checked(roots, lib) {
        assert forall|i: int| 0 <= i < roots.len() implies data.has_module(
            data.followed((#[trigger] roots[i]).0),
        ) by {
            assert(marked.passed(marked.followed(roots[i].0), lib));
        }
    }
}

/// Imports without errors where types count have none where they do not.
proof fn lemma_fewer_import_errors(imports: Seq<ImportView>)
    requires
        first_import_error(imports, true) is None,
    ensures
        first_import_error(imports, false) is None,
    decreases imports.len(),
{
    if imports.len() > 0 {
        assert(import_error(imports[0], true) is None);
        lemma_fewer_import_errors(imports.drop_first());
    }
}

/// What passes a check passes every check that follows less.
pub proof fn law_passes_weaker_checks(
    data: GraphDataView,
    roots: Seq<(SpecifierView, ModuleKind)>,
    strict_type_only: bool,
    strict_js: bool,
    follow_type_only: bool,
    check_js: bool,
)
    requires
        follow_type_only ==> strict_type_only,
        check_js ==> strict_js,
        data.checked(roots, strict_type_only, strict_js, Some(Ok(()))),
    ensures
        data.checked(roots, follow_type_only, check_js, Some(Ok(()))),
{
    let strict = data.walk(roots, false, strict_type_only, strict_js);
    let weak = data.walk(roots, false, follow_type_only, check_js);
    law_following_more_visits_more(weak, strict);
    assert forall|s: SpecifierView| #[trigger] weak.visits(s) implies data.failure(weak, s)
        is None by {
        assert(strict.visits(s));
        assert(data.failure(strict, s) is None);
        if let ModuleEntryView::Module { dependencies, media_type, maybe_types, .. } =
            data.modules[s] {
            let strictly = strict.checks_types(media_type);
            let weakly = weak.checks_types(media_type);
            assert(module_error(dependencies, maybe_types, strictly) is None);
            if strictly && !weakly {
                lemma_fewer_import_errors(dependencies);
            }
            assert(module_error(dependencies, maybe_types, weakly) is None);
        }
    }
}

/// Roots that are found checked stay so when more is marked, and when a graph is
/// added without loading again what is known.
pub proof fn law_checked_roots_stay_checked(
    data: GraphDataView,
    roots: Seq<(SpecifierView, ModuleKind)>,
    lib: TsTypeLib,
    others: Seq<(SpecifierView, ModuleKind)>,
    other: TsTypeLib,
    graph: ModuleGraphView,
)
    requires
        data.type_checked(roots, lib),
    ensures
        data.with_checked(others, other).type_checked(roots, lib),
        data.with_graph(graph, false).type_checked(roots, lib),
{
    let marked = data.with_checked(others, other);
    let more = data.with_graph(graph, false);
    law_known_entries_are_kept(data, graph);
    assert forall|i: int| 0 <= i < roots.len() implies marked.passed(
        marked.followed((#[trigger] roots[i]).0),
        lib,
    ) && more.passed(more.followed(roots[i].0), lib) by {
        let root = roots[i].0;
        let found = data.followed(root);
        assert(data.passed(found, lib));
        assert(data.modules.dom().contains(root));
        assert(more.modules.dom().contains(root));
        assert(data.modules.dom().contains(found));
        assert(more.modules.dom().contains(found));
        assert(marked.followed(root) == found);
        assert(more.followed(root) == found);
    }
}

/// A segment finds the same roots checked as the whole does, among those within
/// its own reach.
pub proof fn law_segment_marks_alike(
    data: GraphDataView,
    roots: Seq<(SpecifierView, ModuleKind)>,
    others: Seq<(SpecifierView, ModuleKind)>,
    lib: TsTypeLib,
)
    requires
        data.valid(),
        data.segment(roots) is Some,
        forall|i: int|
            0 <= i < others.len() ==> data.walk(roots, true, true, true).reaches(
                (#[trigger] others[i]).0,
            ),
    ensures
        data.segment(roots)->0.type_checked(others, lib) == data.type_checked(others, lib),
{
    let segment = data.segment(roots)->0;
    let all = data.walk(roots, true, true, true);
    assert forall|i: int| 0 <= i < others.len() implies segment.passed(
        segment.followed((#[trigger] others[i]).0),
        lib,
    ) == data.passed(data.followed(others[i].0), lib) by {
        let root = others[i].0;
        let found = data.followed(root);
        assert(all.reaches(root));
        if !root.npm {
            assert(all.visits(root));
            if found != root {
                assert(all.steps(root, found));
                all.lemma_reaches_step(root, found);
            }
            if !found.npm {
                assert(all.visits(found));
            }
        }
        assert(segment.followed(root) == found);
    }
    if segment.type_checked(others, lib) {
        assert forall|i: int| 0 <= i < others.len() implies data.passed(
            data.followed((#[trigger] others[i]).0),
            lib,
        ) by {
            assert(segment.passed(segment.followed(others[i].0), lib));
        }
    }
    if data.type_checked(others, lib) {
        assert forall|i: int| 0 <= i < others.len() implies segment.passed(
            segment.followed((#[trigger] others[i]).0),
            lib,
        ) by {
            assert(data.passed(data.followed(others[i].0), lib));
        }
    }
}

/// A specifier that was redirected has the dependencies of the module to which
/// it was redirected, unless that was redirected in turn.
pub proof fn law_dependencies_through_redirect(data: GraphDataView, specifier: SpecifierView)
    requires
        data.followed(data.followed(specifier)) == data.followed(specifier),
    ensures
        data.dependencies_of(specifier) == data.dependencies_of(data.followed(specifier)),
{
}

/// Where one walk starts and goes, the other starts and goes too.
spec fn goes_with(a: Walk, b: Walk) -> bool {
    &&& forall|s: SpecifierView| a.starts_at(s) ==> #[trigger] b.starts_at(s)
    &&& forall|s: SpecifierView, t: SpecifierView| a.steps(s, t) ==> #[trigger] b.steps(s, t)
}

/// A walk comes to whatever one comes to with which it goes.
proof fn lemma_goes_with(a: Walk, b: Walk)
    requires
        goes_with(a, b),
    ensures
        forall|s: SpecifierView| #[trigger] a.reaches(s) ==> b.reaches(s),
{
    let set = Set::new(|s: SpecifierView| b.reaches(s));
    assert forall|s: SpecifierView| a.starts_at(s) implies set.contains(s) by {
        assert(b.starts_at(s));
        b.lemma_reaches_start(s);
    }
    assert forall|x: SpecifierView, y: SpecifierView|
        set.contains(x) && #[trigger] a.steps(x, y) implies set.contains(y) by {
        assert(b.steps(x, y));
        b.lemma_reaches_step(x, y);
    }
    a.lemma_reaches_within(set);
}

/// Where types are not followed, it makes no difference to walks and checks
/// whether JavaScript is checked.
pub proof fn law_check_js_needs_types(
    data: GraphDataView,
    roots: Seq<(SpecifierView, ModuleKind)>,
    follow_dynamic: bool,
    result: Option<Result<(), CheckErrorView>>,
)
    ensures
        data.walk(roots, follow_dynamic, false, true).outcome() == data.walk(
            roots,
            follow_dynamic,
            false,
            false,
        ).outcome(),
        data.checked(roots, false, true, result) == data.checked(roots, false, false, result),
{
    lemma_check_js_reaches(data, roots, follow_dynamic);
    let a = data.walk(roots, follow_dynamic, false, true);
    let b = data.walk(roots, follow_dynamic, false, false);
    assert(a.visited() =~= b.visited());
    lemma_check_js_reaches(data, roots, false);
    let c = data.walk(roots, false, false, true);
    let d = data.walk(roots, false, false, false);
    assert(c.complete() == d.complete());
    assert forall|s: SpecifierView| data.failure(c, s) == data.failure(d, s) by {
        assert(c.has_root(s) == d.has_root(s));
    }
    match result {
        None => {},
        Some(Ok(_)) => {},
        Some(Err(error)) => {
            if data.checked(roots, false, true, result) {
                let s = choose|s: SpecifierView| #[trigger]
                    c.visits(s) && data.failure(c, s) == Some(error);
                assert(d.visits(s));
            }
            if data.checked(roots, false, false, result) {
                let s = choose|s: SpecifierView| #[trigger]
                    d.visits(s) && data.failure(d, s) == Some(error);
                assert(c.visits(s));
            }
        },
    }
}

/// Where types are not followed, walks come to the same whether or not
/// JavaScript is checked.
proof fn lemma_check_js_reaches(
    data: GraphDataView,
    roots: Seq<(SpecifierView, ModuleKind)>,
    follow_dynamic: bool,
)
    ensures
        forall|s: SpecifierView|
            #![trigger data.walk(roots, follow_dynamic, false, true).visits(s)]
            #![trigger data.walk(roots, follow_dynamic, false, false).visits(s)]
            data.walk(roots, follow_dynamic, false, true).visits(s) == data.walk(
                roots,
                follow_dynamic,
                false,
                false,
            ).visits(s),
{
    let a = data.walk(roots, follow_dynamic, false, true);
    let b = data.walk(roots, follow_dynamic, false, false);
    law_following_more_visits_more(b, a);
    assert forall|s: SpecifierView| a.starts_at(s) implies #[trigger] b.starts_at(s) by {
        if a.has_root(s) {
            let i = choose|i: int| 0 <= i < a.roots.len() && (#[trigger] a.roots[i]).0 == s;
            assert(b.roots[i].0 == s);
        } else {
            let (i, j) = choose|i: int, j: int|
                #![trigger a.imports[i].dependencies[j]]
                0 <= i < a.imports.len() && 0 <= j < a.imports[i].dependencies.len()
                    && a.imports[i].dependencies[j].leads_to(a.follow_type_only, s);
            assert(b.imports[i].dependencies[j].leads_to(b.follow_type_only, s));
        }
    }
    assert forall|s: SpecifierView, t: SpecifierView| a.steps(s, t) implies #[trigger] b.steps(
        s,
        t,
    ) by {
        if let ModuleEntryView::Module { dependencies, media_type, .. } = a.modules[s] {
            let i = choose|i: int|
                #![trigger dependencies[i]]
                0 <= i < dependencies.len() && a.follows_import(dependencies[i])
                    && dependencies[i].leads_to(a.checks_types(media_type), t);
            assert(b.follows_import(dependencies[i]));
            assert(dependencies[i].leads_to(b.checks_types(media_type), t));
        }
    }
    lemma_goes_with(a, b);
    assert forall|s: SpecifierView| #[trigger] a.visits(s) implies b.visits(s) by {
        assert(a.reaches(s));
    }
}

/// A walk from joined roots comes to what the walks from either come to, and is
/// complete exactly if both are.
pub proof fn law_joined_roots(
    data: GraphDataView,
    first: Seq<(SpecifierView, ModuleKind)>,
    second: Seq<(SpecifierView, ModuleKind)>,
    follow_dynamic: bool,
    follow_type_only: bool,
    check_js: bool,
)
    ensures
        ({
            let a = data.walk(first, follow_dynamic, follow_type_only, check_js);
            let b = data.walk(second, follow_dynamic, follow_type_only, check_js);
            let both = data.walk(first + second, follow_dynamic, follow_type_only, check_js);
            &&& forall|s: SpecifierView| #[trigger]
                both.visits(s) <==> a.visits(s) || b.visits(s)
            &&& both.outcome() == if a.outcome() is Some && b.outcome() is Some {
                Some(a.outcome()->0.union_prefer_right(b.outcome()->0))
            } else {
                None
            }
        }),
{
    let a = data.walk(first, follow_dynamic, follow_type_only, check_js);
    let b = data.walk(second, follow_dynamic, follow_type_only, check_js);
    let both = data.walk(first + second, follow_dynamic, follow_type_only, check_js);
    assert forall|i: int| 0 <= i < a.roots.len() implies both.reaches(
        (#[trigger] a.roots[i]).0,
    ) by {
        assert(both.roots[i] == a.roots[i]);
        assert(both.has_root(a.roots[i].0));
        both.lemma_reaches_start(a.roots[i].0);
    }
    assert forall|i: int| 0 <= i < b.roots.len() implies both.reaches(
        (#[trigger] b.roots[i]).0,
    ) by {
        assert(both.roots[first.len() + i] == b.roots[i]);
        assert(both.has_root(b.roots[i].0));
        both.lemma_reaches_start(b.roots[i].0);
    }
    lemma_walk_within(a, both);
    lemma_walk_within(b, both);
    let either = Set::new(|s: SpecifierView| a.reaches(s) || b.reaches(s));
    assert forall|s: SpecifierView| both.starts_at(s) implies either.contains(s) by {
        if both.has_root(s) {
            let i = choose|i: int|
                0 <= i < both.roots.len() && (#[trigger] both.roots[i]).0 == s;
            if i < first.len() {
                assert(a.roots[i].0 == s);
                a.lemma_reaches_start(s);
            } else {
                assert(b.roots[i - first.len()].0 == s);
                b.lemma_reaches_start(s);
            }
        } else {
            let (i, j) = choose|i: int, j: int|
                #![trigger both.imports[i].dependencies[j]]
                0 <= i < both.imports.len() && 0 <= j < both.imports[i].dependencies.len()
                    && both.imports[i].dependencies[j].leads_to(both.follow_type_only, s);
            assert(a.imports[i].dependencies[j].leads_to(a.follow_type_only, s));
            assert(a.has_import(s));
            a.lemma_reaches_start(s);
        }
    }
    assert forall|x: SpecifierView, y: SpecifierView|
        either.contains(x) && #[trigger] both.steps(x, y) implies either.contains(y) by {
        lemma_steps_monotone(both, a, both.modules[x], y);
        lemma_steps_monotone(both, b, both.modules[x], y);
        if a.reaches(x) {
            a.lemma_reaches_step(x, y);
        } else {
            b.lemma_reaches_step(x, y);
        }
    }
    both.lemma_reaches_within(either);
    assert forall|s: SpecifierView| #[trigger] both.visits(s) <==> a.visits(s) || b.visits(s) by {
        assert(both.reaches(s) ==> either.contains(s));
        assert(a.reaches(s) ==> both.reaches(s));
        assert(b.reaches(s) ==> both.reaches(s));
    }
    assert forall|s: SpecifierView| #[trigger] a.visits(s) implies both.visits(s) by {}
    assert forall|s: SpecifierView| #[trigger] b.visits(s) implies both.visits(s) by {}
    if both.complete() {
        assert(a.complete());
        assert(b.complete());
        let joined = a.visited().union_prefer_right(b.visited());
        assert forall|s: SpecifierView|
            both.visited().contains_key(s) == joined.contains_key(s) by {
            assert(both.visits(s) <==> a.visits(s) || b.visits(s));
            assert(joined.contains_key(s) <==> a.visited().contains_key(s)
                || b.visited().contains_key(s));
        }
        assert(both.visited() =~= joined);
    } else {
        let s = choose|s: SpecifierView| #[trigger]
            both.visits(s) && !both.modules.contains_key(s);
        assert(a.visits(s) || b.visits(s));
    }
}

/// The imports that are not dynamic, in their order.
pub open spec fn static_imports(imports: Seq<ImportView>) -> Seq<ImportView>
    decreases imports.len(),
{
    if imports.len() == 0 {
        Seq::empty()
    } else if imports[0].dependency.is_dynamic {
        static_imports(imports.drop_first())
    } else {
        seq![imports[0]] + static_imports(imports.drop_first())
    }
}

/// Both entries are the same but for the dynamic imports, the code and the marks
/// of modules.
pub open spec fn alike_but_dynamic(e: ModuleEntryView, f: ModuleEntryView) -> bool {
    if e is Module && f is Module {
        &&& e->media_type == f->media_type
        &&& e->maybe_types == f->maybe_types
        &&& static_imports(e->dependencies) == static_imports(f->dependencies)
    } else {
        e == f
    }
}

/// The imports that are not dynamic are among the static ones, and these have
/// the same first error.
proof fn lemma_static_imports(imports: Seq<ImportView>, with_types: bool)
    ensures
        forall|x: ImportView| #[trigger]
            static_imports(imports).contains(x) <==> imports.contains(x)
                && !x.dependency.is_dynamic,
        first_import_error(imports, with_types) == first_import_error(
            static_imports(imports),
            with_types,
        ),
    decreases imports.len(),
{
    if imports.len() > 0 {
        let later = imports.drop_first();
        let all = static_imports(imports);
        lemma_static_imports(later, with_types);
        assert forall|x: ImportView| #[trigger] all.contains(x) <==> imports.contains(x)
            && !x.dependency.is_dynamic by {
            assert(imports.contains(x) <==> x == imports[0] || later.contains(x)) by {
                if imports.contains(x) && x != imports[0] {
                    let k = choose|k: int| 0 <= k < imports.len() && imports[k] == x;
                    assert(later[k - 1] == x);
                }
                if later.contains(x) {
                    let k = choose|k: int| 0 <= k < later.len() && later[k] == x;
                    assert(imports[k + 1] == x);
                }
            }
            if !imports[0].dependency.is_dynamic {
                let rest = static_imports(later);
                assert(all =~= seq![imports[0]] + rest);
                if all.contains(x) && x != imports[0] {
                    let k = choose|k: int| 0 <= k < all.len() && all[k] == x;
                    assert(rest[k - 1] == x);
                }
                if rest.contains(x) {
                    let k = choose|k: int| 0 <= k < rest.len() && rest[k] == x;
                    assert(all[k + 1] == x);
                }
                assert(all[0] == imports[0]);
            }
        }
        if !imports[0].dependency.is_dynamic {
            assert(all.drop_first() =~= static_imports(later));
            assert(all[0] == imports[0]);
        }
    }
}

/// A walk that does not follow dynamic imports goes on from `e` to whatever it
/// goes on to from `f`.
proof fn lemma_alike_goes_on(
    walk: Walk,
    e: ModuleEntryView,
    f: ModuleEntryView,
    t: SpecifierView,
)
    requires
        !walk.follow_dynamic,
        alike_but_dynamic(e, f),
        walk.follows(e, t),
    ensures
        walk.follows(f, t),
{
    if e is Module && f is Module {
        let with_types = walk.checks_types(e->media_type);
        if !(with_types && e->maybe_types is Some && e->maybe_types->0.leads_to(t)) {
            let from = e->dependencies;
            let i = choose|i: int|
                #![trigger from[i]]
                0 <= i < from.len() && walk.follows_import(from[i]) && from[i].leads_to(
                    with_types,
                    t,
                );
            lemma_static_imports(from, with_types);
            lemma_static_imports(f->dependencies, with_types);
            assert(from.contains(from[i]));
            assert(static_imports(from).contains(from[i]));
            assert(static_imports(f->dependencies).contains(from[i]));
            assert(f->dependencies.contains(from[i]));
            let to = f->dependencies;
            let k = choose|k: int| 0 <= k < to.len() && to[k] == from[i];
            assert(f->dependencies[k] == from[i]);
            assert(walk.follows_import(f->dependencies[k]));
        }
    }
}

/// Dynamic imports make no difference to a check: data that differs only in
/// them, in code and in marks has a check fail, pass or find a module unknown
/// alike, and answer alike if the referrers are the same.
pub proof fn law_dynamic_imports_change_no_check(
    d: GraphDataView,
    e: GraphDataView,
    roots: Seq<(SpecifierView, ModuleKind)>,
    follow_type_only: bool,
    check_js: bool,
)
    requires
        d.graph_imports == e.graph_imports,
        d.modules.dom() == e.modules.dom(),
        forall|s: SpecifierView| #[trigger]
            d.modules.contains_key(s) ==> alike_but_dynamic(d.modules[s], e.modules[s]),
    ensures
        d.checked(roots, follow_type_only, check_js, None) == e.checked(
            roots,
            follow_type_only,
            check_js,
            None,
        ),
        d.checked(roots, follow_type_only, check_js, Some(Ok(()))) == e.checked(
            roots,
            follow_type_only,
            check_js,
            Some(Ok(())),
        ),
        (exists|x: CheckErrorView| #[trigger]
            d.checked(roots, follow_type_only, check_js, Some(Err(x)))) == (exists|
            x: CheckErrorView,
        | #[trigger]
            e.checked(roots, follow_type_only, check_js, Some(Err(x)))),
        d.referrer_map == e.referrer_map ==> forall|result: Option<Result<(), CheckErrorView>>|
            d.checked(roots, follow_type_only, check_js, result) == #[trigger] e.checked(
                roots,
                follow_type_only,
                check_js,
                result,
            ),
{
    let a = d.walk(roots, false, follow_type_only, check_js);
    let b = e.walk(roots, false, follow_type_only, check_js);
    assert forall|s: SpecifierView| #[trigger] a.visits(s) implies {
        &&& a.modules.contains_key(s) == b.modules.contains_key(s)
        &&& a.modules.contains_key(s) ==> go_on_alike(a, a.modules[s], b.modules[s])
    } by {
        assert(d.modules.dom().contains(s) == e.modules.dom().contains(s));
        if a.modules.contains_key(s) {
            assert forall|t: SpecifierView| #[trigger]
                a.follows(a.modules[s], t) == a.follows(b.modules[s], t) by {
                if a.follows(a.modules[s], t) {
                    lemma_alike_goes_on(a, a.modules[s], b.modules[s], t);
                }
                if a.follows(b.modules[s], t) {
                    lemma_alike_goes_on(a, b.modules[s], a.modules[s], t);
                }
            }
        }
    }
    lemma_same_reach(a, b);
    assert forall|s: SpecifierView| #[trigger] a.visits(s) == b.visits(s) by {
        assert(a.reaches(s) <==> b.reaches(s));
    }
    assert forall|s: SpecifierView| #[trigger] b.visits(s) == a.visits(s) by {
        assert(a.visits(s) == b.visits(s));
    }
    assert(a.complete() == b.complete()) by {
        assert(forall|s: SpecifierView|
            d.modules.dom().contains(s) == e.modules.dom().contains(s));
        if a.complete() {
            assert forall|s: SpecifierView| #[trigger] b.visits(s) implies b.modules.contains_key(
                s,
            ) by {
                assert(a.visits(s));
                assert(a.modules.contains_key(s));
            }
        }
        if b.complete() {
            assert forall|s: SpecifierView| #[trigger] a.visits(s) implies a.modules.contains_key(
                s,
            ) by {
                assert(b.visits(s));
                assert(b.modules.contains_key(s));
            }
        }
    }
    assert forall|s: SpecifierView| #[trigger] a.visits(s) && a.complete() implies {
        &&& (d.failure(a, s) is None) == (e.failure(b, s) is None)
        &&& d.referrer_map == e.referrer_map ==> d.failure(a, s) == e.failure(b, s)
    } by {
        assert(a.modules.contains_key(s));
        let entry = d.modules[s];
        let other = e.modules[s];
        assert(alike_but_dynamic(entry, other));
        assert(a.has_root(s) == b.has_root(s));
        if entry is Module {
            let with_types = a.checks_types(entry->media_type);
            lemma_static_imports(entry->dependencies, with_types);
            lemma_static_imports(other->dependencies, with_types);
        }
    }
    lemma_same_kinds(d, e, roots, follow_type_only, check_js);
    if d.referrer_map == e.referrer_map {
        assert forall|result: Option<Result<(), CheckErrorView>>|
            d.checked(roots, follow_type_only, check_js, result) == #[trigger] e.checked(
                roots,
                follow_type_only,
                check_js,
                result,
            ) by {
            lemma_same_checks(d, e, roots, follow_type_only, check_js, result);
        }
    }
}

/// Two checks return the same kind of result if they come to the same modules
/// and the same of these fail.
proof fn lemma_same_kinds(
    d: GraphDataView,
    e: GraphDataView,
    roots: Seq<(SpecifierView, ModuleKind)>,
    follow_type_only: bool,
    check_js: bool,
)
    requires
        ({
            let a = d.walk(roots, false, follow_type_only, check_js);
            let b = e.walk(roots, false, follow_type_only, check_js);
            &&& a.complete() == b.complete()
            &&& forall|s: SpecifierView| #[trigger] a.visits(s) == b.visits(s)
            &&& forall|s: SpecifierView| #[trigger] b.visits(s) == a.visits(s)
            &&& forall|s: SpecifierView| #[trigger]
                a.visits(s) && a.complete() ==> (d.failure(a, s) is None) == (e.failure(
                    b,
                    s,
                ) is None)
        }),
    ensures
        d.checked(roots, follow_type_only, check_js, None) == e.checked(
            roots,
            follow_type_only,
            check_js,
            None,
        ),
        d.checked(roots, follow_type_only, check_js, Some(Ok(()))) == e.checked(
            roots,
            follow_type_only,
            check_js,
            Some(Ok(())),
        ),
        (exists|x: CheckErrorView| #[trigger]
            d.checked(roots, follow_type_only, check_js, Some(Err(x)))) == (exists|
            x: CheckErrorView,
        | #[trigger]
            e.checked(roots, follow_type_only, check_js, Some(Err(x)))),
{
    let a = d.walk(roots, false, follow_type_only, check_js);
    let b = e.walk(roots, false, follow_type_only, check_js);
    if exists|x: CheckErrorView| #[trigger]
        d.checked(roots, follow_type_only, check_js, Some(Err(x))) {
        let x = choose|x: CheckErrorView| #[trigger]
            d.checked(roots, follow_type_only, check_js, Some(Err(x)));
        let s = choose|s: SpecifierView| #[trigger]
            a.visits(s) && d.failure(a, s) == Some(x);
        assert(b.visits(s));
        assert(e.checked(roots, follow_type_only, check_js, Some(Err(e.failure(b, s)->0))));
    }
    if exists|x: CheckErrorView| #[trigger]
        e.checked(roots, follow_type_only, check_js, Some(Err(x))) {
        let x = choose|x: CheckErrorView| #[trigger]
            e.checked(roots, follow_type_only, check_js, Some(Err(x)));
        let s = choose|s: SpecifierView| #[trigger]
            b.visits(s) && e.failure(b, s) == Some(x);
        assert(a.visits(s));
        assert(d.checked(roots, follow_type_only, check_js, Some(Err(d.failure(a, s)->0))));
    }
}

} // verus!
