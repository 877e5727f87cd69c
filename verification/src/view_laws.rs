//! What values stand for, field by field and element by element.
use vstd::prelude::*;
use crate::check::{CheckError, CheckErrorView};
use crate::dependency::{Dependency, Import};
use crate::graph_data::{
    ModuleEntry, ModuleEntryView, check_result, entry_views, found_views, range_views,
};
use crate::lock::{LockStep, LockStepView};
use crate::module_graph::{
    GraphEntry, GraphImport, MediaType, Module, ModuleGraph, ModuleGraphError, NpmPackageReq,
    graph_imports, redirect_views, requirements, root_views,
};
use crate::resolution::{ModuleKind, Range, RangeView, ResolutionError, Resolved, ResolvedView};
use crate::specifier::{ModuleSpecifier, SpecifierView};
use crate::text::decimal;

verus! {

/// A specifier stands for its text, and for whether it names an npm package.
pub proof fn law_specifier_view(s: ModuleSpecifier)
    ensures
        s@.text == s.text@,
        s@.npm == s.npm,
{
}

/// A range stands for its module and both its ends. It is shown as the module,
/// the line and the character at which it starts, counted from 1.
pub proof fn law_range_view(r: Range, v: RangeView)
    ensures
        r@.specifier == r.specifier@,
        r@.start == r.start,
        r@.end == r.end,
        v.shown() == v.specifier.text + ":"@ + decimal((v.start.line + 1) as nat) + ":"@ + decimal(
            (v.start.character + 1) as nat,
        ),
{
}

/// A resolution stands for nothing, for all of what was found, or for all of the
/// error.
pub proof fn law_resolved_view(r: Resolved, e: ResolutionError)
    ensures
        e@.class == e.class@,
        e@.message == e.message@,
        e@.range == e.range@,
        match r {
            Resolved::Nothing => r@ is Nothing,
            Resolved::Found { specifier, kind, range } => r@ == (ResolvedView::Found {
                specifier: specifier@,
                kind,
                range: range@,
            }),
            Resolved::Failed(error) => r@ == ResolvedView::Failed(error@),
        },
{
}

/// An import stands for its text, for whether that names an npm package, and for
/// what it depends on.
pub proof fn law_import_view(i: Import, d: Dependency)
    ensures
        i@.text == i.text@,
        i@.npm == i.npm,
        i@.dependency == i.dependency@,
        d@.maybe_code == d.maybe_code@,
        d@.maybe_type == d.maybe_type@,
        d@.is_dynamic == d.is_dynamic,
        match d.maybe_assert_type {
            Some(text) => d@.maybe_assert_type == Some(text@),
            None => d@.maybe_assert_type is None,
        },
{
}

/// A module stands for all that is read of it.
pub proof fn law_module_view(m: Module)
    ensures
        m@.specifier == m.specifier@,
        m@.kind == m.kind,
        m@.media_type == m.media_type,
        m@.dependencies == m.dependencies@,
        match m.maybe_source {
            Some(source) => m@.maybe_source == Some(source@),
            None => m@.maybe_source is None,
        },
        match m.maybe_types_dependency {
            Some(types) => m@.maybe_types == Some(types.1@),
            None => m@.maybe_types is None,
        },
{
}

/// Errors and requirements stand for their texts.
pub proof fn law_text_views(e: ModuleGraphError, r: NpmPackageReq)
    ensures
        e@.class == e.class@,
        e@.message == e.message@,
        r@ == r.text@,
{
}

/// An entry of a graph stands for its specifier, and for its module or its error.
pub proof fn law_graph_entry_view(e: GraphEntry, i: GraphImport)
    ensures
        e@.specifier == e.specifier@,
        match e.result {
            Ok(module) => e@.result is Ok && e@.result->Ok_0 == (*module)@,
            Err(error) => e@.result is Err && e@.result->Err_0 == error@,
        },
        i@.referrer == i.referrer@,
        i@.dependencies == i.dependencies@,
{
}

/// Roots stand for themselves, one by one.
pub proof fn law_root_views(roots: Seq<(ModuleSpecifier, ModuleKind)>)
    ensures
        root_views(roots).len() == roots.len(),
        forall|i: int|
            0 <= i < roots.len() ==> #[trigger] root_views(roots)[i] == (roots[i].0@, roots[i].1),
{
}

/// Requirements stand for themselves, one by one.
pub proof fn law_requirements(reqs: Seq<NpmPackageReq>)
    ensures
        requirements(reqs).len() == reqs.len(),
        forall|i: int| 0 <= i < reqs.len() ==> #[trigger] requirements(reqs)[i] == reqs[i].text@,
{
}

/// The imports of configurations stand for themselves, one by one.
pub proof fn law_graph_imports(imports: Seq<GraphImport>)
    ensures
        graph_imports(imports).len() == imports.len(),
        forall|i: int| 0 <= i < imports.len() ==> #[trigger] graph_imports(imports)[i] == imports[i]@,
{
}

/// Redirects stand for themselves, one by one.
pub proof fn law_redirect_views(redirects: Map<SpecifierView, ModuleSpecifier>)
    ensures
        forall|s: SpecifierView| #[trigger]
            redirect_views(redirects).contains_key(s) <==> redirects.contains_key(s),
        forall|s: SpecifierView|
            redirects.contains_key(s) ==> #[trigger] redirect_views(redirects)[s] == redirects[s]@,
{
}

/// A graph stands for all of its roots, modules, specifiers, imports, redirects
/// and requirements, in their order.
pub proof fn law_graph_view(g: ModuleGraph)
    ensures
        g@.roots == root_views(g.roots@),
        g@.modules.len() == g.modules@.len(),
        forall|i: int|
            0 <= i < g.modules@.len() ==> #[trigger] g@.modules[i] == (*g.modules@[i])@,
        g@.specifiers.len() == g.specifiers@.len(),
        forall|i: int|
            0 <= i < g.specifiers@.len() ==> #[trigger] g@.specifiers[i] == g.specifiers@[i]@,
        g@.imports == graph_imports(g.imports@),
        g@.redirects == redirect_views(g.redirects@),
        g@.npm_package_reqs == requirements(g.npm_package_reqs@),
{
}

/// An entry stands for all of its module, for its error, or for its target.
pub proof fn law_module_entry_view(e: ModuleEntry)
    ensures
        match e {
            ModuleEntry::Module { code, dependencies, media_type, checked_libs, maybe_types } => {
                &&& e@ is Module
                &&& e@->code == code@
                &&& e@->dependencies == dependencies@
                &&& e@->media_type == media_type
                &&& e@->checked_libs == checked_libs@
                &&& match maybe_types {
                    Some(types) => e@->maybe_types == Some(types@),
                    None => e@->maybe_types is None,
                }
            },
            ModuleEntry::Error(error) => e@ == ModuleEntryView::Error(error@),
            ModuleEntry::Redirect(target) => e@ == ModuleEntryView::Redirect(target@),
        },
{
}

/// Entries, found or held, and ranges stand for themselves, one by one.
pub proof fn law_map_views(
    entries: Map<SpecifierView, ModuleEntry>,
    found: Map<SpecifierView, &ModuleEntry>,
    ranges: Map<SpecifierView, Range>,
)
    ensures
        forall|s: SpecifierView| #[trigger]
            entry_views(entries).contains_key(s) <==> entries.contains_key(s),
        forall|s: SpecifierView|
            entries.contains_key(s) ==> #[trigger] entry_views(entries)[s] == entries[s]@,
        forall|s: SpecifierView| #[trigger]
            found_views(found).contains_key(s) <==> found.contains_key(s),
        forall|s: SpecifierView|
            found.contains_key(s) ==> #[trigger] found_views(found)[s] == found[s]@,
        forall|s: SpecifierView| #[trigger]
            range_views(ranges).contains_key(s) <==> ranges.contains_key(s),
        forall|s: SpecifierView|
            ranges.contains_key(s) ==> #[trigger] range_views(ranges)[s] == ranges[s]@,
{
}

/// What a check returned stands for the same kind of result, with all of the
/// error.
pub proof fn law_check_result(result: Option<Result<(), CheckError>>, error: CheckError)
    ensures
        match result {
            None => check_result(result) is None,
            Some(Ok(_)) => check_result(result) is Some && check_result(result)->0 is Ok,
            Some(Err(e)) => check_result(result) is Some && check_result(result)->0 is Err
                && check_result(result)->0->Err_0 == e@,
        },
        match error {
            CheckError::Located { class, message } => error@ == (CheckErrorView::Located {
                class: class@,
                message: message@,
            }),
            CheckError::Resolution(e) => error@ == CheckErrorView::Resolution(e@),
            CheckError::Module(e) => error@ == CheckErrorView::Module(e@),
        },
{
}

/// A step stands for itself, with its position, or its code and message.
pub proof fn law_lock_step_view(step: LockStep)
    ensures
        match step {
            LockStep::Check { index } => step@ == (LockStepView::Check { index: index as int }),
            LockStep::Exit { code, message } => step@ == (LockStepView::Exit {
                code,
                message: message@,
            }),
            LockStep::Done => step@ is Done,
        },
{
}

/// Four of the media types are JavaScript, and no other.
pub proof fn law_javascript(m: MediaType)
    ensures
        m.is_js() <==> m == MediaType::JavaScript || m == MediaType::Mjs || m == MediaType::Cjs || m
            == MediaType::Jsx,
{
}

} // verus!
