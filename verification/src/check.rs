//! The errors that a check of modules reports.
use vstd::prelude::*;
use vstd::string::*;
use crate::dependency::{Dependencies, Import, ImportView};
use crate::graph_data::{ModuleEntry, ModuleEntryView, optional_resolved, range_views};
use crate::module_graph::{ModuleGraphError, ModuleGraphErrorView, root_views};
use crate::resolution::{
    ModuleKind, Range, RangeView, Resolved, ResolvedView, ResolutionError, ResolutionErrorView,
};
use crate::specifier::{ModuleSpecifier, SpecifierView};
use crate::specifier_map::SpecifierMap;
use crate::text::{contains_text, text_contains};
use crate::walk::Walk;

verus! {

/// What the error of a check stands for.
pub enum CheckErrorView {
    Located { class: Seq<char>, message: Seq<char> },
    Resolution(ResolutionErrorView),
    Module(ModuleGraphErrorView),
}

/// The error of a check.
#[derive(Debug, PartialEq, Eq)]
pub enum CheckError {
    /// An error whose message says where the import was written.
    Located { class: String, message: String },
    /// The error of a resolution, as it is.
    Resolution(ResolutionError),
    /// The error of a module, as it is.
    Module(ModuleGraphError),
}

impl View for CheckError {
    type V = CheckErrorView;

    open spec fn view(&self) -> CheckErrorView {
        match self {
            CheckError::Located { class, message } => CheckErrorView::Located {
                class: class@,
                message: message@,
            },
            CheckError::Resolution(error) => CheckErrorView::Resolution(error@),
            CheckError::Module(error) => CheckErrorView::Module(error@),
        }
    }
}

/// The range lies in a module that the runtime made up, which messages do not
/// show.
pub open spec fn made_up(range: RangeView) -> bool {
    text_contains(range.specifier.text, "$deno"@)
}

/// `message`, and below it where the import was written.
pub open spec fn located(message: Seq<char>, range: RangeView) -> Seq<char> {
    message + "\n    at "@ + range.shown()
}

/// What a check reports for `error`.
pub open spec fn resolution_failure(error: ResolutionErrorView) -> CheckErrorView {
    if made_up(error.range) {
        CheckErrorView::Resolution(error)
    } else {
        CheckErrorView::Located { class: error.class, message: located(error.message, error.range) }
    }
}

/// What a check reports for `error` where the module was imported at `referrer`.
pub open spec fn module_failure(
    error: ModuleGraphErrorView,
    referrer: Option<RangeView>,
) -> CheckErrorView {
    match referrer {
        Some(range) if !made_up(range) => CheckErrorView::Located {
            class: error.class,
            message: located(error.message, range),
        },
        _ => CheckErrorView::Module(error),
    }
}

/// The error of `import`: none if it is dynamic, else that of its code, else
/// that of its types where these count.
pub open spec fn import_error(import: ImportView, with_types: bool) -> Option<ResolutionErrorView> {
    if import.dependency.is_dynamic {
        None
    } else if import.dependency.maybe_code.error() is Some {
        import.dependency.maybe_code.error()
    } else if with_types {
        import.dependency.maybe_type.error()
    } else {
        None
    }
}

/// The error of the first of `imports` that has one.
pub open spec fn first_import_error(
    imports: Seq<ImportView>,
    with_types: bool,
) -> Option<ResolutionErrorView>
    decreases imports.len(),
{
    if imports.len() == 0 {
        None
    } else if import_error(imports[0], with_types) is Some {
        import_error(imports[0], with_types)
    } else {
        first_import_error(imports.drop_first(), with_types)
    }
}

/// The first error of a module: that of its types where these count, else that
/// of the first import that has one.
pub open spec fn module_error(
    imports: Seq<ImportView>,
    maybe_types: Option<ResolvedView>,
    with_types: bool,
) -> Option<ResolutionErrorView> {
    if with_types && maybe_types is Some && maybe_types->0.error() is Some {
        maybe_types->0.error()
    } else {
        first_import_error(imports, with_types)
    }
}

impl Walk {
    /// Where the module `specifier` was first imported, if that is to be said of
    /// it: it is not said of roots.
    pub open spec fn referrer(
        self,
        referrer_map: Map<SpecifierView, RangeView>,
        specifier: SpecifierView,
    ) -> Option<RangeView> {
        if !self.has_root(specifier) && referrer_map.contains_key(specifier) {
            Some(referrer_map[specifier])
        } else {
            None
        }
    }

    /// What a check reports for the module `specifier`, of which `entry` is
    /// known.
    pub open spec fn entry_failure(
        self,
        referrer_map: Map<SpecifierView, RangeView>,
        specifier: SpecifierView,
        entry: ModuleEntryView,
    ) -> Option<CheckErrorView> {
        match entry {
            ModuleEntryView::Module { dependencies, media_type, maybe_types, .. } => match module_error(
                dependencies,
                maybe_types,
                self.checks_types(media_type),
            ) {
                Some(error) => Some(resolution_failure(error)),
                None => None,
            },
            ModuleEntryView::Error(error) => Some(
                module_failure(error, self.referrer(referrer_map, specifier)),
            ),
            ModuleEntryView::Redirect(_) => None,
        }
    }
}

/// Whether `specifier` is among `v`.
pub fn contains_specifier(
    v: &[(ModuleSpecifier, ModuleKind)],
    specifier: &ModuleSpecifier,
) -> (result: bool)
    ensures
        result <==> exists|i: int| 0 <= i < v@.len() && (#[trigger] v@[i]).0@ == specifier@,
{
    let mut i: usize = 0;
    while i < v.len()
        invariant
            i <= v@.len(),
            forall|k: int| 0 <= k < i ==> (#[trigger] v@[k]).0@ != specifier@,
        decreases v.len() - i,
    {
        if v[i].0.same(specifier) {
            return true;
        }
        i = i + 1;
    }
    false
}

/// Whether the range lies in a module that the runtime made up.
fn is_made_up(range: &Range) -> (result: bool)
    ensures
        result == made_up(range@),
{
    contains_text(range.specifier.text.as_str(), "$deno")
}

/// The error of class `class`, with `message` and where the import was written.
fn located_error(class: &String, message: &String, range: &Range) -> (result: CheckError)
    ensures
        result@ == (CheckErrorView::Located { class: class@, message: located(message@, range@) }),
{
    let mut text = message.clone();
    text.append("\n    at ");
    text.append(range.show().as_str());
    CheckError::Located { class: class.clone(), message: text }
}

/// What a check reports for `error`.
fn report_resolution(error: &ResolutionError) -> (result: CheckError)
    ensures
        result@ == resolution_failure(error@),
{
    if !is_made_up(&error.range) {
        return located_error(&error.class, &error.message, &error.range);
    }
    CheckError::Resolution(error.clone())
}

/// What a check reports for `error` where the module was imported at `referrer`.
fn report_module(error: &ModuleGraphError, referrer: Option<&Range>) -> (result: CheckError)
    ensures
        result@ == module_failure(
            error@,
            match referrer {
                Some(range) => Some(range@),
                None => None,
            },
        ),
{
    if let Some(range) = referrer {
        if !is_made_up(range) {
            return located_error(&error.class, &error.message, range);
        }
    }
    CheckError::Module(error.clone())
}

/// The error of `import`.
fn find_import_error(import: &Import, with_types: bool) -> (result: Option<&ResolutionError>)
    ensures
        match result {
            Some(error) => import_error(import@, with_types) == Some(error@),
            None => import_error(import@, with_types) is None,
        },
{
    if !import.dependency.is_dynamic {
        if let Resolved::Failed(error) = &import.dependency.maybe_code {
            return Some(error);
        }
        if with_types {
            if let Resolved::Failed(error) = &import.dependency.maybe_type {
                return Some(error);
            }
        }
    }
    None
}

/// The first error of a module.
fn find_module_error<'a>(
    dependencies: &'a Dependencies,
    maybe_types: &'a Option<Resolved>,
    with_types: bool,
) -> (result: Option<&'a ResolutionError>)
    ensures
        match result {
            Some(error) => module_error(
                dependencies@,
                optional_resolved(*maybe_types),
                with_types,
            ) == Some(error@),
            None => module_error(
                dependencies@,
                optional_resolved(*maybe_types),
                with_types,
            ) is None,
        },
{
    if with_types {
        if let Some(Resolved::Failed(error)) = maybe_types {
            return Some(error);
        }
    }
    let n = dependencies.len();
    let mut i: usize = 0;
    assert(dependencies@.skip(0) =~= dependencies@);
    while i < n
        invariant
            n == dependencies@.len(),
            i <= n,
            first_import_error(dependencies@, with_types) == first_import_error(
                dependencies@.skip(i as int),
                with_types,
            ),
            module_error(
                dependencies@,
                optional_resolved(*maybe_types),
                with_types,
            ) == first_import_error(dependencies@, with_types),
        decreases n - i,
    {
        let import = dependencies.import_at(i);
        assert(dependencies@.skip(i as int)[0] == import@);
        if let Some(error) = find_import_error(import, with_types) {
            return Some(error);
        }
        assert(dependencies@.skip(i as int).drop_first() =~= dependencies@.skip(i + 1));
        i = i + 1;
    }
    None
}

/// What a check reports for the module `specifier`, of which `entry` is known.
pub(crate) fn check_entry(
    specifier: &ModuleSpecifier,
    entry: &ModuleEntry,
    referrer_map: &SpecifierMap<Range>,
    roots: &[(ModuleSpecifier, ModuleKind)],
    follow_type_only: bool,
    check_js: bool,
    Ghost(walk): Ghost<Walk>,
) -> (result: Option<CheckError>)
    requires
        walk.roots == root_views(roots@),
        walk.follow_type_only == follow_type_only,
        walk.check_js == check_js,
    ensures
        match result {
            Some(error) => walk.entry_failure(
                range_views(referrer_map@),
                specifier@,
                entry@,
            ) == Some(error@),
            None => walk.entry_failure(range_views(referrer_map@), specifier@, entry@) is None,
        },
{
    match entry {
        ModuleEntry::Module { dependencies, maybe_types, media_type, .. } => {
            let check_types = (check_js || !media_type.written_in_js()) && follow_type_only;
            match find_module_error(dependencies, maybe_types, check_types) {
                Some(error) => Some(report_resolution(error)),
                None => None,
            }
        },
        ModuleEntry::Error(error) => {
            let is_root = contains_specifier(roots, specifier);
            proof {
                if is_root {
                    let i = choose|i: int|
                        0 <= i < roots@.len() && (#[trigger] roots@[i]).0@ == specifier@;
                    assert(walk.roots[i].0 == specifier@);
                } else if walk.has_root(specifier@) {
                    let i = choose|i: int|
                        0 <= i < walk.roots.len() && (#[trigger] walk.roots[i]).0 == specifier@;
                    assert(roots@[i].0@ == specifier@);
                }
            }
            let referrer = if is_root {
                None
            } else {
                referrer_map.get(specifier)
            };
            Some(report_module(error, referrer))
        },
        ModuleEntry::Redirect(_) => None,
    }
}

} // verus!
