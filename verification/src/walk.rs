//! Walking the dependencies of modules.
use std::collections::VecDeque;
use vstd::prelude::*;
use crate::dependency::{Dependencies, Import, ImportView};
use crate::graph_data::{ModuleEntry, ModuleEntryView, entry_views, found_views};
use crate::module_graph::{GraphImport, GraphImportView, MediaType, graph_imports, root_views};
use crate::resolution::{ModuleKind, Resolved, ResolvedView};
use crate::specifier::{ModuleSpecifier, SpecifierView};
use crate::specifier_map::{SpecifierMap, SpecifierSet};

verus! {

/// A walk: over which modules, from which roots, and what it follows.
pub struct Walk {
    pub modules: Map<SpecifierView, ModuleEntryView>,
    pub imports: Seq<GraphImportView>,
    pub roots: Seq<(SpecifierView, ModuleKind)>,
    pub follow_dynamic: bool,
    pub follow_type_only: bool,
    pub check_js: bool,
}

impl ImportView {
    /// The import leads to `specifier`: by its code, or by its types where
    /// these count.
    pub open spec fn leads_to(self, with_types: bool, specifier: SpecifierView) -> bool {
        ||| self.dependency.maybe_code.leads_to(specifier)
        ||| with_types && self.dependency.maybe_type.leads_to(specifier)
    }
}

impl Walk {
    /// The types of modules of this media type count.
    pub open spec fn checks_types(self, media_type: MediaType) -> bool {
        (self.check_js || !media_type.is_js()) && self.follow_type_only
    }

    /// `specifier` is one of the roots.
    pub open spec fn has_root(self, specifier: SpecifierView) -> bool {
        exists|i: int| 0 <= i < self.roots.len() && (#[trigger] self.roots[i]).0 == specifier
    }

    /// A configuration imports `specifier`.
    pub open spec fn has_import(self, specifier: SpecifierView) -> bool {
        exists|i: int, j: int|
            #![trigger self.imports[i].dependencies[j]]
            0 <= i < self.imports.len() && 0 <= j < self.imports[i].dependencies.len()
                && self.imports[i].dependencies[j].leads_to(self.follow_type_only, specifier)
    }

    /// The walk starts at `specifier`.
    pub open spec fn starts_at(self, specifier: SpecifierView) -> bool {
        self.has_root(specifier) || self.has_import(specifier)
    }

    /// The walk follows `import`: it is no reference to an npm package, and not
    /// dynamic where dynamic imports do not count.
    pub open spec fn follows_import(self, import: ImportView) -> bool {
        !import.npm && (!import.dependency.is_dynamic || self.follow_dynamic)
    }

    /// The walk goes on from `entry` to `specifier`.
    pub open spec fn follows(self, entry: ModuleEntryView, specifier: SpecifierView) -> bool {
        match entry {
            ModuleEntryView::Module { dependencies, media_type, maybe_types, .. } => {
                ||| self.checks_types(media_type) && maybe_types is Some
                    && maybe_types->0.leads_to(specifier)
                ||| exists|i: int|
                    #![trigger dependencies[i]]
                    0 <= i < dependencies.len() && self.follows_import(dependencies[i])
                        && dependencies[i].leads_to(self.checks_types(media_type), specifier)
            },
            ModuleEntryView::Error(_) => false,
            ModuleEntryView::Redirect(found) => found == specifier,
        }
    }

    /// The walk goes from the module `from` to `to`. It does not go on from
    /// references to npm packages.
    pub open spec fn steps(self, from: SpecifierView, to: SpecifierView) -> bool {
        !from.npm && self.modules.contains_key(from) && self.follows(self.modules[from], to)
    }

    /// The walk can take this path.
    pub open spec fn is_path(self, path: Seq<SpecifierView>) -> bool {
        &&& path.len() > 0
        &&& self.starts_at(path[0])
        &&& forall|i: int|
            #![trigger path[i]]
            0 <= i < path.len() - 1 ==> self.steps(path[i], path[i + 1])
    }

    /// The walk comes to `specifier`.
    pub open spec fn reaches(self, specifier: SpecifierView) -> bool {
        exists|path: Seq<SpecifierView>| #[trigger] self.is_path(path) && path.last() == specifier
    }

    /// The walk comes to the module `specifier`, which is no npm package.
    pub open spec fn visits(self, specifier: SpecifierView) -> bool {
        self.reaches(specifier) && !specifier.npm
    }

    /// Every module that the walk comes to is known.
    pub open spec fn complete(self) -> bool {
        forall|s: SpecifierView| #[trigger] self.visits(s) ==> self.modules.contains_key(s)
    }

    /// The modules that the walk comes to.
    pub open spec fn visited(self) -> Map<SpecifierView, ModuleEntryView> {
        self.modules.restrict(Set::new(|s: SpecifierView| self.visits(s)))
    }

    /// What the walk finds: every module that it comes to, or nothing if one of
    /// them is not known.
    pub open spec fn outcome(self) -> Option<Map<SpecifierView, ModuleEntryView>> {
        if self.complete() {
            Some(self.visited())
        } else {
            None
        }
    }

    /// Everything at which the walk starts is reached.
    pub proof fn lemma_reaches_start(self, specifier: SpecifierView)
        requires
            self.starts_at(specifier),
        ensures
            self.reaches(specifier),
    {
        let path = seq![specifier];
        assert(self.is_path(path));
        assert(path.last() == specifier);
    }

    /// What follows on something reached is reached.
    pub proof fn lemma_reaches_step(self, from: SpecifierView, to: SpecifierView)
        requires
            self.reaches(from),
            self.steps(from, to),
        ensures
            self.reaches(to),
    {
        let path = choose|path: Seq<SpecifierView>| #[trigger]
            self.is_path(path) && path.last() == from;
        let longer = path.push(to);
        assert forall|i: int| #![trigger longer[i]] 0 <= i < longer.len() - 1 implies self.steps(
            longer[i],
            longer[i + 1],
        ) by {
            assert(longer[i] == path[i]);
            if i < path.len() - 1 {
                assert(longer[i + 1] == path[i + 1]);
            }
        }
        assert(longer[0] == path[0]);
        assert(self.is_path(longer));
        assert(longer.last() == to);
    }

    /// A set that holds the starts, and whatever follows on its members, holds
    /// everything that is reached.
    pub proof fn lemma_reaches_within(self, set: Set<SpecifierView>)
        requires
            forall|s: SpecifierView| self.starts_at(s) ==> set.contains(s),
            forall|a: SpecifierView, b: SpecifierView|
                set.contains(a) && #[trigger] self.steps(a, b) ==> set.contains(b),
        ensures
            forall|s: SpecifierView| #[trigger] self.reaches(s) ==> set.contains(s),
    {
        assert forall|s: SpecifierView| #[trigger] self.reaches(s) implies set.contains(s) by {
            let path = choose|path: Seq<SpecifierView>| #[trigger]
                self.is_path(path) && path.last() == s;
            self.lemma_path_within(set, path, path.len() - 1);
        }
    }

    proof fn lemma_path_within(self, set: Set<SpecifierView>, path: Seq<SpecifierView>, i: int)
        requires
            forall|s: SpecifierView| self.starts_at(s) ==> set.contains(s),
            forall|a: SpecifierView, b: SpecifierView|
                set.contains(a) && #[trigger] self.steps(a, b) ==> set.contains(b),
            self.is_path(path),
            0 <= i < path.len(),
        ensures
            set.contains(path[i]),
        decreases i,
    {
        if i > 0 {
            self.lemma_path_within(set, path, i - 1);
            assert(self.steps(path[i - 1], path[(i - 1) + 1]));
        }
    }
}

/// How far a walk has come: what it has seen, and what waits to be visited.
struct FrontierView {
    seen: Set<SpecifierView>,
    waiting: Seq<SpecifierView>,
}

impl FrontierView {
    /// From `self`, the walk has seen `targets`: what was new now waits.
    spec fn extended(self, after: FrontierView, targets: Set<SpecifierView>) -> bool {
        &&& after.seen == self.seen.union(targets)
        &&& forall|s: SpecifierView| #[trigger]
            after.waiting.contains(s) <==> self.waiting.contains(s) || (targets.contains(s)
                && !self.seen.contains(s))
        &&& targets.subset_of(self.seen) ==> after.waiting == self.waiting
    }

    /// Seeing some targets and then others is seeing all of them.
    proof fn lemma_extended_twice(
        self,
        middle: FrontierView,
        after: FrontierView,
        first: Set<SpecifierView>,
        second: Set<SpecifierView>,
    )
        requires
            self.extended(middle, first),
            middle.extended(after, second),
        ensures
            self.extended(after, first.union(second)),
    {
        assert(after.seen =~= self.seen.union(first.union(second)));
        assert forall|s: SpecifierView| #[trigger]
            after.waiting.contains(s) <==> self.waiting.contains(s) || (first.union(
                second,
            ).contains(s) && !self.seen.contains(s)) by {
            assert(middle.waiting.contains(s) <==> self.waiting.contains(s) || (first.contains(s)
                && !self.seen.contains(s)));
        }
        if first.union(second).subset_of(self.seen) {
            assert(first.subset_of(self.seen)) by {
                assert forall|s: SpecifierView| first.contains(s) implies self.seen.contains(s) by {
                    assert(first.union(second).contains(s));
                }
            }
            assert(second.subset_of(middle.seen)) by {
                assert forall|s: SpecifierView| second.contains(s) implies middle.seen.contains(
                    s,
                ) by {
                    assert(first.union(second).contains(s));
                }
            }
        }
    }
}

/// The specifiers to which `resolved` leads.
spec fn targets_of(resolved: ResolvedView) -> Set<SpecifierView> {
    Set::new(|s: SpecifierView| resolved.leads_to(s))
}

/// The specifiers to which `import` leads.
spec fn import_targets(import: ImportView, with_types: bool) -> Set<SpecifierView> {
    Set::new(|s: SpecifierView| import.leads_to(with_types, s))
}

/// The specifiers to which the walk follows the imports from position `from` on.
spec fn followed_from(
    walk: Walk,
    imports: Seq<ImportView>,
    from: int,
    with_types: bool,
) -> Set<SpecifierView> {
    Set::new(
        |s: SpecifierView|
            exists|i: int|
                #![trigger imports[i]]
                from <= i < imports.len() && walk.follows_import(imports[i])
                    && imports[i].leads_to(with_types, s),
    )
}

/// The specifiers to which the types of `entry` lead, where these count.
spec fn entry_type_targets(walk: Walk, entry: ModuleEntryView) -> Set<SpecifierView> {
    Set::new(
        |s: SpecifierView|
            match entry {
                ModuleEntryView::Module { media_type, maybe_types, .. } => walk.checks_types(
                    media_type,
                ) && maybe_types is Some && maybe_types->0.leads_to(s),
                _ => false,
            },
    )
}

/// The specifiers to which the walk goes on from `entry`.
spec fn entry_targets(walk: Walk, entry: ModuleEntryView) -> Set<SpecifierView> {
    Set::new(|s: SpecifierView| walk.follows(entry, s))
}

/// From a module the walk goes on to its types and to its imports.
proof fn lemma_module_targets(walk: Walk, entry: ModuleEntryView)
    requires
        entry is Module,
    ensures
        entry_targets(walk, entry) == entry_type_targets(walk, entry).union(
            followed_from(walk, entry->dependencies, 0, walk.checks_types(entry->media_type)),
        ),
{
    let types = entry_type_targets(walk, entry);
    let imports = entry->dependencies;
    let with_types = walk.checks_types(entry->media_type);
    let rest = followed_from(walk, imports, 0, with_types);
    assert forall|s: SpecifierView|
        entry_targets(walk, entry).contains(s) == types.union(rest).contains(s) by {
        if walk.follows(entry, s) && !types.contains(s) {
            let i = choose|i: int|
                #![trigger imports[i]]
                0 <= i < imports.len() && walk.follows_import(imports[i])
                    && imports[i].leads_to(with_types, s);
            assert(rest.contains(s));
        }
        if rest.contains(s) {
            let i = choose|i: int|
                #![trigger imports[i]]
                0 <= i < imports.len() && walk.follows_import(imports[i])
                    && imports[i].leads_to(with_types, s);
            assert(walk.follows(entry, s));
        }
    }
    assert(entry_targets(walk, entry) =~= types.union(rest));
}

/// How far a walk has come.
struct Frontier<'a> {
    seen: SpecifierSet,
    visiting: VecDeque<&'a ModuleSpecifier>,
}

impl<'a> View for Frontier<'a> {
    type V = FrontierView;

    closed spec fn view(&self) -> FrontierView {
        FrontierView {
            seen: self.seen@,
            waiting: self.visiting@.map_values(|s: &ModuleSpecifier| s@),
        }
    }
}

impl<'a> Frontier<'a> {
    /// A walk that has seen nothing.
    fn new() -> (result: Self)
        ensures
            result@.seen == Set::<SpecifierView>::empty(),
            result@.waiting == Seq::<SpecifierView>::empty(),
    {
        let result = Frontier { seen: SpecifierSet::new(), visiting: VecDeque::new() };
        assert(result@.waiting =~= Seq::<SpecifierView>::empty());
        result
    }

    /// Lets `root` wait behind everything else.
    fn visit_root(&mut self, root: &'a ModuleSpecifier)
        ensures
            final(self)@.seen == old(self)@.seen.insert(root@),
            final(self)@.waiting == old(self)@.waiting.push(root@),
    {
        self.seen.insert(root.clone());
        self.visiting.push_back(root);
        assert(self@.waiting =~= old(self)@.waiting.push(root@));
    }

    /// Takes what is visited next.
    fn take_next(&mut self) -> (result: Option<&'a ModuleSpecifier>)
        ensures
            final(self)@.seen == old(self)@.seen,
            match result {
                Some(s) => {
                    &&& old(self)@.waiting.len() > 0
                    &&& s@ == old(self)@.waiting[0]
                    &&& final(self)@.waiting == old(self)@.waiting.drop_first()
                },
                None => old(self)@.waiting.len() == 0 && final(self)@ == old(self)@,
            },
    {
        let result = self.visiting.pop_front();
        assert(result is Some ==> self@.waiting =~= old(self)@.waiting.drop_first());
        result
    }

    /// Sees `specifier`; if it is new, it waits before everything else.
    fn visit(&mut self, specifier: &'a ModuleSpecifier)
        ensures
            old(self)@.extended(final(self)@, set![specifier@]),
    {
        if !self.seen.contains(specifier) {
            self.seen.insert(specifier.clone());
            self.visiting.push_front(specifier);
            proof {
                let before = old(self)@.waiting;
                let after = self@.waiting;
                assert(after =~= seq![specifier@] + before);
                assert forall|s: SpecifierView| #[trigger]
                    after.contains(s) <==> before.contains(s) || s == specifier@ by {
                    assert(after[0] == specifier@);
                    if before.contains(s) {
                        let i = choose|i: int| 0 <= i < before.len() && before[i] == s;
                        assert(after[i + 1] == s);
                    }
                    if after.contains(s) && s != specifier@ {
                        let i = choose|i: int| 0 <= i < after.len() && after[i] == s;
                        assert(before[i - 1] == s);
                    }
                }
                assert(set![specifier@].contains(specifier@));
            }
        }
        assert(self@.seen =~= old(self)@.seen.union(set![specifier@]));
    }

    /// Sees what `resolved` leads to.
    fn visit_resolved(&mut self, resolved: &'a Resolved)
        ensures
            old(self)@.extended(final(self)@, targets_of(resolved@)),
    {
        if let Resolved::Found { specifier, .. } = resolved {
            self.visit(specifier);
            assert(targets_of(resolved@) =~= set![specifier@]);
        } else {
            assert(targets_of(resolved@) =~= Set::empty());
            assert(self@.seen =~= old(self)@.seen.union(Set::empty()));
        }
    }

    /// Sees what `import` leads to.
    fn visit_import(&mut self, import: &'a Import, with_types: bool)
        ensures
            old(self)@.extended(final(self)@, import_targets(import@, with_types)),
    {
        self.visit_resolved(&import.dependency.maybe_code);
        let ghost code = targets_of(import@.dependency.maybe_code);
        if with_types {
            let ghost middle = self@;
            self.visit_resolved(&import.dependency.maybe_type);
            proof {
                let types = targets_of(import@.dependency.maybe_type);
                old(self)@.lemma_extended_twice(middle, self@, code, types);
                assert(code.union(types) =~= import_targets(import@, with_types));
            }
        } else {
            assert(code =~= import_targets(import@, with_types));
        }
    }

    /// Sees what the walk follows of `dependencies`.
    fn visit_dependencies(
        &mut self,
        dependencies: &'a Dependencies,
        follow_dynamic: bool,
        with_types: bool,
        Ghost(walk): Ghost<Walk>,
    )
        requires
            walk.follow_dynamic == follow_dynamic,
        ensures
            old(self)@.extended(
                final(self)@,
                followed_from(walk, dependencies@, 0, with_types),
            ),
    {
        let mut i: usize = dependencies.len();
        proof {
            let none = followed_from(walk, dependencies@, i as int, with_types);
            assert(none =~= Set::empty());
            assert(self@.seen =~= old(self)@.seen.union(none));
        }
        while i > 0
            invariant
                i <= dependencies@.len(),
                walk.follow_dynamic == follow_dynamic,
                old(self)@.extended(
                    self@,
                    followed_from(walk, dependencies@, i as int, with_types),
                ),
            decreases i,
        {
            let ghost before = self@;
            let ghost above = followed_from(walk, dependencies@, i as int, with_types);
            i = i - 1;
            let import = dependencies.import_at(i);
            let ghost here = followed_from(walk, dependencies@, i as int, with_types);
            if !import.npm && (!import.dependency.is_dynamic || follow_dynamic) {
                self.visit_import(import, with_types);
                proof {
                    let targets = import_targets(import@, with_types);
                    old(self)@.lemma_extended_twice(before, self@, above, targets);
                    assert(above.union(targets) =~= here);
                }
            } else {
                assert(above =~= here);
            }
        }
    }

    /// Sees what the walk goes on to from `entry`.
    fn visit_entry(
        &mut self,
        entry: &'a ModuleEntry,
        follow_dynamic: bool,
        follow_type_only: bool,
        check_js: bool,
        Ghost(walk): Ghost<Walk>,
    )
        requires
            walk.follow_dynamic == follow_dynamic,
            walk.follow_type_only == follow_type_only,
            walk.check_js == check_js,
        ensures
            old(self)@.extended(final(self)@, entry_targets(walk, entry@)),
    {
        match entry {
            ModuleEntry::Module { dependencies, maybe_types, media_type, .. } => {
                let check_types = (check_js || !media_type.written_in_js()) && follow_type_only;
                let ghost types = entry_type_targets(walk, entry@);
                if check_types {
                    if let Some(resolved) = maybe_types {
                        self.visit_resolved(resolved);
                        assert(types =~= targets_of(resolved@));
                    } else {
                        assert(types =~= Set::empty());
                    }
                } else {
                    assert(types =~= Set::empty());
                }
                assert(old(self)@.seen.union(Set::empty()) =~= old(self)@.seen);
                let ghost middle = self@;
                self.visit_dependencies(dependencies, follow_dynamic, check_types, Ghost(walk));
                proof {
                    let rest = followed_from(walk, dependencies@, 0, check_types);
                    old(self)@.lemma_extended_twice(middle, self@, types, rest);
                    lemma_module_targets(walk, entry@);
                }
            },
            ModuleEntry::Error(_) => {
                assert(entry_targets(walk, entry@) =~= Set::empty());
                assert(self@.seen =~= old(self)@.seen.union(Set::empty()));
            },
            ModuleEntry::Redirect(specifier) => {
                self.visit(specifier);
                assert(entry_targets(walk, entry@) =~= set![specifier@]);
            },
        }
    }
}

/// The specifiers to which the imports of the first `n` configurations lead.
spec fn imported(walk: Walk, n: int) -> Set<SpecifierView> {
    Set::new(
        |s: SpecifierView|
            exists|i: int, j: int|
                #![trigger walk.imports[i].dependencies[j]]
                0 <= i < n && 0 <= j < walk.imports[i].dependencies.len()
                    && walk.imports[i].dependencies[j].leads_to(walk.follow_type_only, s),
    )
}

/// The specifiers to which the first `n` of `imports` lead.
spec fn imported_within(imports: Seq<ImportView>, n: int, with_types: bool) -> Set<SpecifierView> {
    Set::new(
        |s: SpecifierView|
            exists|j: int|
                #![trigger imports[j]]
                0 <= j < n && imports[j].leads_to(with_types, s),
    )
}

/// One more configuration adds what its imports lead to.
proof fn lemma_imported_next(walk: Walk, n: int)
    requires
        0 <= n < walk.imports.len(),
    ensures
        imported(walk, n + 1) == imported(walk, n).union(
            imported_within(
                walk.imports[n].dependencies,
                walk.imports[n].dependencies.len() as int,
                walk.follow_type_only,
            ),
        ),
{
    let imports = walk.imports[n].dependencies;
    let more = imported_within(imports, imports.len() as int, walk.follow_type_only);
    assert forall|s: SpecifierView|
        imported(walk, n + 1).contains(s) == imported(walk, n).union(more).contains(s) by {
        if more.contains(s) {
            let j = choose|j: int|
                #![trigger imports[j]]
                0 <= j < imports.len() && imports[j].leads_to(walk.follow_type_only, s);
            assert(walk.imports[n].dependencies[j].leads_to(walk.follow_type_only, s));
        }
    }
    assert(imported(walk, n + 1) =~= imported(walk, n).union(more));
}

/// Sees what the imports of a configuration lead to.
fn visit_graph_import<'a>(
    frontier: &mut Frontier<'a>,
    graph_import: &'a GraphImport,
    follow_type_only: bool,
)
    ensures
        old(frontier)@.extended(
            final(frontier)@,
            imported_within(
                graph_import@.dependencies,
                graph_import@.dependencies.len() as int,
                follow_type_only,
            ),
        ),
{
    let dependencies = &graph_import.dependencies;
    let n = dependencies.len();
    let mut j: usize = 0;
    proof {
        let none = imported_within(dependencies@, 0, follow_type_only);
        assert(none =~= Set::empty());
        assert(frontier@.seen =~= old(frontier)@.seen.union(none));
    }
    while j < n
        invariant
            n == dependencies@.len(),
            j <= n,
            old(frontier)@.extended(
                frontier@,
                imported_within(dependencies@, j as int, follow_type_only),
            ),
        decreases n - j,
    {
        let ghost before = frontier@;
        let import = dependencies.import_at(j);
        frontier.visit_import(import, follow_type_only);
        proof {
            let first = imported_within(dependencies@, j as int, follow_type_only);
            let second = import_targets(import@, follow_type_only);
            old(frontier)@.lemma_extended_twice(before, frontier@, first, second);
            assert(first.union(second) =~= imported_within(
                dependencies@,
                j + 1,
                follow_type_only,
            ));
        }
        j = j + 1;
    }
}

/// Sees everything at which the walk starts.
fn start<'a>(
    imports: &'a Vec<GraphImport>,
    roots: &'a [(ModuleSpecifier, ModuleKind)],
    follow_type_only: bool,
    Ghost(walk): Ghost<Walk>,
) -> (result: Frontier<'a>)
    requires
        walk.imports == graph_imports(imports@),
        walk.roots == root_views(roots@),
        walk.follow_type_only == follow_type_only,
    ensures
        forall|s: SpecifierView| #[trigger] result@.seen.contains(s) <==> walk.starts_at(s),
        forall|s: SpecifierView| #[trigger]
            result@.waiting.contains(s) <==> result@.seen.contains(s),
{
    let mut frontier = Frontier::new();
    let mut i: usize = 0;
    while i < roots.len()
        invariant
            i <= roots@.len(),
            walk.roots == root_views(roots@),
            forall|s: SpecifierView| #[trigger]
                frontier@.seen.contains(s) <==> exists|k: int|
                    0 <= k < i && (#[trigger] walk.roots[k]).0 == s,
            forall|s: SpecifierView| #[trigger]
                frontier@.waiting.contains(s) <==> frontier@.seen.contains(s),
        decreases roots.len() - i,
    {
        let ghost before = frontier@;
        let root = &roots[i];
        frontier.visit_root(&root.0);
        proof {
            assert(walk.roots[i as int].0 == root.0@);
            let after = frontier@;
            assert(after.waiting[before.waiting.len() as int] == root.0@);
            assert forall|s: SpecifierView| #[trigger]
                after.waiting.contains(s) <==> after.seen.contains(s) by {
                if before.waiting.contains(s) {
                    let k = choose|k: int| 0 <= k < before.waiting.len() && before.waiting[k] == s;
                    assert(after.waiting[k] == s);
                }
                if after.waiting.contains(s) && s != root.0@ {
                    let k = choose|k: int| 0 <= k < after.waiting.len() && after.waiting[k] == s;
                    assert(before.waiting[k] == s);
                }
            }
        }
        i = i + 1;
    }
    let ghost rooted = frontier@;
    assert(forall|s: SpecifierView| #[trigger] rooted.seen.contains(s) <==> walk.has_root(s));
    let mut k: usize = 0;
    proof {
        assert(imported(walk, 0) =~= Set::empty());
        assert(rooted.seen =~= rooted.seen.union(imported(walk, 0)));
    }
    while k < imports.len()
        invariant
            k <= imports.len(),
            walk.imports == graph_imports(imports@),
            walk.follow_type_only == follow_type_only,
            rooted.extended(frontier@, imported(walk, k as int)),
        decreases imports.len() - k,
    {
        let ghost before = frontier@;
        visit_graph_import(&mut frontier, &imports[k], follow_type_only);
        proof {
            assert(walk.imports[k as int] == imports@[k as int]@);
            let more = imported_within(
                walk.imports[k as int].dependencies,
                walk.imports[k as int].dependencies.len() as int,
                follow_type_only,
            );
            rooted.lemma_extended_twice(before, frontier@, imported(walk, k as int), more);
            lemma_imported_next(walk, k as int);
        }
        k = k + 1;
    }
    proof {
        assert forall|s: SpecifierView| #[trigger]
            frontier@.seen.contains(s) <==> walk.starts_at(s) by {
            assert(imported(walk, k as int).contains(s) <==> walk.has_import(s));
        }
    }
    frontier
}

/// What a walk has found so far, and what it still owes.
spec fn in_progress(
    walk: Walk,
    frontier: FrontierView,
    found: Map<SpecifierView, &ModuleEntry>,
) -> bool {
    &&& forall|s: SpecifierView| #[trigger] frontier.seen.contains(s) ==> walk.reaches(s)
    &&& forall|s: SpecifierView| walk.starts_at(s) ==> #[trigger] frontier.seen.contains(s)
    &&& forall|s: SpecifierView| #[trigger]
        frontier.waiting.contains(s) ==> frontier.seen.contains(s)
    &&& forall|s: SpecifierView| #[trigger]
        frontier.seen.contains(s) ==> frontier.waiting.contains(s) || s.npm || found.contains_key(s)
    &&& forall|s: SpecifierView| #[trigger]
        found.contains_key(s) ==> {
            &&& !s.npm
            &&& frontier.seen.contains(s)
            &&& walk.modules.contains_key(s)
            &&& walk.modules[s] == found[s]@
            &&& entry_targets(walk, walk.modules[s]).subset_of(frontier.seen)
        }
}

/// When nothing waits any more, everything that the walk comes to is found.
proof fn lemma_walk_done(
    walk: Walk,
    frontier: FrontierView,
    found: Map<SpecifierView, &ModuleEntry>,
)
    requires
        in_progress(walk, frontier, found),
        frontier.waiting.len() == 0,
    ensures
        walk.complete(),
        found_views(found) == walk.visited(),
{
    assert forall|s: SpecifierView| #[trigger] frontier.seen.contains(s) implies s.npm
        || found.contains_key(s) by {
        assert(!frontier.waiting.contains(s));
    }
    assert forall|a: SpecifierView, b: SpecifierView|
        frontier.seen.contains(a) && #[trigger] walk.steps(a, b) implies frontier.seen.contains(
        b,
    ) by {
        assert(found.contains_key(a));
        assert(entry_targets(walk, walk.modules[a]).contains(b));
    }
    walk.lemma_reaches_within(frontier.seen);
    assert forall|s: SpecifierView| #[trigger] walk.visits(s) <==> found.contains_key(s) by {
        if walk.visits(s) {
            assert(frontier.seen.contains(s));
        }
    }
    assert(found_views(found) =~= walk.visited());
}

/// A map whose keys are all keys of another has no more of them.
proof fn lemma_order_bound(small: Seq<SpecifierView>, large: Seq<SpecifierView>)
    requires
        small.no_duplicates(),
        forall|s: SpecifierView| small.contains(s) ==> large.contains(s),
    ensures
        small.len() <= large.len(),
{
    small.unique_seq_to_set();
    large.lemma_cardinality_of_set();
    assert forall|s: SpecifierView| small.to_set().contains(s) implies large.to_set().contains(
        s,
    ) by {
        assert(small.contains(s));
    }
    vstd::set_lib::lemma_len_subset(small.to_set(), large.to_set());
}

/// Walks `modules` from `roots` and from what `imports` lead to, and finds every
/// module it comes to; finds nothing if one of them is not known.
pub(crate) fn walk_modules<'a>(
    modules: &'a SpecifierMap<ModuleEntry>,
    imports: &Vec<GraphImport>,
    roots: &[(ModuleSpecifier, ModuleKind)],
    follow_dynamic: bool,
    follow_type_only: bool,
    check_js: bool,
) -> (result: Option<SpecifierMap<&'a ModuleEntry>>)
    ensures
        ({
            let walk = Walk {
                modules: entry_views(modules@),
                imports: graph_imports(imports@),
                roots: root_views(roots@),
                follow_dynamic,
                follow_type_only,
                check_js,
            };
            match result {
                Some(found) => walk.outcome() == Some(
                    found_views(found@),
                ),
                None => walk.outcome() is None,
            }
        }),
{
    let ghost walk = Walk {
        modules: entry_views(modules@),
        imports: graph_imports(imports@),
        roots: root_views(roots@),
        follow_dynamic,
        follow_type_only,
        check_js,
    };
    let mut found: SpecifierMap<&'a ModuleEntry> = SpecifierMap::new();
    let mut frontier = start(imports, roots, follow_type_only, Ghost(walk));
    let known = modules.len();
    proof {
        assert forall|s: SpecifierView| #[trigger] frontier@.seen.contains(s) implies walk.reaches(
            s,
        ) by {
            walk.lemma_reaches_start(s);
        }
    }
    loop
        invariant
            walk == (Walk {
                modules: entry_views(modules@),
                imports: graph_imports(imports@),
                roots: root_views(roots@),
                follow_dynamic,
                follow_type_only,
                check_js,
            }),
            known == modules.order().len(),
            forall|k: SpecifierView|
                modules.order().contains(k) <==> #[trigger] modules@.contains_key(k),
            in_progress(walk, frontier@, found@),
            found.order().len() <= known,
        decreases known - found.order().len(), frontier@.waiting.len(),
    {
        let ghost before = frontier@;
        let specifier = match frontier.take_next() {
            Some(specifier) => specifier,
            None => {
                proof {
                    lemma_walk_done(walk, frontier@, found@);
                }
                return Some(found);
            },
        };
        let ghost taken = frontier@;
        proof {
            assert(before.waiting.contains(specifier@));
            assert forall|s: SpecifierView| #[trigger] before.waiting.contains(s) implies s
                == specifier@ || taken.waiting.contains(s) by {
                let i = choose|i: int| 0 <= i < before.waiting.len() && before.waiting[i] == s;
                if i > 0 {
                    assert(taken.waiting[i - 1] == s);
                }
            }
            assert forall|s: SpecifierView| #[trigger]
                taken.waiting.contains(s) implies before.waiting.contains(s) by {
                let i = choose|i: int| 0 <= i < taken.waiting.len() && taken.waiting[i] == s;
                assert(before.waiting[i + 1] == s);
            }
        }
        if specifier.npm {
            continue;
        }
        let entry = match modules.get(specifier) {
            Some(entry) => entry,
            None => {
                assert(walk.visits(specifier@));
                return None;
            },
        };
        let ghost found_before = found@;
        let ghost order_before = found.order();
        found.insert(specifier.clone(), entry);
        frontier.visit_entry(entry, follow_dynamic, follow_type_only, check_js, Ghost(walk));
        proof {
            let targets = entry_targets(walk, entry@);
            assert forall|s: SpecifierView| #[trigger]
                frontier@.seen.contains(s) implies walk.reaches(s) by {
                if !taken.seen.contains(s) {
                    assert(targets.contains(s));
                    walk.lemma_reaches_step(specifier@, s);
                }
            }
            assert forall|s: SpecifierView| #[trigger] found@.contains_key(s) implies {
                &&& !s.npm
                &&& frontier@.seen.contains(s)
                &&& walk.modules.contains_key(s)
                &&& walk.modules[s] == found@[s]@
                &&& entry_targets(walk, walk.modules[s]).subset_of(frontier@.seen)
            } by {
                if s != specifier@ {
                    assert(found_before.contains_key(s));
                }
            }
            assert(in_progress(walk, frontier@, found@));
        }
        let _ = found.len();
        proof {
            assert forall|s: SpecifierView| found.order().contains(
                s,
            ) implies modules.order().contains(s) by {
                assert(found@.contains_key(s));
            }
            lemma_order_bound(found.order(), modules.order());
        }
    }
}

} // verus!
