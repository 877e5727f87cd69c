//! What is done to build a module graph, and with it once it is built.
use vstd::prelude::*;
use crate::check::CheckError;
use crate::graph_data::{GraphData, GraphDataView};
use crate::module_graph::{ModuleGraph, root_views};
use crate::resolution::ModuleKind;
use crate::specifier::ModuleSpecifier;

verus! {

/// What the user asked for.
#[derive(Debug, Clone, Copy, PartialEq, Eq)]
pub struct CreateOptions {
    /// Whether modules are type checked.
    pub type_check: bool,
    /// Whether there is a lock file.
    pub has_lockfile: bool,
}

/// What has been done.
#[derive(Debug, Clone, Copy, PartialEq, Eq)]
pub enum CreateEvent {
    /// Nothing yet.
    Started,
    /// It is known what the configuration imports.
    ImportsResolved,
    /// The graph is built.
    GraphBuilt,
    /// The modules of the graph have no errors.
    GraphChecked,
    /// The npm packages that the graph requires have been resolved.
    PackageReqsAdded,
    /// The modules match the lock file.
    LockfileChecked,
    /// The configuration of the type check has been read.
    ConfigResolved { has_ignored_options: bool },
    /// The user has been told which options are ignored.
    IgnoredOptionsReported,
    /// The modules have been type checked.
    TypeChecked { has_diagnostics: bool },
    /// What was to be done could not be done.
    Failed,
}

/// What is to be done next.
#[derive(Debug, Clone, Copy, PartialEq, Eq)]
pub enum CreateAction {
    /// Ask the configuration what it imports.
    ResolveImports,
    /// Build the graph.
    BuildGraph,
    /// Check the modules of the graph for errors.
    CheckGraph,
    /// Resolve the npm packages that the graph requires.
    AddPackageReqs,
    /// Hold the modules to the lock file.
    CheckLockfile,
    /// Read the configuration of the type check.
    ResolveConfig,
    /// Tell the user which options are ignored.
    ReportIgnoredOptions,
    /// Type check the modules.
    TypeCheck,
    /// Fail with the diagnostics of the type check.
    FailWithDiagnostics,
    /// Fail with the error of what could not be done.
    Fail,
    /// Return the graph.
    Finish,
}

impl CreateOptions {
    /// What is done once the modules match the lock file, if there is one.
    pub open spec fn after_lockfile(self) -> CreateAction {
        if self.type_check {
            CreateAction::ResolveConfig
        } else {
            CreateAction::Finish
        }
    }

    /// What is done after `event`.
    pub open spec fn next(self, event: CreateEvent) -> CreateAction {
        match event {
            CreateEvent::Started => CreateAction::ResolveImports,
            CreateEvent::ImportsResolved => CreateAction::BuildGraph,
            CreateEvent::GraphBuilt => CreateAction::CheckGraph,
            CreateEvent::GraphChecked => CreateAction::AddPackageReqs,
            CreateEvent::PackageReqsAdded => if self.has_lockfile {
                CreateAction::CheckLockfile
            } else {
                self.after_lockfile()
            },
            CreateEvent::LockfileChecked => self.after_lockfile(),
            CreateEvent::ConfigResolved { has_ignored_options } => if has_ignored_options {
                CreateAction::ReportIgnoredOptions
            } else {
                CreateAction::TypeCheck
            },
            CreateEvent::IgnoredOptionsReported => CreateAction::TypeCheck,
            CreateEvent::TypeChecked { has_diagnostics } => if has_diagnostics {
                CreateAction::FailWithDiagnostics
            } else {
                CreateAction::Finish
            },
            CreateEvent::Failed => CreateAction::Fail,
        }
    }
}

/// How a graph is to be built.
#[derive(Debug, PartialEq, Eq)]
pub struct BuildRequest {
    /// The modules from which the graph is built.
    pub roots: Vec<(ModuleSpecifier, ModuleKind)>,
    /// Whether the roots are loaded as dynamic imports are.
    pub is_dynamic: bool,
}

/// How detailed the log is.
#[derive(Debug, Clone, Copy, PartialEq, Eq, Structural)]
pub enum LogLevel {
    Error,
    Warn,
    Info,
    Debug,
    Trace,
}

/// How the modules of a graph are to be type checked.
#[derive(Debug, PartialEq, Eq)]
pub struct TypeCheckRequest {
    /// The modules that are checked, with all they depend on.
    pub roots: Vec<(ModuleSpecifier, ModuleKind)>,
    /// Whether details are shown.
    pub debug: bool,
    /// Whether it is said which modules are checked.
    pub log_checks: bool,
    /// Whether results of earlier checks are ignored.
    pub reload: bool,
}

/// The roots of the graph of `root`: that module alone, as an ES module.
pub fn created_roots(root: &ModuleSpecifier) -> (result: Vec<(ModuleSpecifier, ModuleKind)>)
    ensures
        root_views(result@) == seq![(root@, ModuleKind::Esm)],
{
    let mut roots: Vec<(ModuleSpecifier, ModuleKind)> = Vec::new();
    roots.push((root.clone(), ModuleKind::Esm));
    assert(root_views(roots@) =~= seq![(root@, ModuleKind::Esm)]);
    roots
}

/// How the graph of `root` is built: from that module alone, as an ES module
/// that is loaded at once.
pub fn build_request(root: &ModuleSpecifier) -> (result: BuildRequest)
    ensures
        root_views(result.roots@) == seq![(root@, ModuleKind::Esm)],
        !result.is_dynamic,
{
    BuildRequest { roots: created_roots(root), is_dynamic: false }
}

/// How `graph` is type checked: from its own roots, with a word on what is
/// checked, in detail if the log is set to just that, and without earlier
/// results if these are to be ignored.
pub fn type_check_request(
    graph: &ModuleGraph,
    log_level: Option<LogLevel>,
    reload: bool,
) -> (result: TypeCheckRequest)
    ensures
        root_views(result.roots@) == graph@.roots,
        result.debug == (log_level == Some(LogLevel::Debug)),
        result.log_checks,
        result.reload == reload,
{
    let mut roots: Vec<(ModuleSpecifier, ModuleKind)> = Vec::new();
    let mut i: usize = 0;
    while i < graph.roots.len()
        invariant
            i <= graph.roots@.len(),
            roots@.len() == i,
            forall|k: int|
                #![trigger roots@[k]]
                0 <= k < i ==> roots@[k].0@ == graph.roots@[k].0@ && roots@[k].1
                    == graph.roots@[k].1,
        decreases graph.roots.len() - i,
    {
        roots.push((graph.roots[i].0.clone(), graph.roots[i].1));
        i = i + 1;
    }
    assert(root_views(roots@) =~= graph@.roots);
    let debug = match log_level {
        Some(level) => level == LogLevel::Debug,
        None => false,
    };
    TypeCheckRequest { roots, debug, log_checks: true, reload }
}

/// Gathers the data of a graph that was just built, and checks its modules.
pub fn check_created_graph(graph: &ModuleGraph, type_check: bool, check_js: bool) -> (result:
    Result<GraphData, CheckError>)
    requires
        GraphDataView::empty().with_graph(graph@, false).walk(
            graph@.roots,
            false,
            type_check,
            check_js,
        ).complete(),
    ensures
        ({
            let data = GraphDataView::empty().with_graph(graph@, false);
            match result {
                Ok(graph_data) => {
                    &&& graph_data@ == data
                    &&& data.checked(graph@.roots, type_check, check_js, Some(Ok(())))
                },
                Err(error) => data.checked(
                    graph@.roots,
                    type_check,
                    check_js,
                    Some(Err(error@)),
                ),
            }
        }),
{
    let mut graph_data = GraphData::default();
    graph_data.add_graph(graph, false);
    match graph_data.check(&graph.roots, type_check, check_js).unwrap() {
        Ok(()) => Ok(graph_data),
        Err(error) => Err(error),
    }
}

/// Creates a graph and maybe type checks it: says what is done after `event`.
pub fn create_graph_and_maybe_check(
    options: CreateOptions,
    event: CreateEvent,
) -> (result: CreateAction)
    ensures
        result == options.next(event),
{
    let after_lockfile = if options.type_check {
        CreateAction::ResolveConfig
    } else {
        CreateAction::Finish
    };
    match event {
        CreateEvent::Started => CreateAction::ResolveImports,
        CreateEvent::ImportsResolved => CreateAction::BuildGraph,
        CreateEvent::GraphBuilt => CreateAction::CheckGraph,
        CreateEvent::GraphChecked => CreateAction::AddPackageReqs,
        CreateEvent::PackageReqsAdded => {
            if options.has_lockfile {
                CreateAction::CheckLockfile
            } else {
                after_lockfile
            }
        },
        CreateEvent::LockfileChecked => after_lockfile,
        CreateEvent::ConfigResolved { has_ignored_options } => {
            if has_ignored_options {
                CreateAction::ReportIgnoredOptions
            } else {
                CreateAction::TypeCheck
            }
        },
        CreateEvent::IgnoredOptionsReported => CreateAction::TypeCheck,
        CreateEvent::TypeChecked { has_diagnostics } => {
            if has_diagnostics {
                CreateAction::FailWithDiagnostics
            } else {
                CreateAction::Finish
            }
        },
        CreateEvent::Failed => CreateAction::Fail,
    }
}

/// It may turn out that `action` cannot be done. Building a graph does not fail,
/// since the graph holds the errors of its modules; where the lock file does not
/// match, the process ends.
pub open spec fn can_fail(action: CreateAction) -> bool {
    ||| action is ResolveImports
    ||| action is CheckGraph
    ||| action is AddPackageReqs
    ||| action is ResolveConfig
    ||| action is TypeCheck
}

/// The event that reports on `action`, if anything comes after it. `failing`
/// holds what cannot be done; the last two arguments say what the configuration
/// and the type check brought.
pub open spec fn reported(
    action: CreateAction,
    failing: Set<CreateAction>,
    has_ignored_options: bool,
    has_diagnostics: bool,
) -> Option<CreateEvent> {
    if can_fail(action) && failing.contains(action) {
        Some(CreateEvent::Failed)
    } else {
        match action {
            CreateAction::ResolveImports => Some(CreateEvent::ImportsResolved),
            CreateAction::BuildGraph => Some(CreateEvent::GraphBuilt),
            CreateAction::CheckGraph => Some(CreateEvent::GraphChecked),
            CreateAction::AddPackageReqs => Some(CreateEvent::PackageReqsAdded),
            CreateAction::CheckLockfile => Some(CreateEvent::LockfileChecked),
            CreateAction::ResolveConfig => Some(
                CreateEvent::ConfigResolved { has_ignored_options },
            ),
            CreateAction::ReportIgnoredOptions => Some(CreateEvent::IgnoredOptionsReported),
            CreateAction::TypeCheck => Some(CreateEvent::TypeChecked { has_diagnostics }),
            CreateAction::FailWithDiagnostics => None,
            CreateAction::Fail => None,
            CreateAction::Finish => None,
        }
    }
}

/// How much may come after `event`.
pub open spec fn rest(event: CreateEvent) -> nat {
    match event {
        CreateEvent::Started => 8,
        CreateEvent::ImportsResolved => 7,
        CreateEvent::GraphBuilt => 6,
        CreateEvent::GraphChecked => 5,
        CreateEvent::PackageReqsAdded => 4,
        CreateEvent::LockfileChecked => 3,
        CreateEvent::ConfigResolved { .. } => 2,
        CreateEvent::IgnoredOptionsReported => 1,
        CreateEvent::TypeChecked { .. } => 0,
        CreateEvent::Failed => 0,
    }
}

/// Everything that is done after `event`, in order.
pub open spec fn actions(
    options: CreateOptions,
    event: CreateEvent,
    failing: Set<CreateAction>,
    has_ignored_options: bool,
    has_diagnostics: bool,
) -> Seq<CreateAction>
    decreases rest(event),
{
    let action = options.next(event);
    match reported(action, failing, has_ignored_options, has_diagnostics) {
        Some(done) => seq![action] + actions(
            options,
            done,
            failing,
            has_ignored_options,
            has_diagnostics,
        ),
        None => seq![action],
    }
}

/// What is done as long as nothing fails: a graph is built with what the
/// configuration imports, its modules are checked for errors, its npm packages
/// are resolved, it is then held to the lock file if there is one, and then type
/// checked if that was asked for. It is returned unless the type check finds
/// something wrong.
pub open spec fn plan(
    options: CreateOptions,
    has_ignored_options: bool,
    has_diagnostics: bool,
) -> Seq<CreateAction> {
    seq![
        CreateAction::ResolveImports,
        CreateAction::BuildGraph,
        CreateAction::CheckGraph,
        CreateAction::AddPackageReqs,
    ] + (if options.has_lockfile {
        seq![CreateAction::CheckLockfile]
    } else {
        Seq::empty()
    }) + (if options.type_check {
        seq![CreateAction::ResolveConfig] + (if has_ignored_options {
            seq![CreateAction::ReportIgnoredOptions]
        } else {
            Seq::empty()
        }) + seq![CreateAction::TypeCheck] + (if has_diagnostics {
            seq![CreateAction::FailWithDiagnostics]
        } else {
            seq![CreateAction::Finish]
        })
    } else {
        seq![CreateAction::Finish]
    })
}

/// `plan` up to the first of `failing`, and behind it the failure.
spec fn until_failure(plan: Seq<CreateAction>, failing: Set<CreateAction>) -> Seq<CreateAction>
    decreases plan.len(),
{
    if plan.len() == 0 {
        Seq::empty()
    } else if can_fail(plan[0]) && failing.contains(plan[0]) {
        seq![plan[0], CreateAction::Fail]
    } else {
        seq![plan[0]] + until_failure(plan.drop_first(), failing)
    }
}

/// Where a plan stops whose first failure is at position `i`, if there is one.
proof fn lemma_until_failure(plan: Seq<CreateAction>, failing: Set<CreateAction>, i: int)
    requires
        0 <= i <= plan.len(),
        i < plan.len() ==> can_fail(plan[i]) && failing.contains(plan[i]),
        forall|k: int| 0 <= k < i ==> !(can_fail(#[trigger] plan[k]) && failing.contains(plan[k])),
    ensures
        until_failure(plan, failing) == if i < plan.len() {
            plan.take(i + 1).push(CreateAction::Fail)
        } else {
            plan
        },
    decreases plan.len(),
{
    if plan.len() > 0 && i > 0 {
        let later = plan.drop_first();
        assert forall|k: int| 0 <= k < i - 1 implies !(can_fail(#[trigger] later[k])
            && failing.contains(later[k])) by {
            assert(later[k] == plan[k + 1]);
        }
        lemma_until_failure(later, failing, i - 1);
        assert(!(can_fail(plan[0]) && failing.contains(plan[0])));
    }
}

/// What is done after `event` is what is done if nothing fails, up to the first
/// failure.
proof fn lemma_actions(
    options: CreateOptions,
    event: CreateEvent,
    failing: Set<CreateAction>,
    has_ignored_options: bool,
    has_diagnostics: bool,
)
    ensures
        actions(options, event, failing, has_ignored_options, has_diagnostics) == until_failure(
            actions(options, event, Set::empty(), has_ignored_options, has_diagnostics),
            failing,
        ),
    decreases rest(event),
{
    let none = Set::<CreateAction>::empty();
    let action = options.next(event);
    let whole = actions(options, event, none, has_ignored_options, has_diagnostics);
    assert(whole[0] == action);
    match reported(action, none, has_ignored_options, has_diagnostics) {
        Some(done) => {
            let later = actions(options, done, none, has_ignored_options, has_diagnostics);
            assert(whole.drop_first() =~= later);
            lemma_actions(options, done, failing, has_ignored_options, has_diagnostics);
            if can_fail(action) && failing.contains(action) {
                assert(actions(
                    options,
                    CreateEvent::Failed,
                    failing,
                    has_ignored_options,
                    has_diagnostics,
                ) == seq![CreateAction::Fail]);
            }
        },
        None => {
            assert(whole.drop_first() =~= Seq::empty());
            assert(until_failure(whole.drop_first(), failing) =~= Seq::empty());
        },
    }
}

/// What is done is the plan, if nothing fails.
proof fn lemma_plan(options: CreateOptions, has_ignored_options: bool, has_diagnostics: bool)
    ensures
        actions(
            options,
            CreateEvent::Started,
            Set::empty(),
            has_ignored_options,
            has_diagnostics,
        ) == plan(options, has_ignored_options, has_diagnostics),
{
    let after = |event: CreateEvent|
        actions(options, event, Set::empty(), has_ignored_options, has_diagnostics);
    let last = if has_diagnostics {
        seq![CreateAction::FailWithDiagnostics]
    } else {
        seq![CreateAction::Finish]
    };
    let check = seq![CreateAction::TypeCheck] + last;
    let report = if has_ignored_options {
        seq![CreateAction::ReportIgnoredOptions] + check
    } else {
        check
    };
    let types = if options.type_check {
        seq![CreateAction::ResolveConfig] + report
    } else {
        seq![CreateAction::Finish]
    };
    let lock = if options.has_lockfile {
        seq![CreateAction::CheckLockfile] + types
    } else {
        types
    };
    assert(after(CreateEvent::TypeChecked { has_diagnostics }) =~= last);
    assert(after(CreateEvent::IgnoredOptionsReported) =~= check);
    assert(after(CreateEvent::ConfigResolved { has_ignored_options }) =~= report);
    assert(after(CreateEvent::LockfileChecked) =~= types);
    assert(after(CreateEvent::PackageReqsAdded) =~= lock);
    assert(after(CreateEvent::GraphChecked) =~= seq![CreateAction::AddPackageReqs] + lock);
    assert(after(CreateEvent::GraphBuilt) =~= seq![
        CreateAction::CheckGraph,
        CreateAction::AddPackageReqs,
    ] + lock);
    assert(after(CreateEvent::ImportsResolved) =~= seq![
        CreateAction::BuildGraph,
        CreateAction::CheckGraph,
        CreateAction::AddPackageReqs,
    ] + lock);
    assert(after(CreateEvent::Started) =~= seq![
        CreateAction::ResolveImports,
        CreateAction::BuildGraph,
        CreateAction::CheckGraph,
        CreateAction::AddPackageReqs,
    ] + lock);
    assert(plan(options, has_ignored_options, has_diagnostics) =~= seq![
        CreateAction::ResolveImports,
        CreateAction::BuildGraph,
        CreateAction::CheckGraph,
        CreateAction::AddPackageReqs,
    ] + lock);
}

/// Everything is done as planned until something fails: then that error is
/// returned, and nothing is done any more. The first failure is at position `i`
/// of the plan, if there is one.
pub proof fn law_creation_order(
    options: CreateOptions,
    failing: Set<CreateAction>,
    has_ignored_options: bool,
    has_diagnostics: bool,
    i: int,
)
    requires
        ({
            let plan = plan(options, has_ignored_options, has_diagnostics);
            &&& 0 <= i <= plan.len()
            &&& i < plan.len() ==> can_fail(plan[i]) && failing.contains(plan[i])
            &&& forall|k: int|
                0 <= k < i ==> !(can_fail(#[trigger] plan[k]) && failing.contains(plan[k]))
        }),
    ensures
        actions(
            options,
            CreateEvent::Started,
            failing,
            has_ignored_options,
            has_diagnostics,
        ) == {
            let plan = plan(options, has_ignored_options, has_diagnostics);
            if i < plan.len() {
                plan.take(i + 1).push(CreateAction::Fail)
            } else {
                plan
            }
        },
{
    let whole = plan(options, has_ignored_options, has_diagnostics);
    lemma_until_failure(whole, failing, i);
    lemma_plan(options, has_ignored_options, has_diagnostics);
    lemma_actions(
        options,
        CreateEvent::Started,
        failing,
        has_ignored_options,
        has_diagnostics,
    );
}

/// After a failure nothing is done but to return its error.
pub proof fn law_failure_is_final(
    options: CreateOptions,
    failing: Set<CreateAction>,
    has_ignored_options: bool,
    has_diagnostics: bool,
)
    ensures
        options.next(CreateEvent::Failed) == CreateAction::Fail,
        actions(options, CreateEvent::Failed, failing, has_ignored_options, has_diagnostics)
            == seq![CreateAction::Fail],
{
}

/// Where nothing fails, everything is done in this order: the configured imports
/// are resolved, the graph is built and checked, npm packages are resolved; the
/// lock file is held against if there is one; types are checked if that was asked
/// for, after the configuration is read and the user told of what is ignored.
/// The graph is returned unless the type check finds something wrong.
pub proof fn law_creation_without_failure(
    options: CreateOptions,
    has_ignored_options: bool,
    has_diagnostics: bool,
)
    ensures
        actions(
            options,
            CreateEvent::Started,
            Set::empty(),
            has_ignored_options,
            has_diagnostics,
        ) == seq![
            CreateAction::ResolveImports,
            CreateAction::BuildGraph,
            CreateAction::CheckGraph,
            CreateAction::AddPackageReqs,
        ] + (if options.has_lockfile {
            seq![CreateAction::CheckLockfile]
        } else {
            Seq::empty()
        }) + (if options.type_check {
            seq![CreateAction::ResolveConfig] + (if has_ignored_options {
                seq![CreateAction::ReportIgnoredOptions]
            } else {
                Seq::empty()
            }) + seq![CreateAction::TypeCheck] + (if has_diagnostics {
                seq![CreateAction::FailWithDiagnostics]
            } else {
                seq![CreateAction::Finish]
            })
        } else {
            seq![CreateAction::Finish]
        }),
{
    lemma_plan(options, has_ignored_options, has_diagnostics);
}

/// The steps by what they depend on: up to the npm packages, and after a failure,
/// on nothing; a graph is held to the lock file only if there is one, and then
/// before anything else; types are checked only if that was asked for, after the
/// configuration was read, and the user told first of options that are ignored;
/// the diagnostics of the type check alone decide what is returned.
pub proof fn law_creation_steps(options: CreateOptions)
    ensures
        options.next(CreateEvent::Started) == CreateAction::ResolveImports,
        options.next(CreateEvent::ImportsResolved) == CreateAction::BuildGraph,
        options.next(CreateEvent::GraphBuilt) == CreateAction::CheckGraph,
        options.next(CreateEvent::GraphChecked) == CreateAction::AddPackageReqs,
        options.next(CreateEvent::PackageReqsAdded) == CreateAction::CheckLockfile
            <==> options.has_lockfile,
        !options.has_lockfile ==> options.next(CreateEvent::PackageReqsAdded) == options.next(
            CreateEvent::LockfileChecked,
        ),
        options.type_check ==> options.next(CreateEvent::LockfileChecked)
            == CreateAction::ResolveConfig,
        !options.type_check ==> options.next(CreateEvent::LockfileChecked)
            == CreateAction::Finish,
        options.next(CreateEvent::ConfigResolved { has_ignored_options: true })
            == CreateAction::ReportIgnoredOptions,
        options.next(CreateEvent::ConfigResolved { has_ignored_options: false })
            == CreateAction::TypeCheck,
        options.next(CreateEvent::IgnoredOptionsReported) == CreateAction::TypeCheck,
        options.next(CreateEvent::TypeChecked { has_diagnostics: true })
            == CreateAction::FailWithDiagnostics,
        options.next(CreateEvent::TypeChecked { has_diagnostics: false }) == CreateAction::Finish,
        options.next(CreateEvent::Failed) == CreateAction::Fail,
{
}

} // verus!
