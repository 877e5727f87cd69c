use std::sync::Arc;

use graph_util::creation::{
    build_request, check_created_graph, create_graph_and_maybe_check, created_roots,
    type_check_request, CreateAction, CreateEvent, CreateOptions, LogLevel,
};
use graph_util::dependency::{Dependencies, Dependency, Import};
use graph_util::lock::{graph_lock_or_exit, LockProgress, LockStep};
use graph_util::module_graph::{GraphEntry, MediaType, Module, ModuleGraph, ModuleGraphError};
use graph_util::npm::error_for_any_npm_specifier;
use graph_util::resolution::{ModuleKind, Position, Range, Resolved};
use graph_util::specifier::ModuleSpecifier;
use graph_util::specifier_map::SpecifierMap;

fn module(text: &str, kind: ModuleKind, source: Option<&str>) -> Module {
    Module {
        specifier: ModuleSpecifier::url(text),
        kind,
        media_type: MediaType::TypeScript,
        maybe_source: source.map(|s| s.to_string()),
        dependencies: Dependencies::new(),
        maybe_types_dependency: None,
    }
}

fn graph(modules: Vec<Module>) -> ModuleGraph {
    let modules: Vec<Arc<Module>> = modules.into_iter().map(Arc::new).collect();
    ModuleGraph {
        roots: vec![],
        specifiers: modules
            .iter()
            .map(|m| GraphEntry { specifier: m.specifier.clone(), result: Ok(m.clone()) })
            .collect(),
        modules,
        imports: vec![],
        redirects: SpecifierMap::new(),
        npm_package_reqs: vec![],
    }
}

fn three_modules() -> ModuleGraph {
    graph(vec![
        module("https://x/a.ts", ModuleKind::Esm, Some("a")),
        module("https://x/b.ts", ModuleKind::BuiltIn, None),
        module("https://x/c.ts", ModuleKind::Esm, Some("c")),
    ])
}

/// Runs the steps with the verdict of `matches` on each source.
fn run(graph: &ModuleGraph, matches: fn(&str) -> bool) -> (Vec<usize>, LockStep) {
    let mut asked = vec![];
    let mut progress = LockProgress::Start;
    loop {
        match graph_lock_or_exit(graph, progress, "deno.lock") {
            LockStep::Check { index } => {
                asked.push(index);
                let source = graph.modules[index].maybe_source.as_ref().unwrap();
                progress = if matches(source) {
                    LockProgress::Accepted { index }
                } else {
                    LockProgress::Refused { index }
                };
            }
            step => return (asked, step),
        }
    }
}

#[test]
fn lock_checks_each_module_with_source_in_order() {
    let (asked, last) = run(&three_modules(), |_| true);
    assert_eq!(asked, vec![0, 2]);
    assert_eq!(last, LockStep::Done);
}

#[test]
fn lock_exits_at_the_first_module_that_does_not_match() {
    let (asked, last) = run(&three_modules(), |source| source == "c");
    assert_eq!(asked, vec![0]);
    let message = "The source code is invalid, as it does not match the expected hash in the \
                   lock file.\n  Specifier: https://x/a.ts\n  Lock file: deno.lock";
    assert_eq!(last, LockStep::Exit { code: 10, message: message.to_string() });
    let (asked, last) = run(&three_modules(), |source| source == "a");
    assert_eq!(asked, vec![0, 2]);
    let message = "The source code is invalid, as it does not match the expected hash in the \
                   lock file.\n  Specifier: https://x/c.ts\n  Lock file: deno.lock";
    assert_eq!(last, LockStep::Exit { code: 10, message: message.to_string() });
}

#[test]
fn lock_has_nothing_to_do_without_sources() {
    assert_eq!(run(&graph(vec![]), |_| false), (vec![], LockStep::Done));
    let g = graph(vec![module("https://x/b.ts", ModuleKind::BuiltIn, None)]);
    assert_eq!(run(&g, |_| false), (vec![], LockStep::Done));
}

/// Everything that is done.
fn actions(options: CreateOptions, ignored: bool, diagnostics: bool) -> Vec<CreateAction> {
    actions_failing(options, None, ignored, diagnostics)
}

/// The same, if `failing` cannot be done.
fn actions_failing(
    options: CreateOptions,
    failing: Option<CreateAction>,
    ignored: bool,
    diagnostics: bool,
) -> Vec<CreateAction> {
    let mut done = vec![];
    let mut event = CreateEvent::Started;
    loop {
        let action = create_graph_and_maybe_check(options, event);
        done.push(action);
        event = match action {
            action if failing == Some(action) => CreateEvent::Failed,
            CreateAction::ResolveImports => CreateEvent::ImportsResolved,
            CreateAction::BuildGraph => CreateEvent::GraphBuilt,
            CreateAction::CheckGraph => CreateEvent::GraphChecked,
            CreateAction::AddPackageReqs => CreateEvent::PackageReqsAdded,
            CreateAction::CheckLockfile => CreateEvent::LockfileChecked,
            CreateAction::ResolveConfig => {
                CreateEvent::ConfigResolved { has_ignored_options: ignored }
            }
            CreateAction::ReportIgnoredOptions => CreateEvent::IgnoredOptionsReported,
            CreateAction::TypeCheck => CreateEvent::TypeChecked { has_diagnostics: diagnostics },
            CreateAction::FailWithDiagnostics | CreateAction::Fail | CreateAction::Finish => {
                return done
            }
        };
    }
}

#[test]
fn creation_does_everything_in_order() {
    let options = CreateOptions { type_check: true, has_lockfile: true };
    assert_eq!(
        actions(options, true, false),
        vec![
            CreateAction::ResolveImports,
            CreateAction::BuildGraph,
            CreateAction::CheckGraph,
            CreateAction::AddPackageReqs,
            CreateAction::CheckLockfile,
            CreateAction::ResolveConfig,
            CreateAction::ReportIgnoredOptions,
            CreateAction::TypeCheck,
            CreateAction::Finish,
        ]
    );
}

#[test]
fn creation_fails_with_diagnostics() {
    let options = CreateOptions { type_check: true, has_lockfile: false };
    assert_eq!(
        actions(options, false, true),
        vec![
            CreateAction::ResolveImports,
            CreateAction::BuildGraph,
            CreateAction::CheckGraph,
            CreateAction::AddPackageReqs,
            CreateAction::ResolveConfig,
            CreateAction::TypeCheck,
            CreateAction::FailWithDiagnostics,
        ]
    );
}

#[test]
fn creation_without_type_check_stops_early() {
    let locked = CreateOptions { type_check: false, has_lockfile: true };
    assert_eq!(
        actions(locked, true, true),
        vec![
            CreateAction::ResolveImports,
            CreateAction::BuildGraph,
            CreateAction::CheckGraph,
            CreateAction::AddPackageReqs,
            CreateAction::CheckLockfile,
            CreateAction::Finish,
        ]
    );
    let unlocked = CreateOptions { type_check: false, has_lockfile: false };
    assert_eq!(
        actions(unlocked, true, true),
        vec![
            CreateAction::ResolveImports,
            CreateAction::BuildGraph,
            CreateAction::CheckGraph,
            CreateAction::AddPackageReqs,
            CreateAction::Finish,
        ]
    );
}

#[test]
fn creation_stops_at_the_first_failure() {
    let options = CreateOptions { type_check: true, has_lockfile: true };
    assert_eq!(
        actions_failing(options, Some(CreateAction::ResolveImports), true, true),
        vec![CreateAction::ResolveImports, CreateAction::Fail]
    );
    assert_eq!(
        actions_failing(options, Some(CreateAction::CheckGraph), true, true),
        vec![
            CreateAction::ResolveImports,
            CreateAction::BuildGraph,
            CreateAction::CheckGraph,
            CreateAction::Fail,
        ]
    );
    assert_eq!(
        actions_failing(options, Some(CreateAction::AddPackageReqs), true, true),
        vec![
            CreateAction::ResolveImports,
            CreateAction::BuildGraph,
            CreateAction::CheckGraph,
            CreateAction::AddPackageReqs,
            CreateAction::Fail,
        ]
    );
    assert_eq!(
        actions_failing(options, Some(CreateAction::ResolveConfig), true, true),
        vec![
            CreateAction::ResolveImports,
            CreateAction::BuildGraph,
            CreateAction::CheckGraph,
            CreateAction::AddPackageReqs,
            CreateAction::CheckLockfile,
            CreateAction::ResolveConfig,
            CreateAction::Fail,
        ]
    );
    assert_eq!(
        actions_failing(options, Some(CreateAction::TypeCheck), false, true),
        vec![
            CreateAction::ResolveImports,
            CreateAction::BuildGraph,
            CreateAction::CheckGraph,
            CreateAction::AddPackageReqs,
            CreateAction::CheckLockfile,
            CreateAction::ResolveConfig,
            CreateAction::TypeCheck,
            CreateAction::Fail,
        ]
    );
}

#[test]
fn what_is_not_done_cannot_fail() {
    let options = CreateOptions { type_check: false, has_lockfile: false };
    assert_eq!(
        actions_failing(options, Some(CreateAction::TypeCheck), true, true),
        vec![
            CreateAction::ResolveImports,
            CreateAction::BuildGraph,
            CreateAction::CheckGraph,
            CreateAction::AddPackageReqs,
            CreateAction::Finish,
        ]
    );
}

#[test]
fn graph_is_built_from_its_root_alone() {
    let root = ModuleSpecifier::url("https://x/a.ts");
    let expected = vec![(root.clone(), ModuleKind::Esm)];
    assert_eq!(created_roots(&root), expected);
    let request = build_request(&root);
    assert_eq!(request.roots, expected);
    assert!(!request.is_dynamic);
}

#[test]
fn type_check_runs_on_the_roots_of_the_graph() {
    let mut g = three_modules();
    g.roots = vec![
        (ModuleSpecifier::url("https://x/c.ts"), ModuleKind::Esm),
        (ModuleSpecifier::url("https://x/a.ts"), ModuleKind::Script),
    ];
    let request = type_check_request(&g, Some(LogLevel::Debug), true);
    assert_eq!(request.roots, g.roots);
    assert!(request.debug && request.log_checks && request.reload);
    for level in [None, Some(LogLevel::Trace), Some(LogLevel::Info)] {
        let request = type_check_request(&g, level, false);
        assert_eq!(request.roots, g.roots);
        assert!(!request.debug && request.log_checks && !request.reload);
    }
}

#[test]
fn created_graph_is_gathered_and_checked() {
    let mut g = graph(vec![module("https://x/a.ts", ModuleKind::Esm, Some("a"))]);
    g.roots = vec![(ModuleSpecifier::url("https://x/a.ts"), ModuleKind::Esm)];
    match check_created_graph(&g, true, true) {
        Ok(data) => assert!(data.get(&ModuleSpecifier::url("https://x/a.ts")).is_some()),
        Err(_) => panic!("nothing fails"),
    }
}

#[test]
fn created_graph_with_errors_is_refused() {
    let root = ModuleSpecifier::url("https://x/a.ts");
    let error = ModuleGraphError { class: "NotFound".to_string(), message: "Gone".to_string() };
    let mut g = graph(vec![]);
    g.roots = vec![(root.clone(), ModuleKind::Esm)];
    g.specifiers.push(GraphEntry { specifier: root, result: Err(error.clone()) });
    match check_created_graph(&g, false, false) {
        Ok(_) => panic!("the root failed to load"),
        Err(found) => assert_eq!(found, graph_util::check::CheckError::Module(error)),
    }
}

#[test]
fn created_graph_follows_types_only_for_a_type_check() {
    let place = Range {
        specifier: ModuleSpecifier::url("https://x/a.ts"),
        start: Position { line: 0, character: 0 },
        end: Position { line: 0, character: 1 },
    };
    let mut a = module("https://x/a.ts", ModuleKind::Esm, Some("a"));
    a.dependencies.insert(Import {
        text: "./gone.d.ts".to_string(),
        npm: false,
        dependency: Dependency {
            maybe_code: Resolved::Nothing,
            maybe_type: Resolved::Found {
                specifier: ModuleSpecifier::url("https://x/gone.d.ts"),
                kind: ModuleKind::Esm,
                range: place,
            },
            is_dynamic: false,
            maybe_assert_type: None,
        },
    });
    let mut g = graph(vec![a]);
    g.roots = vec![(ModuleSpecifier::url("https://x/a.ts"), ModuleKind::Esm)];
    let error = ModuleGraphError { class: "NotFound".to_string(), message: "Gone".to_string() };
    let specifier = ModuleSpecifier::url("https://x/gone.d.ts");
    g.specifiers.push(GraphEntry { specifier, result: Err(error) });
    assert!(check_created_graph(&g, false, false).is_ok());
    match check_created_graph(&g, true, false) {
        Ok(_) => panic!("the types failed to load"),
        Err(found) => assert_eq!(
            found,
            graph_util::check::CheckError::Located {
                class: "NotFound".to_string(),
                message: "Gone\n    at https://x/a.ts:1:1".to_string(),
            }
        ),
    }
}

#[test]
fn npm_specifiers_are_an_error_that_names_the_first() {
    let g = graph(vec![
        module("https://x/a.ts", ModuleKind::Esm, Some("a")),
        module("npm:chalk@5", ModuleKind::External, None),
        module("npm:cowsay", ModuleKind::External, None),
    ]);
    assert_eq!(
        error_for_any_npm_specifier(&g),
        Err("npm specifiers have not yet been implemented for this sub command (https://github.com/denoland/deno/issues/15960). Found: npm:chalk@5".to_string())
    );
}

#[test]
fn graphs_without_npm_specifiers_are_no_error() {
    assert_eq!(error_for_any_npm_specifier(&three_modules()), Ok(()));
    let mut g = graph(vec![]);
    let error = ModuleGraphError { class: "NotFound".to_string(), message: "Gone".to_string() };
    let specifier = ModuleSpecifier::npm_reference("npm:chalk@5");
    g.specifiers.push(GraphEntry { specifier, result: Err(error) });
    assert_eq!(error_for_any_npm_specifier(&g), Ok(()));
}
