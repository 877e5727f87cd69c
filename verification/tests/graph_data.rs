use std::sync::Arc;

use graph_util::check::{contains_specifier, CheckError};
use graph_util::dependency::{Dependencies, Dependency, Import};
use graph_util::graph_data::{graph_valid, GraphData, ModuleEntry, TsTypeLib};
use graph_util::module_graph::{
    GraphEntry, GraphImport, MediaType, Module, ModuleGraph, ModuleGraphError, NpmPackageReq,
};
use graph_util::resolution::{ModuleKind, Position, Range, ResolutionError, Resolved};
use graph_util::specifier::ModuleSpecifier;
use graph_util::specifier_map::SpecifierMap;

const A: &str = "file:///a.ts";
const B: &str = "file:///b.ts";
const C: &str = "file:///c.ts";
const D: &str = "file:///d.ts";
const TYPES: &str = "file:///types.d.ts";
const CONFIG: &str = "file:///deno.json";
const NPM: &str = "npm:chalk@5";

fn url(text: &str) -> ModuleSpecifier {
    ModuleSpecifier::url(text)
}

fn roots(texts: &[&str]) -> Vec<(ModuleSpecifier, ModuleKind)> {
    texts.iter().map(|t| (url(t), ModuleKind::Esm)).collect()
}

fn range(text: &str, line: usize, character: usize) -> Range {
    let start = Position { line, character };
    let end = Position { line, character: character + 10 };
    Range { specifier: url(text), start, end }
}

fn found(from: &str, line: usize, to: &str) -> Resolved {
    Resolved::Found { specifier: url(to), kind: ModuleKind::Esm, range: range(from, line, 7) }
}

fn failed(from: &str, line: usize, message: &str) -> Resolved {
    Resolved::Failed(ResolutionError {
        class: "TypeError".to_string(),
        message: message.to_string(),
        range: range(from, line, 7),
    })
}

fn dependency(maybe_code: Resolved, maybe_type: Resolved, is_dynamic: bool) -> Dependency {
    Dependency { maybe_code, maybe_type, is_dynamic, maybe_assert_type: None }
}

fn import(text: &str, dependency: Dependency) -> Import {
    Import { text: text.to_string(), npm: false, dependency }
}

fn code(text: &str, resolved: Resolved) -> Import {
    import(text, dependency(resolved, Resolved::Nothing, false))
}

fn dependencies(imports: Vec<Import>) -> Dependencies {
    let mut result = Dependencies::new();
    for i in imports {
        result.insert(i);
    }
    result
}

fn module(text: &str, media_type: MediaType, imports: Vec<Import>) -> Module {
    Module {
        specifier: url(text),
        kind: ModuleKind::Esm,
        media_type,
        maybe_source: Some(format!("// {}", text)),
        dependencies: dependencies(imports),
        maybe_types_dependency: None,
    }
}

fn ts(text: &str, imports: Vec<Import>) -> Module {
    module(text, MediaType::TypeScript, imports)
}

fn load_error(message: &str) -> ModuleGraphError {
    ModuleGraphError { class: "NotFound".to_string(), message: message.to_string() }
}

fn graph(root_texts: &[&str], modules: Vec<Module>) -> ModuleGraph {
    let modules: Vec<Arc<Module>> = modules.into_iter().map(Arc::new).collect();
    let specifiers = modules
        .iter()
        .map(|m| GraphEntry { specifier: m.specifier.clone(), result: Ok(m.clone()) })
        .collect();
    ModuleGraph {
        roots: roots(root_texts),
        modules,
        specifiers,
        imports: vec![],
        redirects: SpecifierMap::new(),
        npm_package_reqs: vec![],
    }
}

fn add_error(graph: &mut ModuleGraph, text: &str, message: &str) {
    let specifier = url(text);
    graph.specifiers.push(GraphEntry { specifier, result: Err(load_error(message)) });
}

fn add_redirect(graph: &mut ModuleGraph, from: &str, to: &str) {
    let target = graph.modules.iter().find(|m| m.specifier == url(to)).unwrap().clone();
    graph.specifiers.push(GraphEntry { specifier: url(from), result: Ok(target) });
    graph.redirects.insert(url(from), url(to));
}

/// The module a imports b, and b imports c.
fn chain() -> ModuleGraph {
    graph(
        &[A],
        vec![
            ts(A, vec![code("./b.ts", found(A, 0, B))]),
            ts(B, vec![code("./c.ts", found(B, 2, C))]),
            ts(C, vec![]),
        ],
    )
}

fn keys(found: &SpecifierMap<&ModuleEntry>) -> Vec<String> {
    let mut result: Vec<String> =
        (0..found.len()).map(|i| found.key_at(i).text.clone()).collect();
    result.sort();
    result
}

fn known(data: &GraphData) -> Vec<String> {
    let mut result: Vec<String> =
        data.entries().iter().map(|(s, _)| s.text.clone()).collect();
    result.sort();
    result
}

fn source(data: &GraphData, text: &str) -> Option<String> {
    match data.get(&url(text)) {
        Some(ModuleEntry::Module { code, .. }) => Some(code.clone()),
        _ => None,
    }
}

fn walked(data: &GraphData, texts: &[&str], options: (bool, bool, bool)) -> Option<Vec<String>> {
    data.walk(&roots(texts), options.0, options.1, options.2).map(|f| keys(&f))
}

fn texts(all: &[&str]) -> Option<Vec<String>> {
    Some(all.iter().map(|t| t.to_string()).collect())
}

#[test]
fn empty_data_knows_nothing() {
    let data = GraphData::default();
    assert!(data.entries().is_empty());
    assert!(data.npm_package_reqs().is_empty());
    assert!(data.get(&url(A)).is_none());
    assert!(data.get_dependencies(&url(A)).is_none());
    assert!(data.get_cjs_esm_translation(&url(A)).is_none());
    assert_eq!(data.follow_redirect(&url(A)), url(A));
    assert_eq!(walked(&data, &[], (true, true, true)), texts(&[]));
    assert_eq!(walked(&data, &[A], (true, true, true)), None);
    assert!(data.is_type_checked(&roots(&[]), &TsTypeLib::DenoWindow));
    assert!(!data.is_type_checked(&roots(&[A]), &TsTypeLib::DenoWindow));
}

#[test]
fn add_graph_stores_modules() {
    let mut data = GraphData::default();
    data.add_graph(&chain(), false);
    assert_eq!(known(&data), vec![A, B, C]);
    assert_eq!(source(&data, B), Some("// file:///b.ts".to_string()));
    match data.get(&url(A)) {
        Some(ModuleEntry::Module { dependencies, media_type, checked_libs, maybe_types, .. }) => {
            assert_eq!(dependencies.len(), 1);
            assert_eq!(dependencies.import_at(0).text, "./b.ts");
            assert_eq!(*media_type, MediaType::TypeScript);
            assert!(!checked_libs.contains(&TsTypeLib::DenoWindow));
            assert!(!checked_libs.contains(&TsTypeLib::DenoWorker));
            assert!(maybe_types.is_none());
        }
        _ => panic!("a is a module"),
    }
}

#[test]
fn from_graph_is_add_graph_to_nothing() {
    let data = GraphData::from(&chain());
    assert_eq!(known(&data), vec![A, B, C]);
    assert_eq!(source(&data, C), Some("// file:///c.ts".to_string()));
}

#[test]
fn modules_without_source_are_not_stored() {
    let mut asset = ts(B, vec![]);
    asset.maybe_source = None;
    let data = GraphData::from(&graph(&[A], vec![ts(A, vec![]), asset]));
    assert_eq!(known(&data), vec![A]);
}

#[test]
fn known_modules_are_kept_without_reload() {
    let mut data = GraphData::from(&chain());
    let mut changed = ts(B, vec![]);
    changed.maybe_source = Some("changed".to_string());
    data.add_graph(&graph(&[B], vec![changed]), false);
    assert_eq!(source(&data, B), Some("// file:///b.ts".to_string()));
    assert_eq!(data.get_dependencies(&url(B)).unwrap().len(), 1);
}

#[test]
fn known_modules_are_replaced_with_reload() {
    let mut data = GraphData::from(&chain());
    data.set_type_checked(&roots(&[A]), TsTypeLib::DenoWindow);
    let mut changed = ts(B, vec![]);
    changed.maybe_source = Some("changed".to_string());
    data.add_graph(&graph(&[B], vec![changed]), true);
    assert_eq!(source(&data, B), Some("changed".to_string()));
    assert_eq!(data.get_dependencies(&url(B)).unwrap().len(), 0);
    assert!(!data.is_type_checked(&roots(&[B]), &TsTypeLib::DenoWindow));
    assert!(data.is_type_checked(&roots(&[A]), &TsTypeLib::DenoWindow));
    assert_eq!(known(&data), vec![A, B, C]);
}

#[test]
fn adding_a_graph_again_changes_no_module() {
    let mut data = GraphData::from(&chain());
    data.set_type_checked(&roots(&[A]), TsTypeLib::DenoWorker);
    data.add_graph(&chain(), false);
    assert_eq!(known(&data), vec![A, B, C]);
    assert!(data.is_type_checked(&roots(&[A, B, C]), &TsTypeLib::DenoWorker));
}

#[test]
fn redirects_come_before_results() {
    let mut g = graph(&[A], vec![ts(A, vec![code("x", found(A, 0, D))]), ts(B, vec![])]);
    add_redirect(&mut g, D, B);
    let data = GraphData::from(&g);
    assert_eq!(known(&data), vec![A, B, D]);
    match data.get(&url(D)) {
        Some(ModuleEntry::Redirect(to)) => assert_eq!(*to, url(B)),
        _ => panic!("d is a redirect"),
    }
    assert_eq!(data.follow_redirect(&url(D)), url(B));
    assert_eq!(data.follow_redirect(&url(B)), url(B));
    assert_eq!(walked(&data, &[A], (false, false, false)), texts(&[A, B, D]));
}

#[test]
fn npm_packages_are_not_stored_but_required() {
    let mut g = graph(&[A], vec![ts(A, vec![])]);
    g.npm_package_reqs = vec![NpmPackageReq { text: "chalk@5".to_string() }];
    let mut data = GraphData::from(&g);
    // no specifier of the graph names a package, so nothing is required
    assert!(data.npm_package_reqs().is_empty());
    let package = Module {
        specifier: ModuleSpecifier::npm_reference(NPM),
        kind: ModuleKind::External,
        media_type: MediaType::Unknown,
        maybe_source: None,
        dependencies: Dependencies::new(),
        maybe_types_dependency: None,
    };
    let specifier = ModuleSpecifier::npm_reference(NPM);
    g.specifiers.push(GraphEntry { specifier, result: Ok(Arc::new(package)) });
    data.add_graph(&g, false);
    data.add_graph(&g, false);
    let reqs: Vec<&str> = data.npm_package_reqs().iter().map(|r| r.text.as_str()).collect();
    assert_eq!(reqs, vec!["chalk@5", "chalk@5"]);
    assert_eq!(known(&data), vec![A]);
}

#[test]
fn npm_error_is_not_stored() {
    let mut g = graph(&[A], vec![ts(A, vec![])]);
    let specifier = ModuleSpecifier::npm_reference(NPM);
    g.specifiers.push(GraphEntry { specifier, result: Err(load_error("no")) });
    let data = GraphData::from(&g);
    assert_eq!(known(&data), vec![A]);
}

#[test]
fn walk_follows_static_imports() {
    let data = GraphData::from(&chain());
    assert_eq!(walked(&data, &[A], (false, false, false)), texts(&[A, B, C]));
    assert_eq!(walked(&data, &[B], (false, false, false)), texts(&[B, C]));
    assert_eq!(walked(&data, &[C], (true, true, true)), texts(&[C]));
    assert_eq!(walked(&data, &[C, B, C], (true, true, true)), texts(&[B, C]));
    assert_eq!(walked(&data, &[], (true, true, true)), texts(&[]));
}

#[test]
fn walk_gives_the_stored_entries() {
    let data = GraphData::from(&chain());
    let found = data.walk(&roots(&[B]), false, false, false).unwrap();
    match found.get(&url(C)) {
        Some(ModuleEntry::Module { code, .. }) => assert_eq!(code, "// file:///c.ts"),
        _ => panic!("c is found"),
    }
    assert!(found.get(&url(A)).is_none());
}

#[test]
fn walk_ends_in_circles() {
    let data = GraphData::from(&graph(
        &[A],
        vec![
            ts(A, vec![code("b", found(A, 0, B))]),
            ts(B, vec![code("a", found(B, 0, A)), code("b", found(B, 1, B))]),
        ],
    ));
    assert_eq!(walked(&data, &[A], (true, true, true)), texts(&[A, B]));
}

#[test]
fn walk_is_none_for_unknown_modules() {
    let data = GraphData::from(&graph(&[A], vec![ts(A, vec![code("d", found(A, 0, D))])]));
    assert_eq!(walked(&data, &[A], (false, false, false)), None);
    assert_eq!(walked(&data, &[C], (false, false, false)), None);
    assert_eq!(walked(&data, &[A, C], (false, false, false)), None);
    assert!(data.graph_segment(&roots(&[A])).is_none());
    assert!(data.check(&roots(&[A]), false, false).is_none());
}

#[test]
fn walk_follows_dynamic_imports_on_demand() {
    let dynamic = import("b", dependency(found(A, 0, B), Resolved::Nothing, true));
    let data = GraphData::from(&graph(&[A], vec![ts(A, vec![dynamic]), ts(B, vec![])]));
    assert_eq!(walked(&data, &[A], (false, true, true)), texts(&[A]));
    assert_eq!(walked(&data, &[A], (true, true, true)), texts(&[A, B]));
}

#[test]
fn walk_follows_types_on_demand() {
    let typed = import("b", dependency(found(A, 0, B), found(A, 1, TYPES), false));
    let data = GraphData::from(&graph(
        &[A],
        vec![ts(A, vec![typed]), ts(B, vec![]), module(TYPES, MediaType::Dts, vec![])],
    ));
    assert_eq!(walked(&data, &[A], (false, false, true)), texts(&[A, B]));
    assert_eq!(walked(&data, &[A], (false, true, false)), texts(&[A, B, TYPES]));
}

#[test]
fn walk_follows_types_of_javascript_only_with_check_js() {
    for media_type in [MediaType::JavaScript, MediaType::Mjs, MediaType::Cjs, MediaType::Jsx] {
        let typed = import("b", dependency(found(A, 0, B), found(A, 1, TYPES), false));
        let data = GraphData::from(&graph(
            &[A],
            vec![
                module(A, media_type, vec![typed]),
                ts(B, vec![]),
                module(TYPES, MediaType::Dts, vec![]),
            ],
        ));
        assert_eq!(walked(&data, &[A], (false, true, false)), texts(&[A, B]));
        assert_eq!(walked(&data, &[A], (false, true, true)), texts(&[A, B, TYPES]));
        assert_eq!(walked(&data, &[A], (false, false, true)), texts(&[A, B]));
    }
}

#[test]
fn walk_follows_the_types_of_a_module() {
    let mut js = module(A, MediaType::JavaScript, vec![]);
    js.maybe_types_dependency = Some(("./types.d.ts".to_string(), found(A, 0, TYPES)));
    let data = GraphData::from(&graph(&[A], vec![js, module(TYPES, MediaType::Dts, vec![])]));
    assert_eq!(walked(&data, &[A], (true, true, true)), texts(&[A, TYPES]));
    assert_eq!(walked(&data, &[A], (true, true, false)), texts(&[A]));
    assert_eq!(walked(&data, &[A], (true, false, true)), texts(&[A]));
}

#[test]
fn walk_skips_npm_packages() {
    let package = Import {
        text: NPM.to_string(),
        npm: true,
        dependency: dependency(found(A, 0, D), Resolved::Nothing, false),
    };
    // what the import leads to is not known, but it is not followed
    let data = GraphData::from(&graph(&[A], vec![ts(A, vec![package])]));
    assert_eq!(walked(&data, &[A], (true, true, true)), texts(&[A]));
    let root = vec![(ModuleSpecifier::npm_reference(NPM), ModuleKind::External)];
    assert_eq!(keys(&data.walk(&root, true, true, true).unwrap()), Vec::<String>::new());
}

#[test]
fn walk_skips_bare_texts_that_lead_to_npm_packages() {
    let mapped = Resolved::Found {
        specifier: ModuleSpecifier::npm_reference(NPM),
        kind: ModuleKind::External,
        range: range(A, 0, 7),
    };
    let data = GraphData::from(&graph(&[A], vec![ts(A, vec![code("chalk", mapped)])]));
    assert_eq!(walked(&data, &[A], (true, true, true)), texts(&[A]));
}

#[test]
fn walk_does_not_go_on_from_errors() {
    let mut g = graph(&[A], vec![ts(A, vec![code("b", found(A, 0, B))])]);
    add_error(&mut g, B, "not found");
    let data = GraphData::from(&g);
    assert_eq!(walked(&data, &[A], (true, true, true)), texts(&[A, B]));
}

fn with_configuration(maybe_type: Resolved) -> ModuleGraph {
    let mut g = graph(
        &[A],
        vec![ts(A, vec![]), ts(B, vec![]), module(TYPES, MediaType::Dts, vec![])],
    );
    g.imports.push(GraphImport {
        referrer: url(CONFIG),
        dependencies: dependencies(vec![import(
            "./b.ts",
            dependency(found(CONFIG, 3, B), maybe_type, false),
        )]),
    });
    g
}

#[test]
fn walk_starts_at_configured_imports_too() {
    let data = GraphData::from(&with_configuration(found(CONFIG, 4, TYPES)));
    assert_eq!(walked(&data, &[A], (false, false, false)), texts(&[A, B]));
    assert_eq!(walked(&data, &[A], (false, true, false)), texts(&[A, B, TYPES]));
    assert_eq!(walked(&data, &[], (false, false, false)), texts(&[B]));
}

#[test]
fn configured_dynamic_imports_are_followed() {
    let mut g = graph(&[A], vec![ts(A, vec![]), ts(B, vec![])]);
    let dynamic = import("b", dependency(found(CONFIG, 0, B), Resolved::Nothing, true));
    g.imports.push(GraphImport { referrer: url(CONFIG), dependencies: dependencies(vec![dynamic]) });
    let data = GraphData::from(&g);
    assert_eq!(walked(&data, &[A], (false, false, false)), texts(&[A, B]));
}

#[test]
fn dependencies_of_modules_redirects_and_configurations() {
    let mut g = with_configuration(Resolved::Nothing);
    add_redirect(&mut g, D, A);
    let data = GraphData::from(&g);
    assert_eq!(data.get_dependencies(&url(A)).unwrap().len(), 0);
    assert_eq!(data.get_dependencies(&url(D)).unwrap().len(), 0);
    let configured = data.get_dependencies(&url(CONFIG)).unwrap();
    assert_eq!(configured.len(), 1);
    assert_eq!(configured.import_at(0).text, "./b.ts");
    assert!(data.get_dependencies(&url(C)).is_none());
}

#[test]
fn dependencies_of_an_error_are_none() {
    let mut g = graph(&[A], vec![ts(A, vec![])]);
    add_error(&mut g, B, "not found");
    assert!(GraphData::from(&g).get_dependencies(&url(B)).is_none());
}

#[test]
fn first_configuration_of_a_referrer_counts() {
    let mut data = GraphData::from(&with_configuration(Resolved::Nothing));
    let mut second = graph(&[A], vec![ts(A, vec![]), ts(C, vec![])]);
    second.imports.push(GraphImport {
        referrer: url(CONFIG),
        dependencies: dependencies(vec![code("./c.ts", found(CONFIG, 5, C))]),
    });
    data.add_graph(&second, false);
    assert_eq!(data.get_dependencies(&url(CONFIG)).unwrap().import_at(0).text, "./b.ts");
    assert_eq!(walked(&data, &[A], (false, false, false)), texts(&[A, B, C]));
}

#[test]
fn check_passes_where_nothing_fails() {
    let data = GraphData::from(&chain());
    assert_eq!(data.check(&roots(&[A]), true, true), Some(Ok(())));
    assert_eq!(data.check(&roots(&[A]), false, false), Some(Ok(())));
    assert_eq!(graph_valid(&chain(), true, true), Ok(()));
}

#[test]
fn check_reports_resolution_errors_where_they_are() {
    let g = graph(&[A], vec![ts(A, vec![code("b", failed(A, 4, "Relative import"))])]);
    let expected = CheckError::Located {
        class: "TypeError".to_string(),
        message: "Relative import\n    at file:///a.ts:5:8".to_string(),
    };
    assert_eq!(graph_valid(&g, false, false), Err(expected));
}

#[test]
fn check_reports_resolution_errors_of_made_up_modules_as_they_are() {
    let inner = "file:///$deno$eval.ts";
    let g = graph(&[inner], vec![ts(inner, vec![code("b", failed(inner, 4, "Bad"))])]);
    let error = ResolutionError {
        class: "TypeError".to_string(),
        message: "Bad".to_string(),
        range: range(inner, 4, 7),
    };
    assert_eq!(graph_valid(&g, false, false), Err(CheckError::Resolution(error)));
}

#[test]
fn check_reports_the_first_error_of_a_module() {
    let mut a = ts(
        A,
        vec![
            code("z", failed(A, 1, "third")),
            import("b", dependency(failed(A, 2, "second"), failed(A, 3, "never"), false)),
        ],
    );
    a.maybe_types_dependency = Some(("t".to_string(), failed(A, 9, "first")));
    let data = GraphData::from(&graph(&[A], vec![a]));
    let message = |m: &str| CheckError::Located {
        class: "TypeError".to_string(),
        message: m.to_string(),
    };
    // with types that of the types comes first, else imports count by their texts
    assert_eq!(
        data.check(&roots(&[A]), true, false),
        Some(Err(message("first\n    at file:///a.ts:10:8")))
    );
    assert_eq!(
        data.check(&roots(&[A]), false, false),
        Some(Err(message("second\n    at file:///a.ts:3:8")))
    );
}

#[test]
fn check_reports_type_errors_only_where_types_count() {
    let typed = import("b", dependency(Resolved::Nothing, failed(A, 0, "no types"), false));
    let a = module(A, MediaType::JavaScript, vec![typed]);
    let data = GraphData::from(&graph(&[A], vec![a]));
    let expected = CheckError::Located {
        class: "TypeError".to_string(),
        message: "no types\n    at file:///a.ts:1:8".to_string(),
    };
    assert_eq!(data.check(&roots(&[A]), true, true), Some(Err(expected)));
    assert_eq!(data.check(&roots(&[A]), true, false), Some(Ok(())));
    assert_eq!(data.check(&roots(&[A]), false, true), Some(Ok(())));
}

#[test]
fn check_passes_over_dynamic_imports() {
    let bad = import("b", dependency(failed(A, 0, "Bad"), Resolved::Nothing, true));
    let unknown = import("d", dependency(found(A, 1, D), Resolved::Nothing, true));
    let data = GraphData::from(&graph(&[A], vec![ts(A, vec![bad, unknown])]));
    assert_eq!(data.check(&roots(&[A]), true, true), Some(Ok(())));
    assert!(data.walk(&roots(&[A]), true, true, true).is_none());
}

#[test]
fn check_reports_errors_of_npm_imports() {
    // an npm import is not followed, but its own error is reported
    let package = Import {
        text: NPM.to_string(),
        npm: true,
        dependency: dependency(failed(A, 0, "Bad"), Resolved::Nothing, false),
    };
    let data = GraphData::from(&graph(&[A], vec![ts(A, vec![package])]));
    let expected = CheckError::Located {
        class: "TypeError".to_string(),
        message: "Bad\n    at file:///a.ts:1:8".to_string(),
    };
    assert_eq!(data.check(&roots(&[A]), false, false), Some(Err(expected)));
}

#[test]
fn check_says_where_a_module_was_first_imported() {
    let mut g = graph(
        &[A],
        vec![
            ts(A, vec![code("b", found(A, 0, B)), code("d", found(A, 1, D))]),
            ts(B, vec![code("d", found(B, 5, D))]),
        ],
    );
    add_error(&mut g, D, "Module not found");
    let expected = CheckError::Located {
        class: "NotFound".to_string(),
        message: "Module not found\n    at file:///a.ts:2:8".to_string(),
    };
    assert_eq!(graph_valid(&g, false, false), Err(expected));
}

#[test]
fn first_referrer_is_kept_by_later_graphs() {
    let mut first = graph(&[A], vec![ts(A, vec![code("d", found(A, 1, D))])]);
    add_error(&mut first, D, "Module not found");
    let mut second = graph(&[B], vec![ts(B, vec![code("d", found(B, 5, D))])]);
    add_error(&mut second, D, "Module not found");
    let mut data = GraphData::from(&first);
    data.add_graph(&second, true);
    let expected = CheckError::Located {
        class: "NotFound".to_string(),
        message: "Module not found\n    at file:///a.ts:2:8".to_string(),
    };
    assert_eq!(data.check(&roots(&[B]), false, false), Some(Err(expected)));
}

#[test]
fn check_does_not_say_where_roots_were_imported() {
    let mut g = graph(&[A], vec![ts(A, vec![code("d", found(A, 1, D))])]);
    add_error(&mut g, D, "Module not found");
    let data = GraphData::from(&g);
    assert_eq!(
        data.check(&roots(&[D]), false, false),
        Some(Err(CheckError::Module(load_error("Module not found"))))
    );
}

#[test]
fn check_does_not_show_made_up_referrers() {
    let inner = "file:///$deno$stdin.ts";
    let mut g = graph(&[inner], vec![ts(inner, vec![code("d", found(inner, 1, D))])]);
    add_error(&mut g, D, "Module not found");
    assert_eq!(
        graph_valid(&g, false, false),
        Err(CheckError::Module(load_error("Module not found")))
    );
}

#[test]
fn referrers_are_noted_behind_redirects() {
    let mut g = graph(&[A], vec![ts(A, vec![code("b", found(A, 3, B))])]);
    add_error(&mut g, D, "Gone");
    let specifier = url(B);
    g.specifiers.push(GraphEntry { specifier, result: Err(load_error("Gone")) });
    g.redirects.insert(url(B), url(D));
    let expected = CheckError::Located {
        class: "NotFound".to_string(),
        message: "Gone\n    at file:///a.ts:4:8".to_string(),
    };
    assert_eq!(graph_valid(&g, false, false), Err(expected));
}

#[test]
fn configurations_are_the_first_referrers() {
    let mut g = graph(&[A], vec![ts(A, vec![code("b", found(A, 3, B))])]);
    add_error(&mut g, B, "Gone");
    g.imports.push(GraphImport {
        referrer: url(CONFIG),
        dependencies: dependencies(vec![code("./b.ts", found(CONFIG, 6, B))]),
    });
    let expected = CheckError::Located {
        class: "NotFound".to_string(),
        message: "Gone\n    at file:///deno.json:7:8".to_string(),
    };
    assert_eq!(graph_valid(&g, false, false), Err(expected));
}

#[test]
fn types_of_a_module_are_noted_before_its_imports() {
    let mut a = ts(A, vec![code("b", found(A, 3, B))]);
    a.maybe_types_dependency = Some(("b".to_string(), found(A, 8, B)));
    let mut g = graph(&[A], vec![a]);
    add_error(&mut g, B, "Gone");
    let expected = CheckError::Located {
        class: "NotFound".to_string(),
        message: "Gone\n    at file:///a.ts:9:8".to_string(),
    };
    assert_eq!(graph_valid(&g, false, false), Err(expected));
}

#[test]
fn check_passes_weaker_checks() {
    let typed = import("b", dependency(found(A, 0, B), found(A, 1, TYPES), false));
    let data = GraphData::from(&graph(
        &[A],
        vec![
            module(A, MediaType::JavaScript, vec![typed]),
            ts(B, vec![]),
            module(TYPES, MediaType::Dts, vec![]),
        ],
    ));
    for (follow_type_only, check_js) in [(true, true), (true, false), (false, true), (false, false)] {
        assert_eq!(data.check(&roots(&[A]), follow_type_only, check_js), Some(Ok(())));
    }
}

#[test]
fn segment_holds_what_the_roots_lead_to() {
    let mut data = GraphData::from(&chain());
    data.add_graph(&graph(&[D], vec![ts(D, vec![code("c", found(D, 0, C))])]), false);
    assert_eq!(known(&data), vec![A, B, C, D]);
    let segment = data.graph_segment(&roots(&[B])).unwrap();
    assert_eq!(known(&segment), vec![B, C]);
    assert_eq!(known(&segment.graph_segment(&roots(&[B])).unwrap()), vec![B, C]);
    assert!(segment.graph_segment(&roots(&[A])).is_none());
    assert!(data.graph_segment(&roots(&[TYPES])).is_none());
}

#[test]
fn segment_follows_everything() {
    let mut js = module(
        A,
        MediaType::JavaScript,
        vec![import("b", dependency(found(A, 0, B), Resolved::Nothing, true))],
    );
    js.maybe_types_dependency = Some(("t".to_string(), found(A, 1, TYPES)));
    let data = GraphData::from(&graph(
        &[A],
        vec![js, ts(B, vec![]), module(TYPES, MediaType::Dts, vec![])],
    ));
    let segment = data.graph_segment(&roots(&[A])).unwrap();
    assert_eq!(known(&segment), vec![A, B, TYPES]);
}

#[test]
fn segment_checks_as_the_whole_does() {
    let mut g = graph(
        &[A],
        vec![ts(A, vec![code("b", found(A, 0, B))]), ts(B, vec![code("d", found(B, 5, D))])],
    );
    add_error(&mut g, D, "Gone");
    g.npm_package_reqs = vec![NpmPackageReq { text: "chalk@5".to_string() }];
    let specifier = ModuleSpecifier::npm_reference(NPM);
    g.specifiers.push(GraphEntry { specifier, result: Err(load_error("no")) });
    let data = GraphData::from(&g);
    let segment = data.graph_segment(&roots(&[B])).unwrap();
    let expected = CheckError::Located {
        class: "NotFound".to_string(),
        message: "Gone\n    at file:///b.ts:6:8".to_string(),
    };
    assert_eq!(segment.check(&roots(&[B]), false, false), Some(Err(expected)));
    assert_eq!(
        segment.check(&roots(&[B]), false, false),
        data.check(&roots(&[B]), false, false)
    );
    assert_eq!(segment.npm_package_reqs().len(), 1);
}

#[test]
fn segment_keeps_configurations_and_marks() {
    let mut data = GraphData::from(&with_configuration(Resolved::Nothing));
    data.set_type_checked(&roots(&[A]), TsTypeLib::DenoWindow);
    let segment = data.graph_segment(&roots(&[A])).unwrap();
    assert_eq!(known(&segment), vec![A, B]);
    assert!(segment.get_dependencies(&url(CONFIG)).is_some());
    assert!(segment.is_type_checked(&roots(&[A, B]), &TsTypeLib::DenoWindow));
    assert!(!segment.is_type_checked(&roots(&[A]), &TsTypeLib::DenoWorker));
}

#[test]
fn marks_reach_all_dependencies() {
    let mut data = GraphData::from(&chain());
    data.set_type_checked(&roots(&[B]), TsTypeLib::DenoWindow);
    assert!(data.is_type_checked(&roots(&[B]), &TsTypeLib::DenoWindow));
    assert!(data.is_type_checked(&roots(&[C]), &TsTypeLib::DenoWindow));
    assert!(data.is_type_checked(&roots(&[B, C]), &TsTypeLib::DenoWindow));
    assert!(!data.is_type_checked(&roots(&[A]), &TsTypeLib::DenoWindow));
    assert!(!data.is_type_checked(&roots(&[B, A]), &TsTypeLib::DenoWindow));
    assert!(!data.is_type_checked(&roots(&[B]), &TsTypeLib::DenoWorker));
    data.set_type_checked(&roots(&[A]), TsTypeLib::DenoWorker);
    assert!(data.is_type_checked(&roots(&[A, B, C]), &TsTypeLib::DenoWorker));
    assert!(data.is_type_checked(&roots(&[B]), &TsTypeLib::DenoWindow));
    assert!(!data.is_type_checked(&roots(&[A]), &TsTypeLib::DenoWindow));
    assert_eq!(data.check(&roots(&[A]), true, true), Some(Ok(())));
    assert_eq!(walked(&data, &[A], (true, true, true)), texts(&[A, B, C]));
}

#[test]
fn marks_follow_redirects() {
    let mut g = graph(&[D], vec![ts(B, vec![])]);
    add_redirect(&mut g, D, B);
    let mut data = GraphData::from(&g);
    data.set_type_checked(&roots(&[D]), TsTypeLib::DenoWindow);
    assert!(data.is_type_checked(&roots(&[D]), &TsTypeLib::DenoWindow));
    assert!(data.is_type_checked(&roots(&[B]), &TsTypeLib::DenoWindow));
}

#[test]
fn errors_are_never_marked() {
    let mut g = graph(&[A], vec![ts(A, vec![code("d", found(A, 1, D))])]);
    add_error(&mut g, D, "Gone");
    let mut data = GraphData::from(&g);
    data.set_type_checked(&roots(&[A]), TsTypeLib::DenoWindow);
    assert!(data.is_type_checked(&roots(&[A]), &TsTypeLib::DenoWindow));
    assert!(!data.is_type_checked(&roots(&[D]), &TsTypeLib::DenoWindow));
}

#[test]
fn npm_roots_are_never_found_checked() {
    let mut data = GraphData::default();
    let root = vec![(ModuleSpecifier::npm_reference(NPM), ModuleKind::External)];
    data.set_type_checked(&root, TsTypeLib::DenoWindow);
    assert!(!data.is_type_checked(&root, &TsTypeLib::DenoWindow));
}

#[test]
fn complete_walk_is_kept_when_a_graph_is_added() {
    let mut data = GraphData::from(&chain());
    let before = walked(&data, &[A], (true, true, true));
    data.add_graph(&graph(&[D], vec![ts(D, vec![code("a", found(D, 0, A))])]), false);
    assert_eq!(walked(&data, &[A], (true, true, true)), before);
    assert_eq!(walked(&data, &[D], (true, true, true)), texts(&[A, B, C, D]));
}

#[test]
fn reloading_a_graph_again_changes_nothing() {
    let mut g = graph(&[A], vec![ts(A, vec![code("b", found(A, 3, B))])]);
    add_error(&mut g, B, "Gone");
    let mut data = GraphData::from(&chain());
    data.add_graph(&g, true);
    let expected = CheckError::Located {
        class: "NotFound".to_string(),
        message: "Gone\n    at file:///a.ts:1:8".to_string(),
    };
    assert_eq!(known(&data), vec![A, B, C]);
    assert_eq!(data.check(&roots(&[A]), false, false), Some(Err(expected)));
    let before = data.check(&roots(&[A]), false, false);
    data.add_graph(&g, true);
    assert_eq!(known(&data), vec![A, B, C]);
    assert_eq!(data.check(&roots(&[A]), false, false), before);
    assert_eq!(source(&data, A), Some("// file:///a.ts".to_string()));
}

#[test]
fn check_js_counts_only_with_types() {
    let typed = import("b", dependency(found(A, 0, B), failed(A, 1, "no types"), false));
    let js = module(A, MediaType::JavaScript, vec![typed]);
    let data = GraphData::from(&graph(&[A], vec![js, ts(B, vec![])]));
    assert_eq!(walked(&data, &[A], (true, false, true)), walked(&data, &[A], (true, false, false)));
    assert_eq!(data.check(&roots(&[A]), false, true), Some(Ok(())));
    assert_eq!(data.check(&roots(&[A]), false, false), Some(Ok(())));
    assert!(data.check(&roots(&[A]), true, true).unwrap().is_err());
}

#[test]
fn joined_roots_lead_to_what_each_leads_to() {
    let mut data = GraphData::from(&chain());
    data.add_graph(&graph(&[D], vec![ts(D, vec![code("c", found(D, 0, C))])]), false);
    assert_eq!(walked(&data, &[B], (false, false, false)), texts(&[B, C]));
    assert_eq!(walked(&data, &[D], (false, false, false)), texts(&[C, D]));
    assert_eq!(walked(&data, &[B, D], (false, false, false)), texts(&[B, C, D]));
    assert_eq!(walked(&data, &[B, TYPES], (false, false, false)), None);
}

#[test]
fn dynamic_imports_change_no_check() {
    let plain = || code("b", failed(A, 2, "Bad"));
    let dynamic = || import("a", dependency(failed(A, 1, "Worse"), Resolved::Nothing, true));
    let without = GraphData::from(&graph(&[A], vec![ts(A, vec![plain()])]));
    let with = GraphData::from(&graph(&[A], vec![ts(A, vec![dynamic(), plain()])]));
    let expected = CheckError::Located {
        class: "TypeError".to_string(),
        message: "Bad\n    at file:///a.ts:3:8".to_string(),
    };
    assert_eq!(with.check(&roots(&[A]), true, true), Some(Err(expected)));
    assert_eq!(
        with.check(&roots(&[A]), true, true),
        without.check(&roots(&[A]), true, true)
    );
}

#[test]
fn dependencies_of_a_module_are_found_by_text() {
    let data = GraphData::from(&chain());
    let dependencies = data.get_dependencies(&url(A)).unwrap();
    assert_eq!(dependencies.get("./b.ts").unwrap().maybe_code, found(A, 0, B));
    assert!(dependencies.get("./c.ts").is_none());
}

#[test]
fn contains_specifier_compares_specifiers_alone() {
    let v = vec![(url(A), ModuleKind::Esm), (url(B), ModuleKind::Script)];
    assert!(contains_specifier(&v, &url(A)));
    assert!(contains_specifier(&v, &url(B)));
    assert!(!contains_specifier(&v, &url(C)));
    assert!(!contains_specifier(&[], &url(A)));
}
