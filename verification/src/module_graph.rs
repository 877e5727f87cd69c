//! A module graph, as it was built from its roots.
use std::sync::Arc;
use vstd::prelude::*;
use crate::dependency::{Dependencies, ImportView};
use crate::resolution::{ModuleKind, Resolved, ResolvedView};
use crate::specifier::{ModuleSpecifier, SpecifierView};
use crate::specifier_map::SpecifierMap;

verus! {

/// The media types of modules.
#[derive(Debug, Clone, Copy, PartialEq, Eq, Structural)]
pub enum MediaType {
    JavaScript,
    Jsx,
    Mjs,
    Cjs,
    TypeScript,
    Mts,
    Cts,
    Dts,
    Dmts,
    Dcts,
    Tsx,
    Json,
    Wasm,
    TsBuildInfo,
    SourceMap,
    Unknown,
}

impl MediaType {
    /// The module is written in JavaScript.
    pub open spec fn is_js(self) -> bool {
        self is JavaScript || self is Mjs || self is Cjs || self is Jsx
    }

    /// Whether the module is written in JavaScript.
    pub fn written_in_js(self) -> (result: bool)
        ensures
            result == self.is_js(),
    {
        matches!(
            self,
            MediaType::JavaScript | MediaType::Mjs | MediaType::Cjs | MediaType::Jsx
        )
    }
}

/// What the error of a module stands for.
pub struct ModuleGraphErrorView {
    pub class: Seq<char>,
    pub message: Seq<char>,
}

/// A module that could not be loaded: the class and the message of the error.
#[derive(Debug, PartialEq, Eq)]
pub struct ModuleGraphError {
    pub class: String,
    pub message: String,
}

impl View for ModuleGraphError {
    type V = ModuleGraphErrorView;

    open spec fn view(&self) -> ModuleGraphErrorView {
        ModuleGraphErrorView { class: self.class@, message: self.message@ }
    }
}

impl Clone for ModuleGraphError {
    fn clone(&self) -> (result: Self)
        ensures
            result@ == self@,
    {
        ModuleGraphError { class: self.class.clone(), message: self.message.clone() }
    }
}

/// A requirement of an npm package, as text.
#[derive(Debug, PartialEq, Eq)]
pub struct NpmPackageReq {
    pub text: String,
}

impl View for NpmPackageReq {
    type V = Seq<char>;

    open spec fn view(&self) -> Seq<char> {
        self.text@
    }
}

impl Clone for NpmPackageReq {
    fn clone(&self) -> (result: Self)
        ensures
            result@ == self@,
    {
        NpmPackageReq { text: self.text.clone() }
    }
}

/// The requirements of `reqs`, as texts.
pub open spec fn requirements(reqs: Seq<NpmPackageReq>) -> Seq<Seq<char>> {
    reqs.map_values(|r: NpmPackageReq| r@)
}

/// What a module stands for.
pub struct ModuleView {
    pub specifier: SpecifierView,
    pub kind: ModuleKind,
    pub media_type: MediaType,
    pub maybe_source: Option<Seq<char>>,
    pub dependencies: Seq<ImportView>,
    pub maybe_types: Option<ResolvedView>,
}

/// A module of a graph.
pub struct Module {
    pub specifier: ModuleSpecifier,
    pub kind: ModuleKind,
    pub media_type: MediaType,
    pub maybe_source: Option<String>,
    pub dependencies: Dependencies,
    /// The text that names the types of the module, and what it was resolved to.
    pub maybe_types_dependency: Option<(String, Resolved)>,
}

impl View for Module {
    type V = ModuleView;

    open spec fn view(&self) -> ModuleView {
        ModuleView {
            specifier: self.specifier@,
            kind: self.kind,
            media_type: self.media_type,
            maybe_source: match self.maybe_source {
                Some(source) => Some(source@),
                None => None,
            },
            dependencies: self.dependencies@,
            maybe_types: match self.maybe_types_dependency {
                Some(types) => Some(types.1@),
                None => None,
            },
        }
    }
}

/// What the imports of a configuration stand for.
pub struct GraphImportView {
    pub referrer: SpecifierView,
    pub dependencies: Seq<ImportView>,
}

/// Modules that a graph imports because a configuration says so.
pub struct GraphImport {
    /// The file that says so.
    pub referrer: ModuleSpecifier,
    pub dependencies: Dependencies,
}

impl View for GraphImport {
    type V = GraphImportView;

    open spec fn view(&self) -> GraphImportView {
        GraphImportView { referrer: self.referrer@, dependencies: self.dependencies@ }
    }
}

impl Clone for GraphImport {
    fn clone(&self) -> (result: Self)
        ensures
            result@ == self@,
    {
        GraphImport { referrer: self.referrer.clone(), dependencies: self.dependencies.clone() }
    }
}

/// The imports of `imports`, one by one.
pub open spec fn graph_imports(imports: Seq<GraphImport>) -> Seq<GraphImportView> {
    imports.map_values(|i: GraphImport| i@)
}

/// The roots of `roots`, one by one.
pub open spec fn root_views(
    roots: Seq<(ModuleSpecifier, ModuleKind)>,
) -> Seq<(SpecifierView, ModuleKind)> {
    roots.map_values(|r: (ModuleSpecifier, ModuleKind)| (r.0@, r.1))
}

/// What an entry of a graph stands for.
pub struct GraphEntryView {
    pub specifier: SpecifierView,
    pub result: Result<ModuleView, ModuleGraphErrorView>,
}

/// A specifier of a graph, with the module found for it or with the error.
pub struct GraphEntry {
    pub specifier: ModuleSpecifier,
    pub result: Result<Arc<Module>, ModuleGraphError>,
}

impl View for GraphEntry {
    type V = GraphEntryView;

    open spec fn view(&self) -> GraphEntryView {
        GraphEntryView {
            specifier: self.specifier@,
            result: match self.result {
                Ok(module) => Ok((*module)@),
                Err(error) => Err(error@),
            },
        }
    }
}

/// Redirects by what they stand for.
pub open spec fn redirect_views(redirects: Map<SpecifierView, ModuleSpecifier>) -> Map<
    SpecifierView,
    SpecifierView,
> {
    redirects.map_values(|s: ModuleSpecifier| s@)
}

/// What a module graph stands for.
pub struct ModuleGraphView {
    pub roots: Seq<(SpecifierView, ModuleKind)>,
    pub modules: Seq<ModuleView>,
    pub specifiers: Seq<GraphEntryView>,
    pub imports: Seq<GraphImportView>,
    pub redirects: Map<SpecifierView, SpecifierView>,
    pub npm_package_reqs: Seq<Seq<char>>,
}

/// A graph of modules.
pub struct ModuleGraph {
    /// The modules from which the graph was built.
    pub roots: Vec<(ModuleSpecifier, ModuleKind)>,
    /// The modules that were loaded.
    pub modules: Vec<Arc<Module>>,
    /// Every specifier that was loaded or failed to load, then every specifier
    /// that was redirected, each with what was found in the end.
    pub specifiers: Vec<GraphEntry>,
    /// The modules that a configuration imports.
    pub imports: Vec<GraphImport>,
    /// The specifiers that were redirected, and to which specifier.
    pub redirects: SpecifierMap<ModuleSpecifier>,
    /// The npm packages that the graph requires, in the order in which they
    /// should be resolved.
    pub npm_package_reqs: Vec<NpmPackageReq>,
}

impl View for ModuleGraph {
    type V = ModuleGraphView;

    open spec fn view(&self) -> ModuleGraphView {
        ModuleGraphView {
            roots: root_views(self.roots@),
            modules: self.modules@.map_values(|m: Arc<Module>| (*m)@),
            specifiers: self.specifiers@.map_values(|e: GraphEntry| e@),
            imports: graph_imports(self.imports@),
            redirects: redirect_views(self.redirects@),
            npm_package_reqs: requirements(self.npm_package_reqs@),
        }
    }
}

} // verus!
