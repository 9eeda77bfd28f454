//! Request and response values of the HTTP interface, and what the
//! handlers answer.

use std::sync::Arc;

use vstd::prelude::*;

use crate::languages::{LanguageRegistry, LanguageSupport};

verus! {

/// Answer of the health check.
pub struct HealthResponse {
    pub status: String,
    pub version: String,
}

/// A structured error: its kind and a message.
pub struct ErrorResponse {
    pub error: String,
    pub message: String,
}

/// A project as the interface reports it.
pub struct ProjectResponse {
    pub project_id: i64,
    pub name: String,
    pub root_path: String,
    pub status: String,
}

/// A supported language.
pub struct LanguageInfo {
    pub id: String,
    pub extensions: Vec<String>,
}

/// Mathematical value of a [`LanguageInfo`].
pub struct LanguageInfoView {
    pub id: Seq<char>,
    pub extensions: Seq<Seq<char>>,
}

impl View for LanguageInfo {
    type V = LanguageInfoView;

    open spec fn view(&self) -> LanguageInfoView {
        LanguageInfoView { id: self.id@, extensions: self.extensions.deep_view() }
    }
}

impl DeepView for LanguageInfo {
    type V = LanguageInfoView;

    open spec fn deep_view(&self) -> LanguageInfoView {
        self@
    }
}

/// Request to create a project.
pub struct CreateProjectRequest {
    pub name: String,
    pub root_path: String,
    pub languages: Option<Vec<String>>,
}

/// Request to parse a project.
pub struct ParseProjectRequest {
    pub incremental: bool,
    pub paths: Option<Vec<String>>,
}

/// Query for the definition at a position.
pub struct DefinitionQuery {
    pub file: String,
    pub line: u32,
    pub column: u32,
}

/// Query for the references at a position.
pub struct ReferencesQuery {
    pub file: String,
    pub line: u32,
    pub column: u32,
}

/// Query for the call graph around a symbol.
pub struct CallgraphQuery {
    pub symbol: String,
    pub depth: u32,
    pub direction: String,
}

/// Query for symbols by name.
pub struct SymbolsQuery {
    pub query: String,
    pub symbol_type: Option<String>,
    pub limit: u32,
}

/// The depth of a call graph query that names none.
pub fn default_depth() -> (depth: u32)
    ensures
        depth == 1,
{
    1
}

/// The direction of a call graph query that names none.
pub fn default_direction() -> (direction: String)
    ensures
        direction@ == "both"@,
{
    "both".to_owned()
}

/// The limit of a symbol query that names none.
pub fn default_limit() -> (limit: u32)
    ensures
        limit == 50,
{
    50
}

/// The answer of the health check for a version of the service.
pub fn health(version: &str) -> (r: HealthResponse)
    ensures
        r.status@ == "ok"@,
        r.version@ == version@,
{
    HealthResponse { status: "ok".to_owned(), version: version.to_owned() }
}

/// The answer to a created project.
pub fn project_created(project_id: i64, request: CreateProjectRequest) -> (r: ProjectResponse)
    ensures
        r.project_id == project_id,
        r.name@ == request.name@,
        r.root_path@ == request.root_path@,
        r.status@ == "created"@,
{
    ProjectResponse {
        project_id,
        name: request.name,
        root_path: request.root_path,
        status: "created".to_owned(),
    }
}

/// The error of a store operation that failed.
pub fn database_error(message: String) -> (r: ErrorResponse)
    ensures
        r.error@ == "database_error"@,
        r.message@ == message@,
{
    ErrorResponse { error: "database_error".to_owned(), message }
}

/// The error of a query that failed.
pub fn query_error(message: String) -> (r: ErrorResponse)
    ensures
        r.error@ == "query_error"@,
        r.message@ == message@,
{
    ErrorResponse { error: "query_error".to_owned(), message }
}

/// What is reported of a language.
pub open spec fn info_of_language<L: LanguageSupport>() -> spec_fn(Arc<L>) -> LanguageInfoView {
    |l: Arc<L>| LanguageInfoView { id: l.id(), extensions: l.extensions() }
}

/// The supported languages of a registry, in the order of registration.
pub fn language_infos<L: LanguageSupport>(registry: &LanguageRegistry<L>) -> (infos: Vec<
    LanguageInfo,
>)
    ensures
        infos.deep_view() == registry@.map_values(info_of_language()),
{
    let languages = registry.list_languages();
    let mut infos: Vec<LanguageInfo> = Vec::new();
    let mut i: usize = 0;
    while i < languages.len()
        invariant
            i <= languages.len(),
            languages@ == registry@,
            infos.deep_view() == registry@.take(i as int).map_values(info_of_language()),
        decreases languages.len() - i,
    {
        let names = languages[i].file_extensions();
        let mut extensions: Vec<String> = Vec::new();
        let mut k: usize = 0;
        while k < names.len()
            invariant
                k <= names.len(),
                extensions.deep_view() == names.deep_view().take(k as int),
            decreases names.len() - k,
        {
            let ghost prior = extensions.deep_view();
            extensions.push(names[k].to_owned());
            assert(extensions.deep_view() =~= prior.push(names.deep_view()[k as int]));
            assert(names.deep_view().take(k + 1) =~= prior.push(names.deep_view()[k as int]));
            k = k + 1;
        }
        assert(names.deep_view().take(k as int) =~= names.deep_view());
        let ghost prior = infos.deep_view();
        let info = LanguageInfo { id: languages[i].language_id().to_owned(), extensions };
        infos.push(info);
        assert(infos.deep_view() =~= prior.push(info_of_language()(registry@[i as int])));
        assert(registry@.take(i + 1).map_values(info_of_language()) =~= prior.push(
            info_of_language()(registry@[i as int]),
        ));
        i = i + 1;
    }
    assert(registry@.take(i as int) =~= registry@);
    infos
}

} // verus!
