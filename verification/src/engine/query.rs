//! The query engine: definitions, references, call graphs and symbol search
//! over a store.

use vstd::prelude::*;

use crate::seqs::{find_first, lemma_first_absent, lemma_first_found};
use crate::storage::database::Database;
use crate::storage::error::StoreError;
use crate::storage::lookup::{definition_kind, is_definition_kind, kind_calls, kind_references};
use crate::storage::models::{copy_text, NodeRecord, NodeView};
use crate::storage::state::StoreView;
use crate::text::{ends_with_seq, join, same_text, text_ends_with};

verus! {

/// Location of a symbol in the source code.
#[derive(Debug)]
pub struct SymbolLocation {
    pub file: String,
    pub line: u32,
    pub column: u32,
    pub node_type: String,
    pub name: String,
    pub qualified_name: Option<String>,
    pub context: Option<String>,
}

/// Mathematical value of a [`SymbolLocation`].
pub struct LocationView {
    pub file: Seq<char>,
    pub line: u32,
    pub column: u32,
    pub node_type: Seq<char>,
    pub name: Seq<char>,
    pub qualified_name: Option<Seq<char>>,
    pub context: Option<Seq<char>>,
}

impl View for SymbolLocation {
    type V = LocationView;

    open spec fn view(&self) -> LocationView {
        LocationView {
            file: self.file@,
            line: self.line,
            column: self.column,
            node_type: self.node_type@,
            name: self.name@,
            qualified_name: self.qualified_name.deep_view(),
            context: self.context.deep_view(),
        }
    }
}

impl DeepView for SymbolLocation {
    type V = LocationView;

    open spec fn deep_view(&self) -> LocationView {
        self@
    }
}

impl Clone for SymbolLocation {
    fn clone(&self) -> (r: Self)
        ensures
            r@ == self@,
    {
        SymbolLocation {
            file: self.file.clone(),
            line: self.line,
            column: self.column,
            node_type: self.node_type.clone(),
            name: self.name.clone(),
            qualified_name: copy_text(&self.qualified_name),
            context: copy_text(&self.context),
        }
    }
}

/// Information about a symbol.
#[derive(Debug)]
pub struct SymbolInfo {
    pub name: String,
    pub qualified_name: Option<String>,
    pub node_type: String,
    pub file: String,
    pub line: u32,
    pub column: u32,
}

/// Mathematical value of a [`SymbolInfo`].
pub struct InfoView {
    pub name: Seq<char>,
    pub qualified_name: Option<Seq<char>>,
    pub node_type: Seq<char>,
    pub file: Seq<char>,
    pub line: u32,
    pub column: u32,
}

impl View for SymbolInfo {
    type V = InfoView;

    open spec fn view(&self) -> InfoView {
        InfoView {
            name: self.name@,
            qualified_name: self.qualified_name.deep_view(),
            node_type: self.node_type@,
            file: self.file@,
            line: self.line,
            column: self.column,
        }
    }
}

impl DeepView for SymbolInfo {
    type V = InfoView;

    open spec fn deep_view(&self) -> InfoView {
        self@
    }
}

impl Clone for SymbolInfo {
    fn clone(&self) -> (r: Self)
        ensures
            r@ == self@,
    {
        SymbolInfo {
            name: self.name.clone(),
            qualified_name: copy_text(&self.qualified_name),
            node_type: self.node_type.clone(),
            file: self.file.clone(),
            line: self.line,
            column: self.column,
        }
    }
}

/// Result of a definition query.
#[derive(Debug)]
pub struct DefinitionResult {
    pub found: bool,
    pub definition: Option<SymbolLocation>,
}

impl View for DefinitionResult {
    type V = Option<LocationView>;

    /// The location found, if any; `found` says whether there is one.
    open spec fn view(&self) -> Option<LocationView> {
        self.definition.deep_view()
    }
}

impl DefinitionResult {
    /// `found` agrees with `definition`.
    pub open spec fn consistent(&self) -> bool {
        self.found == self.definition.is_some()
    }
}

/// Result of a references query.
#[derive(Debug)]
pub struct ReferencesResult {
    pub count: usize,
    pub references: Vec<SymbolLocation>,
}

impl View for ReferencesResult {
    type V = Seq<LocationView>;

    open spec fn view(&self) -> Seq<LocationView> {
        self.references.deep_view()
    }
}

impl ReferencesResult {
    /// `count` is the number of references.
    pub open spec fn consistent(&self) -> bool {
        self.count == self.references.len()
    }
}

/// Result of a call graph query.
#[derive(Debug)]
pub struct CallGraphResult {
    pub center: SymbolInfo,
    pub callers: Vec<SymbolInfo>,
    pub callees: Vec<SymbolInfo>,
}

/// Mathematical value of a [`CallGraphResult`].
pub struct CallGraphView {
    pub center: InfoView,
    pub callers: Seq<InfoView>,
    pub callees: Seq<InfoView>,
}

impl View for CallGraphResult {
    type V = CallGraphView;

    open spec fn view(&self) -> CallGraphView {
        CallGraphView {
            center: self.center@,
            callers: self.callers.deep_view(),
            callees: self.callees.deep_view(),
        }
    }
}

/// Result of a symbol search.
#[derive(Debug)]
pub struct SymbolSearchResult {
    pub count: usize,
    pub symbols: Vec<SymbolInfo>,
}

impl View for SymbolSearchResult {
    type V = Seq<InfoView>;

    open spec fn view(&self) -> Seq<InfoView> {
        self.symbols.deep_view()
    }
}

impl SymbolSearchResult {
    /// `count` is the number of symbols.
    pub open spec fn consistent(&self) -> bool {
        self.count == self.symbols.len()
    }
}

/// Why a query failed.
#[derive(Debug)]
pub enum QueryError {
    /// No node of the project has the symbol as name or qualified name.
    SymbolNotFound(String),
    /// The store refused an operation.
    Store(StoreError),
}

impl QueryError {
    /// The error in words.
    pub fn message(&self) -> (text: String)
        ensures
            text@ == match self {
                QueryError::SymbolNotFound(symbol) => "Symbol not found: "@ + symbol@,
                QueryError::Store(e) => "Store operation failed: "@ + e.words(),
            },
    {
        match self {
            QueryError::SymbolNotFound(symbol) => {
                join("Symbol not found: ", symbol.as_str())
            },
            QueryError::Store(e) => join("Store operation failed: ", e.message().as_str()),
        }
    }
}

/// The path of the file a node belongs to; empty if the store has no such file.
pub open spec fn file_path_of(s: StoreView, n: NodeView) -> Seq<char> {
    match s.file_by_id(n.file_id) {
        Some(f) => f.path,
        None => Seq::empty(),
    }
}

/// Where a node starts.
pub open spec fn location_of(s: StoreView) -> spec_fn(NodeView) -> LocationView {
    |n: NodeView|
        LocationView {
            file: file_path_of(s, n),
            line: n.start_line,
            column: n.start_column,
            node_type: n.node_type,
            name: n.name,
            qualified_name: n.qualified_name,
            context: None,
        }
}

/// What a node says of its symbol.
pub open spec fn info_of(s: StoreView) -> spec_fn(NodeView) -> InfoView {
    |n: NodeView|
        InfoView {
            name: n.name,
            qualified_name: n.qualified_name,
            node_type: n.node_type,
            file: file_path_of(s, n),
            line: n.start_line,
            column: n.start_column,
        }
}

/// The definition for a position: where the innermost node at the position
/// refers to, or, if it refers nowhere, that node itself.
pub open spec fn definition_at(s: StoreView, project_id: i64, file: Seq<char>, line: u32, column: u32)
    -> Option<LocationView> {
    match s.node_at(project_id, file, line, column) {
        Some(n) => match s.reference_target(n.id) {
            Some(target) => Some(location_of(s)(target)),
            None => Some(location_of(s)(n)),
        },
        None => None,
    }
}

/// The references for a position: the nodes with a `references` edge to
/// the innermost node at the position.
pub open spec fn references_at(s: StoreView, project_id: i64, file: Seq<char>, line: u32, column: u32)
    -> Seq<LocationView> {
    match s.node_at(project_id, file, line, column) {
        Some(n) => s.sources_into(n.id, kind_references()).map_values(location_of(s)),
        None => Seq::empty(),
    }
}

/// The direction asks for callers.
pub open spec fn wants_callers(direction: Seq<char>) -> bool {
    direction == "callers"@ || direction == "both"@
}

/// The direction asks for callees.
pub open spec fn wants_callees(direction: Seq<char>) -> bool {
    direction == "callees"@ || direction == "both"@
}

/// The call graph around the first node named `symbol`: one hop of `calls`
/// edges in the directions asked for, nothing at depth zero; none if no
/// node has that name.
pub open spec fn callgraph_of(
    s: StoreView,
    project_id: i64,
    symbol: Seq<char>,
    depth: u32,
    direction: Seq<char>,
) -> Option<CallGraphView> {
    match s.symbol_by_name(project_id, symbol) {
        Some(n) => Some(
            CallGraphView {
                center: info_of(s)(n),
                callers: if depth > 0 && wants_callers(direction) {
                    s.sources_into(n.id, kind_calls()).map_values(info_of(s))
                } else {
                    Seq::empty()
                },
                callees: if depth > 0 && wants_callees(direction) {
                    s.targets_from(n.id, kind_calls()).map_values(info_of(s))
                } else {
                    Seq::empty()
                },
            },
        ),
        None => None,
    }
}

/// The symbols found by a search.
pub open spec fn symbols_matching(
    s: StoreView,
    project_id: i64,
    query: Seq<char>,
    kind: Option<Seq<char>>,
    limit: u32,
) -> Seq<InfoView> {
    s.search(project_id, query, kind, limit).map_values(info_of(s))
}

/// Query executor over a store.
pub struct QueryExecutor {
    db: Database,
}

impl View for QueryExecutor {
    type V = StoreView;

    closed spec fn view(&self) -> StoreView {
        self.db@
    }
}

/// The path of the file a node belongs to.
fn path_of(db: &Database, n: &NodeRecord) -> (path: String)
    ensures
        path@ == file_path_of(db@, n@),
{
    match db.get_file(n.file_id) {
        Ok(Some(f)) => f.path,
        _ => String::new(),
    }
}

/// Where a node starts.
fn locate(db: &Database, n: &NodeRecord) -> (loc: SymbolLocation)
    ensures
        loc@ == location_of(db@)(n@),
{
    SymbolLocation {
        file: path_of(db, n),
        line: n.start_line,
        column: n.start_column,
        node_type: n.node_type.clone(),
        name: n.name.clone(),
        qualified_name: copy_text(&n.qualified_name),
        context: None,
    }
}

/// What a node says of its symbol.
fn describe(db: &Database, n: &NodeRecord) -> (info: SymbolInfo)
    ensures
        info@ == info_of(db@)(n@),
{
    SymbolInfo {
        name: n.name.clone(),
        qualified_name: copy_text(&n.qualified_name),
        node_type: n.node_type.clone(),
        file: path_of(db, n),
        line: n.start_line,
        column: n.start_column,
    }
}

/// Where each of the nodes starts.
fn locate_all(db: &Database, nodes: &Vec<NodeRecord>) -> (out: Vec<SymbolLocation>)
    ensures
        out.deep_view() == nodes.deep_view().map_values(location_of(db@)),
{
    let mut out: Vec<SymbolLocation> = Vec::new();
    let mut i: usize = 0;
    while i < nodes.len()
        invariant
            i <= nodes.len(),
            out.deep_view() == nodes.deep_view().take(i as int).map_values(location_of(db@)),
        decreases nodes.len() - i,
    {
        let ghost prior = out.deep_view();
        out.push(locate(db, &nodes[i]));
        assert(out.deep_view() =~= prior.push(location_of(db@)(nodes.deep_view()[i as int])));
        assert(nodes.deep_view().take(i + 1).map_values(location_of(db@)) =~= prior.push(
            location_of(db@)(nodes.deep_view()[i as int]),
        ));
        i = i + 1;
    }
    assert(nodes.deep_view().take(i as int) =~= nodes.deep_view());
    out
}

/// What each of the nodes says of its symbol.
fn describe_all(db: &Database, nodes: &Vec<NodeRecord>) -> (out: Vec<SymbolInfo>)
    ensures
        out.deep_view() == nodes.deep_view().map_values(info_of(db@)),
{
    let mut out: Vec<SymbolInfo> = Vec::new();
    let mut i: usize = 0;
    while i < nodes.len()
        invariant
            i <= nodes.len(),
            out.deep_view() == nodes.deep_view().take(i as int).map_values(info_of(db@)),
        decreases nodes.len() - i,
    {
        let ghost prior = out.deep_view();
        out.push(describe(db, &nodes[i]));
        assert(out.deep_view() =~= prior.push(info_of(db@)(nodes.deep_view()[i as int])));
        assert(nodes.deep_view().take(i + 1).map_values(info_of(db@)) =~= prior.push(
            info_of(db@)(nodes.deep_view()[i as int]),
        ));
        i = i + 1;
    }
    assert(nodes.deep_view().take(i as int) =~= nodes.deep_view());
    out
}

impl QueryExecutor {
    /// An executor over the given store.
    pub fn new(db: Database) -> (executor: QueryExecutor)
        ensures
            executor@ == db@,
    {
        QueryExecutor { db }
    }

    /// The store.
    pub fn database(&self) -> (db: &Database)
        ensures
            db@ == self@,
    {
        &self.db
    }

    /// Finds the definition of the symbol at a position.
    pub fn find_definition(&self, project_id: i64, file: &str, line: u32, column: u32) -> (r:
        Result<DefinitionResult, QueryError>)
        ensures
            r matches Ok(result) && result@ == definition_at(
                self@,
                project_id,
                file@,
                line,
                column,
            ) && result.consistent(),
    {
        let node = match self.db.find_node_at_position(project_id, file, line, column) {
            Ok(found) => found,
            Err(e) => {
                return Err(QueryError::Store(e));
            },
        };
        match node {
            Some(n) => {
                let target = match self.db.find_reference_target(n.id) {
                    Ok(found) => found,
                    Err(e) => {
                        return Err(QueryError::Store(e));
                    },
                };
                let location = match target {
                    Some(t) => locate(&self.db, &t),
                    None => locate(&self.db, &n),
                };
                Ok(DefinitionResult { found: true, definition: Some(location) })
            },
            None => Ok(DefinitionResult { found: false, definition: None }),
        }
    }

    /// Finds all references to the symbol at a position.
    pub fn find_references(&self, project_id: i64, file: &str, line: u32, column: u32) -> (r:
        Result<ReferencesResult, QueryError>)
        ensures
            r matches Ok(result) && result@ == references_at(
                self@,
                project_id,
                file@,
                line,
                column,
            ) && result.consistent(),
    {
        let node = match self.db.find_node_at_position(project_id, file, line, column) {
            Ok(found) => found,
            Err(e) => {
                return Err(QueryError::Store(e));
            },
        };
        match node {
            Some(n) => {
                let refs = match self.db.find_all_references(n.id) {
                    Ok(found) => found,
                    Err(e) => {
                        return Err(QueryError::Store(e));
                    },
                };
                let references = locate_all(&self.db, &refs);
                Ok(ReferencesResult { count: references.len(), references })
            },
            None => {
                let references: Vec<SymbolLocation> = Vec::new();
                assert(references.deep_view() =~= Seq::empty());
                Ok(ReferencesResult { count: 0, references })
            },
        }
    }

    /// The nodes that call the node, one hop; none at depth zero.
    fn collect_callers(&self, node_id: i64, depth: u32) -> (r: Result<Vec<SymbolInfo>, QueryError>)
        ensures
            r matches Ok(found) && found.deep_view() == if depth > 0 {
                self@.sources_into(node_id, kind_calls()).map_values(info_of(self@))
            } else {
                Seq::empty()
            },
    {
        if depth == 0 {
            let none: Vec<SymbolInfo> = Vec::new();
            assert(none.deep_view() =~= Seq::empty());
            return Ok(none);
        }
        let callers = match self.db.find_callers(node_id) {
            Ok(found) => found,
            Err(e) => {
                return Err(QueryError::Store(e));
            },
        };
        Ok(describe_all(&self.db, &callers))
    }

    /// The nodes that the node calls, one hop; none at depth zero.
    fn collect_callees(&self, node_id: i64, depth: u32) -> (r: Result<Vec<SymbolInfo>, QueryError>)
        ensures
            r matches Ok(found) && found.deep_view() == if depth > 0 {
                self@.targets_from(node_id, kind_calls()).map_values(info_of(self@))
            } else {
                Seq::empty()
            },
    {
        if depth == 0 {
            let none: Vec<SymbolInfo> = Vec::new();
            assert(none.deep_view() =~= Seq::empty());
            return Ok(none);
        }
        let callees = match self.db.find_callees(node_id) {
            Ok(found) => found,
            Err(e) => {
                return Err(QueryError::Store(e));
            },
        };
        Ok(describe_all(&self.db, &callees))
    }

    /// The call graph around a symbol. `direction` is `callers`, `callees`
    /// or `both`; any other word asks for neither. A depth above one asks
    /// for no more than depth one does.
    pub fn get_callgraph(&self, project_id: i64, symbol: &str, depth: u32, direction: &str) -> (r:
        Result<CallGraphResult, QueryError>)
        ensures
            match r {
                Ok(graph) => callgraph_of(self@, project_id, symbol@, depth, direction@) == Some(
                    graph@,
                ),
                Err(QueryError::SymbolNotFound(name)) => name@ == symbol@ && callgraph_of(
                    self@,
                    project_id,
                    symbol@,
                    depth,
                    direction@,
                ) is None,
                Err(QueryError::Store(_)) => false,
            },
    {
        let center = match self.db.find_symbol_by_name(project_id, symbol) {
            Ok(found) => found,
            Err(e) => {
                return Err(QueryError::Store(e));
            },
        };
        match center {
            Some(n) => {
                let callers = if same_text(direction, "callers") || same_text(direction, "both") {
                    match self.collect_callers(n.id, depth) {
                        Ok(found) => found,
                        Err(e) => {
                            return Err(e);
                        },
                    }
                } else {
                    let none: Vec<SymbolInfo> = Vec::new();
                    assert(none.deep_view() =~= Seq::empty());
                    none
                };
                let callees = if same_text(direction, "callees") || same_text(direction, "both") {
                    match self.collect_callees(n.id, depth) {
                        Ok(found) => found,
                        Err(e) => {
                            return Err(e);
                        },
                    }
                } else {
                    let none: Vec<SymbolInfo> = Vec::new();
                    assert(none.deep_view() =~= Seq::empty());
                    none
                };
                Ok(CallGraphResult { center: describe(&self.db, &n), callers, callees })
            },
            None => Err(QueryError::SymbolNotFound(symbol.to_owned())),
        }
    }

    /// Searches for symbols whose name or qualified name contains `query`.
    pub fn search_symbols(
        &self,
        project_id: i64,
        query: &str,
        symbol_type: Option<&str>,
        limit: u32,
    ) -> (r: Result<SymbolSearchResult, QueryError>)
        ensures
            r matches Ok(result) && result@ == symbols_matching(
                self@,
                project_id,
                query@,
                symbol_type.deep_view(),
                limit,
            ) && result.consistent(),
    {
        let nodes = match self.db.search_symbols(project_id, query, symbol_type, limit) {
            Ok(found) => found,
            Err(e) => {
                return Err(QueryError::Store(e));
            },
        };
        let symbols = describe_all(&self.db, &nodes);
        Ok(SymbolSearchResult { count: symbols.len(), symbols })
    }
}

/// Finds the definition at a position in the project with identifier 1.
pub fn find_definition(db: Database, file: &str, line: u32, column: u32) -> (r: Result<
    DefinitionResult,
    QueryError,
>)
    ensures
        r matches Ok(result) && result@ == definition_at(db@, 1, file@, line, column)
            && result.consistent(),
{
    find_definition_with_project(db, 1, file, line, column)
}

/// Finds the references at a position in the project with identifier 1.
pub fn find_references(db: Database, file: &str, line: u32, column: u32) -> (r: Result<
    ReferencesResult,
    QueryError,
>)
    ensures
        r matches Ok(result) && result@ == references_at(db@, 1, file@, line, column)
            && result.consistent(),
{
    find_references_with_project(db, 1, file, line, column)
}

/// The call graph around a symbol of the project with identifier 1.
pub fn get_callgraph(db: Database, symbol: &str, depth: u32, direction: &str) -> (r: Result<
    CallGraphResult,
    QueryError,
>)
    ensures
        match r {
            Ok(graph) => callgraph_of(db@, 1, symbol@, depth, direction@) == Some(graph@),
            Err(QueryError::SymbolNotFound(name)) => name@ == symbol@ && callgraph_of(
                db@,
                1,
                symbol@,
                depth,
                direction@,
            ) is None,
            Err(QueryError::Store(_)) => false,
        },
{
    get_callgraph_with_project(db, 1, symbol, depth, direction)
}

/// Searches the symbols of the project with identifier 1.
pub fn search_symbols(db: Database, query: &str, symbol_type: Option<&str>, limit: u32) -> (r:
    Result<SymbolSearchResult, QueryError>)
    ensures
        r matches Ok(result) && result@ == symbols_matching(
            db@,
            1,
            query@,
            symbol_type.deep_view(),
            limit,
        ) && result.consistent(),
{
    search_symbols_with_project(db, 1, query, symbol_type, limit)
}

/// Finds the definition at a position in a project.
pub fn find_definition_with_project(
    db: Database,
    project_id: i64,
    file: &str,
    line: u32,
    column: u32,
) -> (r: Result<DefinitionResult, QueryError>)
    ensures
        r matches Ok(result) && result@ == definition_at(db@, project_id, file@, line, column)
            && result.consistent(),
{
    let executor = QueryExecutor::new(db);
    executor.find_definition(project_id, file, line, column)
}

/// Finds the references at a position in a project.
pub fn find_references_with_project(
    db: Database,
    project_id: i64,
    file: &str,
    line: u32,
    column: u32,
) -> (r: Result<ReferencesResult, QueryError>)
    ensures
        r matches Ok(result) && result@ == references_at(db@, project_id, file@, line, column)
            && result.consistent(),
{
    let executor = QueryExecutor::new(db);
    executor.find_references(project_id, file, line, column)
}

/// The call graph around a symbol of a project.
pub fn get_callgraph_with_project(
    db: Database,
    project_id: i64,
    symbol: &str,
    depth: u32,
    direction: &str,
) -> (r: Result<CallGraphResult, QueryError>)
    ensures
        match r {
            Ok(graph) => callgraph_of(db@, project_id, symbol@, depth, direction@) == Some(graph@),
            Err(QueryError::SymbolNotFound(name)) => name@ == symbol@ && callgraph_of(
                db@,
                project_id,
                symbol@,
                depth,
                direction@,
            ) is None,
            Err(QueryError::Store(_)) => false,
        },
{
    let executor = QueryExecutor::new(db);
    executor.get_callgraph(project_id, symbol, depth, direction)
}

/// Searches the symbols of a project.
pub fn search_symbols_with_project(
    db: Database,
    project_id: i64,
    query: &str,
    symbol_type: Option<&str>,
    limit: u32,
) -> (r: Result<SymbolSearchResult, QueryError>)
    ensures
        r matches Ok(result) && result@ == symbols_matching(
            db@,
            project_id,
            query@,
            symbol_type.deep_view(),
            limit,
        ) && result.consistent(),
{
    let executor = QueryExecutor::new(db);
    executor.search_symbols(project_id, query, symbol_type, limit)
}

/// The node can define the symbol: it is of a definition kind, and its name
/// is the symbol, or its qualified name is the symbol or ends with a dot
/// and the symbol.
pub open spec fn defines_symbol(symbol: Seq<char>) -> spec_fn(NodeView) -> bool {
    |n: NodeView|
        is_definition_kind(n.node_type) && (n.name == symbol || (n.qualified_name matches Some(q)
            && (q == symbol || ends_with_seq(q, "."@ + symbol))))
}

/// The node belongs to the project and can define the symbol.
pub open spec fn defines_in(s: StoreView, project_id: i64, symbol: Seq<char>) -> spec_fn(
    NodeView,
) -> bool {
    |n: NodeView| s.node_in_project(n, project_id) && defines_symbol(symbol)(n)
}

/// The definition of a symbol: where the first node of the project that can
/// define it starts.
pub open spec fn definition_of(s: StoreView, project_id: i64, symbol: Seq<char>) -> Option<
    LocationView,
> {
    match find_first(s.nodes, defines_in(s, project_id, symbol)) {
        Some(n) => Some(location_of(s)(n)),
        None => None,
    }
}

/// Whether the node can define the symbol.
fn node_defines(n: &NodeRecord, symbol: &str) -> (b: bool)
    ensures
        b == defines_symbol(symbol@)(n@),
{
    if !definition_kind(n.node_type.as_str()) {
        return false;
    }
    if same_text(n.name.as_str(), symbol) {
        return true;
    }
    match &n.qualified_name {
        Some(q) => {
            if same_text(q.as_str(), symbol) {
                true
            } else {
                let suffix = join(".", symbol);
                text_ends_with(q.as_str(), suffix.as_str())
            }
        },
        None => false,
    }
}

/// Whether the node belongs to a file of the project.
fn node_belongs(db: &Database, n: &NodeRecord, project_id: i64) -> (b: bool)
    ensures
        b == db@.node_in_project(n@, project_id),
{
    match db.get_file(n.file_id) {
        Ok(Some(f)) => f.project_id == project_id,
        _ => false,
    }
}

/// Finds the definition of a symbol by name: the first node of the project,
/// among all of them, that can define it.
pub fn find_definition_by_symbol(db: Database, project_id: i64, symbol: &str) -> (r: Result<
    DefinitionResult,
    QueryError,
>)
    ensures
        r matches Ok(result) && result@ == definition_of(db@, project_id, symbol@)
            && result.consistent(),
{
    let nodes = db.node_rows();
    let ghost s = db@.nodes;
    let ghost p = defines_in(db@, project_id, symbol@);
    let mut i: usize = 0;
    while i < nodes.len()
        invariant
            i <= nodes.len(),
            nodes.deep_view() == s,
            s == db@.nodes,
            p == defines_in(db@, project_id, symbol@),
            forall|j: int| 0 <= j < i ==> !p(#[trigger] s[j]),
        decreases nodes.len() - i,
    {
        if node_defines(&nodes[i], symbol) && node_belongs(&db, &nodes[i], project_id) {
            proof {
                lemma_first_found(s, p, i as int);
            }
            return Ok(
                DefinitionResult { found: true, definition: Some(locate(&db, &nodes[i])) },
            );
        }
        i = i + 1;
    }
    proof {
        lemma_first_absent(s, p);
    }
    Ok(DefinitionResult { found: false, definition: None })
}

/// The node kind of a call site.
pub open spec fn kind_call() -> Seq<char> {
    "call"@
}

/// At most the first `limit` elements of `s`.
pub open spec fn cut<T>(s: Seq<T>, limit: u32) -> Seq<T> {
    if s.len() <= limit {
        s
    } else {
        s.take(limit as int)
    }
}

/// The uses of a symbol: the nodes with a `calls` edge to the first node
/// named so, then the call sites whose name contains the symbol, at most
/// `limit` in all; the call sites alone where no node is named so.
pub open spec fn uses_of(s: StoreView, project_id: i64, symbol: Seq<char>, limit: u32) -> Seq<
    LocationView,
> {
    let sites = s.search(project_id, symbol, Some(kind_call()), limit).map_values(location_of(s));
    match s.symbol_by_name(project_id, symbol) {
        Some(n) => cut(s.sources_into(n.id, kind_calls()).map_values(location_of(s)) + sites, limit),
        None => sites,
    }
}

/// Appends the elements of `more` to `out` until `out` holds `limit` elements.
fn append_up_to(out: &mut Vec<SymbolLocation>, more: &Vec<SymbolLocation>, limit: u32)
    requires
        old(out).len() <= limit,
    ensures
        final(out).deep_view() == cut(old(out).deep_view() + more.deep_view(), limit),
{
    let ghost start = out.deep_view();
    let ghost all = start + more.deep_view();
    let mut i: usize = 0;
    while i < more.len() && out.len() < limit as usize
        invariant
            i <= more.len(),
            start.len() <= limit,
            all == start + more.deep_view(),
            out.len() == start.len() + i,
            out.len() <= limit,
            out.deep_view() == all.take(start.len() + i),
        decreases more.len() - i,
    {
        let ghost prior = out.deep_view();
        out.push(more[i].clone());
        assert(out.deep_view() =~= prior.push(more.deep_view()[i as int]));
        assert(all.take(start.len() + i + 1) =~= all.take(start.len() + i).push(
            more.deep_view()[i as int],
        ));
        i = i + 1;
    }
    proof {
        if i == more.len() {
            assert(all.take(start.len() + i) =~= all);
        }
    }
}

/// Finds the uses of a symbol by name.
pub fn find_references_by_symbol(db: Database, project_id: i64, symbol: &str, limit: u32) -> (r:
    Result<ReferencesResult, QueryError>)
    ensures
        r matches Ok(result) && result@ == uses_of(db@, project_id, symbol@, limit)
            && result.consistent(),
{
    let target = match db.find_symbol_by_name(project_id, symbol) {
        Ok(found) => found,
        Err(e) => {
            return Err(QueryError::Store(e));
        },
    };
    let call_nodes = match db.search_symbols(project_id, symbol, Some("call"), limit) {
        Ok(found) => found,
        Err(e) => {
            return Err(QueryError::Store(e));
        },
    };
    let sites = locate_all(&db, &call_nodes);
    match target {
        Some(node) => {
            let callers = match db.find_callers(node.id) {
                Ok(found) => found,
                Err(e) => {
                    return Err(QueryError::Store(e));
                },
            };
            let located = locate_all(&db, &callers);
            let mut references: Vec<SymbolLocation> = Vec::new();
            assert(references.deep_view() =~= Seq::empty());
            append_up_to(&mut references, &located, limit);
            proof {
                assert(Seq::<LocationView>::empty() + located.deep_view() =~= located.deep_view());
                lemma_cut_then_cut(located.deep_view(), sites.deep_view(), limit);
            }
            append_up_to(&mut references, &sites, limit);
            Ok(ReferencesResult { count: references.len(), references })
        },
        None => Ok(ReferencesResult { count: sites.len(), references: sites }),
    }
}

/// Cutting before and after appending is cutting after appending.
pub proof fn lemma_cut_then_cut<T>(a: Seq<T>, b: Seq<T>, limit: u32)
    ensures
        cut(a, limit).len() <= limit,
        cut(cut(a, limit) + b, limit) == cut(a + b, limit),
{
    if a.len() <= limit {
    } else {
        assert((a.take(limit as int) + b).take(limit as int) =~= (a + b).take(limit as int));
    }
}

} // verus!
