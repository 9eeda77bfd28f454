//! Record types of the graph store and the fragment types that extraction
//! produces.

use vstd::prelude::*;

verus! {

/// Copies an optional string.
pub fn copy_text(t: &Option<String>) -> (r: Option<String>)
    ensures
        r.deep_view() == t.deep_view(),
{
    match t {
        Some(s) => Some(s.clone()),
        None => None,
    }
}

/// Project record in the store. Times are microseconds since the Unix epoch.
#[derive(Debug)]
pub struct ProjectRecord {
    pub id: i64,
    pub name: String,
    pub root_path: String,
    pub created_at: i64,
    pub updated_at: i64,
}

/// Mathematical value of a [`ProjectRecord`].
pub struct ProjectView {
    pub id: i64,
    pub name: Seq<char>,
    pub root_path: Seq<char>,
    pub created_at: i64,
    pub updated_at: i64,
}

impl View for ProjectRecord {
    type V = ProjectView;

    open spec fn view(&self) -> ProjectView {
        ProjectView {
            id: self.id,
            name: self.name@,
            root_path: self.root_path@,
            created_at: self.created_at,
            updated_at: self.updated_at,
        }
    }
}

impl DeepView for ProjectRecord {
    type V = ProjectView;

    open spec fn deep_view(&self) -> ProjectView {
        self@
    }
}

impl Clone for ProjectRecord {
    fn clone(&self) -> (r: Self)
        ensures
            r@ == self@,
    {
        ProjectRecord {
            id: self.id,
            name: self.name.clone(),
            root_path: self.root_path.clone(),
            created_at: self.created_at,
            updated_at: self.updated_at,
        }
    }
}

/// File record in the store.
#[derive(Debug)]
pub struct FileRecord {
    pub id: i64,
    pub project_id: i64,
    pub path: String,
    pub language: String,
    pub content_hash: String,
    pub parsed_at: i64,
}

/// Mathematical value of a [`FileRecord`].
pub struct FileView {
    pub id: i64,
    pub project_id: i64,
    pub path: Seq<char>,
    pub language: Seq<char>,
    pub content_hash: Seq<char>,
    pub parsed_at: i64,
}

impl View for FileRecord {
    type V = FileView;

    open spec fn view(&self) -> FileView {
        FileView {
            id: self.id,
            project_id: self.project_id,
            path: self.path@,
            language: self.language@,
            content_hash: self.content_hash@,
            parsed_at: self.parsed_at,
        }
    }
}

impl DeepView for FileRecord {
    type V = FileView;

    open spec fn deep_view(&self) -> FileView {
        self@
    }
}

impl Clone for FileRecord {
    fn clone(&self) -> (r: Self)
        ensures
            r@ == self@,
    {
        FileRecord {
            id: self.id,
            project_id: self.project_id,
            path: self.path.clone(),
            language: self.language.clone(),
            content_hash: self.content_hash.clone(),
            parsed_at: self.parsed_at,
        }
    }
}

/// Node data extracted from a source file, before it is stored.
#[derive(Debug)]
pub struct NodeData {
    pub node_type: String,
    pub name: String,
    pub qualified_name: Option<String>,
    pub start_line: u32,
    pub start_column: u32,
    pub end_line: u32,
    pub end_column: u32,
    pub attributes: Option<String>,
}

/// Mathematical value of a [`NodeData`].
pub struct NodeDataView {
    pub node_type: Seq<char>,
    pub name: Seq<char>,
    pub qualified_name: Option<Seq<char>>,
    pub start_line: u32,
    pub start_column: u32,
    pub end_line: u32,
    pub end_column: u32,
    pub attributes: Option<Seq<char>>,
}

impl View for NodeData {
    type V = NodeDataView;

    open spec fn view(&self) -> NodeDataView {
        NodeDataView {
            node_type: self.node_type@,
            name: self.name@,
            qualified_name: self.qualified_name.deep_view(),
            start_line: self.start_line,
            start_column: self.start_column,
            end_line: self.end_line,
            end_column: self.end_column,
            attributes: self.attributes.deep_view(),
        }
    }
}

impl DeepView for NodeData {
    type V = NodeDataView;

    open spec fn deep_view(&self) -> NodeDataView {
        self@
    }
}

impl Clone for NodeData {
    fn clone(&self) -> (r: Self)
        ensures
            r@ == self@,
    {
        NodeData {
            node_type: self.node_type.clone(),
            name: self.name.clone(),
            qualified_name: copy_text(&self.qualified_name),
            start_line: self.start_line,
            start_column: self.start_column,
            end_line: self.end_line,
            end_column: self.end_column,
            attributes: copy_text(&self.attributes),
        }
    }
}

/// Node record in the store: a symbol or syntactic unit of one file.
#[derive(Debug)]
pub struct NodeRecord {
    pub id: i64,
    pub file_id: i64,
    pub node_type: String,
    pub name: String,
    pub qualified_name: Option<String>,
    pub start_line: u32,
    pub start_column: u32,
    pub end_line: u32,
    pub end_column: u32,
    pub attributes: Option<String>,
}

/// Mathematical value of a [`NodeRecord`].
pub struct NodeView {
    pub id: i64,
    pub file_id: i64,
    pub node_type: Seq<char>,
    pub name: Seq<char>,
    pub qualified_name: Option<Seq<char>>,
    pub start_line: u32,
    pub start_column: u32,
    pub end_line: u32,
    pub end_column: u32,
    pub attributes: Option<Seq<char>>,
}

impl NodeView {
    /// The stored form of extracted node data under the given identifiers.
    pub open spec fn of_data(id: i64, file_id: i64, data: NodeDataView) -> NodeView {
        NodeView {
            id,
            file_id,
            node_type: data.node_type,
            name: data.name,
            qualified_name: data.qualified_name,
            start_line: data.start_line,
            start_column: data.start_column,
            end_line: data.end_line,
            end_column: data.end_column,
            attributes: data.attributes,
        }
    }

    /// The same node under another identifier.
    pub open spec fn with_id(self, id: i64) -> NodeView {
        NodeView { id, ..self }
    }
}

impl View for NodeRecord {
    type V = NodeView;

    open spec fn view(&self) -> NodeView {
        NodeView {
            id: self.id,
            file_id: self.file_id,
            node_type: self.node_type@,
            name: self.name@,
            qualified_name: self.qualified_name.deep_view(),
            start_line: self.start_line,
            start_column: self.start_column,
            end_line: self.end_line,
            end_column: self.end_column,
            attributes: self.attributes.deep_view(),
        }
    }
}

impl DeepView for NodeRecord {
    type V = NodeView;

    open spec fn deep_view(&self) -> NodeView {
        self@
    }
}

impl Clone for NodeRecord {
    fn clone(&self) -> (r: Self)
        ensures
            r@ == self@,
    {
        NodeRecord {
            id: self.id,
            file_id: self.file_id,
            node_type: self.node_type.clone(),
            name: self.name.clone(),
            qualified_name: copy_text(&self.qualified_name),
            start_line: self.start_line,
            start_column: self.start_column,
            end_line: self.end_line,
            end_column: self.end_column,
            attributes: copy_text(&self.attributes),
        }
    }
}

/// Edge data extracted from a source file; the endpoints are positions in
/// the fragment's node list.
#[derive(Debug)]
pub struct EdgeData {
    pub source_idx: u32,
    pub target_idx: u32,
    pub edge_type: String,
    pub attributes: Option<String>,
}

/// Mathematical value of an [`EdgeData`].
pub struct EdgeDataView {
    pub source_idx: u32,
    pub target_idx: u32,
    pub edge_type: Seq<char>,
    pub attributes: Option<Seq<char>>,
}

impl View for EdgeData {
    type V = EdgeDataView;

    open spec fn view(&self) -> EdgeDataView {
        EdgeDataView {
            source_idx: self.source_idx,
            target_idx: self.target_idx,
            edge_type: self.edge_type@,
            attributes: self.attributes.deep_view(),
        }
    }
}

impl DeepView for EdgeData {
    type V = EdgeDataView;

    open spec fn deep_view(&self) -> EdgeDataView {
        self@
    }
}

impl Clone for EdgeData {
    fn clone(&self) -> (r: Self)
        ensures
            r@ == self@,
    {
        EdgeData {
            source_idx: self.source_idx,
            target_idx: self.target_idx,
            edge_type: self.edge_type.clone(),
            attributes: copy_text(&self.attributes),
        }
    }
}

/// Edge record in the store: a typed directed relationship between two nodes.
#[derive(Debug)]
pub struct EdgeRecord {
    pub id: i64,
    pub source_id: i64,
    pub target_id: i64,
    pub edge_type: String,
    pub attributes: Option<String>,
}

/// Mathematical value of an [`EdgeRecord`].
pub struct EdgeView {
    pub id: i64,
    pub source_id: i64,
    pub target_id: i64,
    pub edge_type: Seq<char>,
    pub attributes: Option<Seq<char>>,
}

impl EdgeView {
    /// The same edge under another identifier.
    pub open spec fn with_id(self, id: i64) -> EdgeView {
        EdgeView { id, ..self }
    }
}

impl View for EdgeRecord {
    type V = EdgeView;

    open spec fn view(&self) -> EdgeView {
        EdgeView {
            id: self.id,
            source_id: self.source_id,
            target_id: self.target_id,
            edge_type: self.edge_type@,
            attributes: self.attributes.deep_view(),
        }
    }
}

impl DeepView for EdgeRecord {
    type V = EdgeView;

    open spec fn deep_view(&self) -> EdgeView {
        self@
    }
}

impl Clone for EdgeRecord {
    fn clone(&self) -> (r: Self)
        ensures
            r@ == self@,
    {
        EdgeRecord {
            id: self.id,
            source_id: self.source_id,
            target_id: self.target_id,
            edge_type: self.edge_type.clone(),
            attributes: copy_text(&self.attributes),
        }
    }
}

/// Project status information.
#[derive(Debug)]
pub struct ProjectStatus {
    pub project_id: i64,
    pub name: String,
    pub root_path: String,
    pub status: String,
    pub files_parsed: u32,
    pub nodes_count: u32,
    pub edges_count: u32,
    pub last_updated: i64,
}

/// Mathematical value of a [`ProjectStatus`].
pub struct ProjectStatusView {
    pub project_id: i64,
    pub name: Seq<char>,
    pub root_path: Seq<char>,
    pub status: Seq<char>,
    pub files_parsed: u32,
    pub nodes_count: u32,
    pub edges_count: u32,
    pub last_updated: i64,
}

impl View for ProjectStatus {
    type V = ProjectStatusView;

    open spec fn view(&self) -> ProjectStatusView {
        ProjectStatusView {
            project_id: self.project_id,
            name: self.name@,
            root_path: self.root_path@,
            status: self.status@,
            files_parsed: self.files_parsed,
            nodes_count: self.nodes_count,
            edges_count: self.edges_count,
            last_updated: self.last_updated,
        }
    }
}

impl Clone for ProjectStatus {
    fn clone(&self) -> (r: Self)
        ensures
            r@ == self@,
    {
        ProjectStatus {
            project_id: self.project_id,
            name: self.name.clone(),
            root_path: self.root_path.clone(),
            status: self.status.clone(),
            files_parsed: self.files_parsed,
            nodes_count: self.nodes_count,
            edges_count: self.edges_count,
            last_updated: self.last_updated,
        }
    }
}

} // verus!
