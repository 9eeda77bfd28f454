//! The graph store: projects, files, nodes and edges held in memory.
//!
//! Identifiers are handed out from per-table counters and never reused, so
//! rows are kept in ascending identifier order and "first match" means
//! "lowest identifier". Every operation either succeeds or leaves the store
//! as it was, and the store is well formed at all times: to change its
//! tables an operation takes them out, changes them, and puts them back.

use vstd::prelude::*;

use crate::clock::now_micros;
use crate::seqs::{is_first, lemma_filter_step, lemma_first_absent, lemma_first_found, none_match};
use crate::storage::error::StoreError;
use crate::storage::models::{copy_text, EdgeRecord, FileRecord, NodeRecord, ProjectRecord};
use crate::storage::state::{
    file_at, file_has_id, file_not_id, lemma_touched_wf, lemma_with_edge_row_wf,
    lemma_with_file_row_wf, lemma_with_node_row_wf, lemma_with_project_row_wf,
    lemma_without_file_wf, node_has_id, node_is, node_outside_file, project_has_id,
    project_has_name, project_has_root, touch_row, StoreView,
};
use crate::text::same_text;

verus! {

/// The four tables and their counters.
struct Tables {
    projects: Vec<ProjectRecord>,
    files: Vec<FileRecord>,
    nodes: Vec<NodeRecord>,
    edges: Vec<EdgeRecord>,
    next_project_id: i64,
    next_file_id: i64,
    next_node_id: i64,
    next_edge_id: i64,
}

impl View for Tables {
    type V = StoreView;

    closed spec fn view(&self) -> StoreView {
        StoreView {
            projects: self.projects.deep_view(),
            files: self.files.deep_view(),
            nodes: self.nodes.deep_view(),
            edges: self.edges.deep_view(),
            next_project_id: self.next_project_id,
            next_file_id: self.next_file_id,
            next_node_id: self.next_node_id,
            next_edge_id: self.next_edge_id,
        }
    }
}

impl Tables {
    /// Tables without rows.
    fn empty() -> (t: Tables)
        ensures
            t@ == StoreView::empty(),
            t@.wf(),
    {
        let t = Tables {
            projects: Vec::new(),
            files: Vec::new(),
            nodes: Vec::new(),
            edges: Vec::new(),
            next_project_id: 1,
            next_file_id: 1,
            next_node_id: 1,
            next_edge_id: 1,
        };
        proof {
            assert(t.projects.deep_view() =~= Seq::empty());
            assert(t.files.deep_view() =~= Seq::empty());
            assert(t.nodes.deep_view() =~= Seq::empty());
            assert(t.edges.deep_view() =~= Seq::empty());
        }
        t
    }
}

/// The in-memory graph store. Its value is well formed at all times.
pub struct Database {
    tables: Tables,
}

impl View for Database {
    type V = StoreView;

    closed spec fn view(&self) -> StoreView {
        self.tables@
    }
}

impl Database {
    /// What holds of every store: its value is well formed.
    #[verifier::type_invariant]
    closed spec fn inv(self) -> bool {
        self.tables@.wf()
    }

    /// A store with no rows.
    pub fn new() -> (db: Database)
        ensures
            db@ == StoreView::empty(),
    {
        Database { tables: Tables::empty() }
    }

    /// Opens a store in memory: one with no rows. It cannot fail.
    pub fn open_in_memory() -> (r: Result<Database, StoreError>)
        ensures
            r matches Ok(db) && db@ == StoreView::empty(),
    {
        Ok(Database::new())
    }

    /// Every store is well formed.
    pub fn well_formed(&self)
        ensures
            self@.wf(),
    {
        proof {
            use_type_invariant(self);
        }
    }

    /// Takes the tables out, leaving empty ones, to change them and put
    /// them back.
    fn take_tables(&mut self) -> (t: Tables)
        ensures
            t@ == old(self)@,
            t@.wf(),
    {
        proof {
            use_type_invariant(&*self);
        }
        let mut t = Tables::empty();
        core::mem::swap(&mut self.tables, &mut t);
        t
    }

    /// The project table, in identifier order.
    pub fn project_rows(&self) -> (rows: &Vec<ProjectRecord>)
        ensures
            rows.deep_view() == self@.projects,
    {
        &self.tables.projects
    }

    /// The file table, in identifier order.
    pub fn file_rows(&self) -> (rows: &Vec<FileRecord>)
        ensures
            rows.deep_view() == self@.files,
    {
        &self.tables.files
    }

    /// The node table, in identifier order.
    pub fn node_rows(&self) -> (rows: &Vec<NodeRecord>)
        ensures
            rows.deep_view() == self@.nodes,
    {
        &self.tables.nodes
    }

    /// The edge table, in identifier order.
    pub fn edge_rows(&self) -> (rows: &Vec<EdgeRecord>)
        ensures
            rows.deep_view() == self@.edges,
    {
        &self.tables.edges
    }

    /// The next identifier of the file, node and edge tables.
    pub fn next_ids(&self) -> (ids: (i64, i64, i64))
        ensures
            ids.0 == self@.next_file_id,
            ids.1 == self@.next_node_id,
            ids.2 == self@.next_edge_id,
    {
        (self.tables.next_file_id, self.tables.next_node_id, self.tables.next_edge_id)
    }

    /// Position of the project with the given identifier.
    fn project_index(&self, id: i64) -> (r: Option<usize>)
        ensures
            match r {
                Some(i) => is_first(self@.projects, project_has_id(id), i as int),
                None => none_match(self@.projects, project_has_id(id)),
            },
            r is Some <==> self@.has_project(id),
    {
        let mut i: usize = 0;
        while i < self.tables.projects.len()
            invariant
                i <= self.tables.projects.len(),
                forall|j: int| 0 <= j < i ==> !project_has_id(id)(#[trigger] self@.projects[j]),
            decreases self.tables.projects.len() - i,
        {
            if self.tables.projects[i].id == id {
                assert(project_has_id(id)(self@.projects[i as int]));
                return Some(i);
            }
            i = i + 1;
        }
        None
    }

    /// Position of the project with the given root path.
    fn project_index_by_path(&self, root_path: &str) -> (r: Option<usize>)
        ensures
            match r {
                Some(i) => is_first(self@.projects, project_has_root(root_path@), i as int),
                None => none_match(self@.projects, project_has_root(root_path@)),
            },
    {
        let mut i: usize = 0;
        while i < self.tables.projects.len()
            invariant
                i <= self.tables.projects.len(),
                forall|j: int|
                    0 <= j < i ==> !project_has_root(root_path@)(#[trigger] self@.projects[j]),
            decreases self.tables.projects.len() - i,
        {
            if same_text(self.tables.projects[i].root_path.as_str(), root_path) {
                return Some(i);
            }
            i = i + 1;
        }
        None
    }

    /// Position of the file with the given identifier.
    fn file_index(&self, id: i64) -> (r: Option<usize>)
        ensures
            match r {
                Some(i) => is_first(self@.files, file_has_id(id), i as int),
                None => none_match(self@.files, file_has_id(id)),
            },
            r is Some <==> self@.has_file(id),
    {
        let mut i: usize = 0;
        while i < self.tables.files.len()
            invariant
                i <= self.tables.files.len(),
                forall|j: int| 0 <= j < i ==> !file_has_id(id)(#[trigger] self@.files[j]),
            decreases self.tables.files.len() - i,
        {
            if self.tables.files[i].id == id {
                assert(file_has_id(id)(self@.files[i as int]));
                return Some(i);
            }
            i = i + 1;
        }
        None
    }

    /// Position of the file of a project with the given path.
    fn file_index_by_path(&self, project_id: i64, path: &str) -> (r: Option<usize>)
        ensures
            match r {
                Some(i) => is_first(self@.files, file_at(project_id, path@), i as int),
                None => none_match(self@.files, file_at(project_id, path@)),
            },
    {
        let mut i: usize = 0;
        while i < self.tables.files.len()
            invariant
                i <= self.tables.files.len(),
                forall|j: int|
                    0 <= j < i ==> !file_at(project_id, path@)(#[trigger] self@.files[j]),
            decreases self.tables.files.len() - i,
        {
            if self.tables.files[i].project_id == project_id && same_text(
                self.tables.files[i].path.as_str(),
                path,
            ) {
                return Some(i);
            }
            i = i + 1;
        }
        None
    }

    /// Position of the node with the given identifier.
    fn node_index(&self, id: i64) -> (r: Option<usize>)
        ensures
            match r {
                Some(i) => is_first(self@.nodes, node_has_id(id), i as int),
                None => none_match(self@.nodes, node_has_id(id)),
            },
            r is Some <==> self@.has_node(id),
    {
        let mut i: usize = 0;
        while i < self.tables.nodes.len()
            invariant
                i <= self.tables.nodes.len(),
                forall|j: int| 0 <= j < i ==> !node_has_id(id)(#[trigger] self@.nodes[j]),
            decreases self.tables.nodes.len() - i,
        {
            if self.tables.nodes[i].id == id {
                assert(node_has_id(id)(self@.nodes[i as int]));
                return Some(i);
            }
            i = i + 1;
        }
        None
    }

    /// The project with the given identifier.
    pub fn get_project(&self, project_id: i64) -> (r: Result<Option<ProjectRecord>, StoreError>)
        ensures
            r matches Ok(found) && found.deep_view() == self@.project_by_id(project_id),
            r matches Ok(found) && (found is Some <==> self@.has_project(project_id)),
    {
        let ghost p = project_has_id(project_id);
        match self.project_index(project_id) {
            Some(i) => {
                proof {
                    lemma_first_found(self@.projects, p, i as int);
                }
                Ok(Some(self.tables.projects[i].clone()))
            },
            None => {
                proof {
                    lemma_first_absent(self@.projects, p);
                }
                Ok(None)
            },
        }
    }

    /// The project with the given root path.
    pub fn get_project_by_path(&self, root_path: &str) -> (r: Result<
        Option<ProjectRecord>,
        StoreError,
    >)
        ensures
            r matches Ok(found) && found.deep_view() == self@.project_by_path(root_path@),
    {
        let ghost p = project_has_root(root_path@);
        match self.project_index_by_path(root_path) {
            Some(i) => {
                proof {
                    lemma_first_found(self@.projects, p, i as int);
                }
                Ok(Some(self.tables.projects[i].clone()))
            },
            None => {
                proof {
                    lemma_first_absent(self@.projects, p);
                }
                Ok(None)
            },
        }
    }

    /// The first project with the given name.
    pub fn get_project_by_name(&self, name: &str) -> (r: Result<Option<ProjectRecord>, StoreError>)
        ensures
            r matches Ok(found) && found.deep_view() == self@.project_by_name(name@),
    {
        let ghost p = project_has_name(name@);
        let mut i: usize = 0;
        while i < self.tables.projects.len()
            invariant
                i <= self.tables.projects.len(),
                p == project_has_name(name@),
                forall|j: int| 0 <= j < i ==> !p(#[trigger] self@.projects[j]),
            decreases self.tables.projects.len() - i,
        {
            if same_text(self.tables.projects[i].name.as_str(), name) {
                proof {
                    lemma_first_found(self@.projects, p, i as int);
                }
                return Ok(Some(self.tables.projects[i].clone()));
            }
            i = i + 1;
        }
        proof {
            lemma_first_absent(self@.projects, p);
        }
        Ok(None)
    }

    /// The file with the given identifier.
    pub fn get_file(&self, file_id: i64) -> (r: Result<Option<FileRecord>, StoreError>)
        ensures
            r matches Ok(found) && found.deep_view() == self@.file_by_id(file_id),
    {
        let ghost p = file_has_id(file_id);
        match self.file_index(file_id) {
            Some(i) => {
                proof {
                    lemma_first_found(self@.files, p, i as int);
                }
                Ok(Some(self.tables.files[i].clone()))
            },
            None => {
                proof {
                    lemma_first_absent(self@.files, p);
                }
                Ok(None)
            },
        }
    }

    /// The file of a project with the given path.
    pub fn get_file_by_path(&self, project_id: i64, path: &str) -> (r: Result<
        Option<FileRecord>,
        StoreError,
    >)
        ensures
            r matches Ok(found) && found.deep_view() == self@.file_by_path(project_id, path@),
    {
        let ghost p = file_at(project_id, path@);
        match self.file_index_by_path(project_id, path) {
            Some(i) => {
                proof {
                    lemma_first_found(self@.files, p, i as int);
                }
                Ok(Some(self.tables.files[i].clone()))
            },
            None => {
                proof {
                    lemma_first_absent(self@.files, p);
                }
                Ok(None)
            },
        }
    }

    /// The node with the given identifier.
    pub fn get_node(&self, node_id: i64) -> (r: Result<Option<NodeRecord>, StoreError>)
        ensures
            r matches Ok(found) && found.deep_view() == self@.node_by_id(node_id),
    {
        let ghost p = node_has_id(node_id);
        match self.node_index(node_id) {
            Some(i) => {
                proof {
                    lemma_first_found(self@.nodes, p, i as int);
                }
                Ok(Some(self.tables.nodes[i].clone()))
            },
            None => {
                proof {
                    lemma_first_absent(self@.nodes, p);
                }
                Ok(None)
            },
        }
    }

    /// Appends a project row under its own identifier.
    fn put_project(&mut self, project: ProjectRecord) -> (r: Result<(), StoreError>)
        ensures
            r == old(self)@.restore_project_result(project@),
            final(self)@ == if r is Ok {
                old(self)@.with_project_row(project@)
            } else {
                old(self)@
            },
    {
        proof {
            use_type_invariant(&*self);
        }
        if project.id < self.tables.next_project_id {
            return Err(StoreError::OutOfOrder);
        }
        let found = self.project_index_by_path(project.root_path.as_str());
        proof {
            let same_root = project_has_root(project@.root_path);
            match found {
                Some(i) => lemma_first_found(self@.projects, same_root, i as int),
                None => lemma_first_absent(self@.projects, same_root),
            }
        }
        if found.is_some() {
            return Err(StoreError::DuplicateRootPath);
        }
        if project.id == i64::MAX {
            return Err(StoreError::Exhausted);
        }
        let ghost before = self@;
        let ghost row = project@;
        let mut t = self.take_tables();
        t.next_project_id = project.id + 1;
        t.projects.push(project);
        proof {
            assert(t@.projects =~= before.with_project_row(row).projects);
            lemma_with_project_row_wf(before, row);
        }
        self.tables = t;
        Ok(())
    }

    /// Appends a file row under its own identifier.
    fn put_file(&mut self, file: FileRecord) -> (r: Result<(), StoreError>)
        ensures
            r == old(self)@.restore_file_result(file@),
            final(self)@ == if r is Ok {
                old(self)@.with_file_row(file@)
            } else {
                old(self)@
            },
    {
        proof {
            use_type_invariant(&*self);
        }
        if file.id < self.tables.next_file_id {
            return Err(StoreError::OutOfOrder);
        }
        if self.project_index(file.project_id).is_none() {
            return Err(StoreError::UnknownProject);
        }
        let found = self.file_index_by_path(file.project_id, file.path.as_str());
        proof {
            let same_path = file_at(file@.project_id, file@.path);
            match found {
                Some(i) => lemma_first_found(self@.files, same_path, i as int),
                None => lemma_first_absent(self@.files, same_path),
            }
        }
        if found.is_some() {
            return Err(StoreError::DuplicateFile);
        }
        if file.id == i64::MAX {
            return Err(StoreError::Exhausted);
        }
        let ghost before = self@;
        let ghost row = file@;
        let mut t = self.take_tables();
        t.next_file_id = file.id + 1;
        t.files.push(file);
        proof {
            assert(t@.files =~= before.with_file_row(row).files);
            lemma_with_file_row_wf(before, row);
        }
        self.tables = t;
        Ok(())
    }

    /// Appends a node row under its own identifier.
    fn put_node(&mut self, node: NodeRecord) -> (r: Result<(), StoreError>)
        ensures
            r == old(self)@.restore_node_result(node@),
            final(self)@ == if r is Ok {
                old(self)@.with_node_row(node@)
            } else {
                old(self)@
            },
    {
        proof {
            use_type_invariant(&*self);
        }
        if node.id < self.tables.next_node_id {
            return Err(StoreError::OutOfOrder);
        }
        if self.file_index(node.file_id).is_none() {
            return Err(StoreError::UnknownFile);
        }
        if node.id == i64::MAX {
            return Err(StoreError::Exhausted);
        }
        let ghost before = self@;
        let ghost row = node@;
        let mut t = self.take_tables();
        t.next_node_id = node.id + 1;
        t.nodes.push(node);
        proof {
            assert(t@.nodes =~= before.with_node_row(row).nodes);
            lemma_with_node_row_wf(before, row);
        }
        self.tables = t;
        Ok(())
    }

    /// Appends an edge row under its own identifier.
    fn put_edge(&mut self, edge: EdgeRecord) -> (r: Result<(), StoreError>)
        ensures
            r == old(self)@.restore_edge_result(edge@),
            final(self)@ == if r is Ok {
                old(self)@.with_edge_row(edge@)
            } else {
                old(self)@
            },
    {
        proof {
            use_type_invariant(&*self);
        }
        if edge.id < self.tables.next_edge_id {
            return Err(StoreError::OutOfOrder);
        }
        if self.node_index(edge.source_id).is_none() || self.node_index(edge.target_id).is_none() {
            return Err(StoreError::UnknownNode);
        }
        if edge.id == i64::MAX {
            return Err(StoreError::Exhausted);
        }
        let ghost before = self@;
        let ghost row = edge@;
        let mut t = self.take_tables();
        t.next_edge_id = edge.id + 1;
        t.edges.push(edge);
        proof {
            assert(t@.edges =~= before.with_edge_row(row).edges);
            lemma_with_edge_row_wf(before, row);
        }
        self.tables = t;
        Ok(())
    }

    /// Records a project under a fresh identifier, which is returned. The
    /// identifier held by `project` is ignored.
    pub fn insert_project(&mut self, project: &ProjectRecord) -> (r: Result<i64, StoreError>)
        ensures
            r == old(self)@.insert_project_result(project@),
            final(self)@ == if r is Ok {
                old(self)@.with_project(project@)
            } else {
                old(self)@
            },
    {
        let id = self.tables.next_project_id;
        let row = ProjectRecord {
            id,
            name: project.name.clone(),
            root_path: project.root_path.clone(),
            created_at: project.created_at,
            updated_at: project.updated_at,
        };
        match self.put_project(row) {
            Ok(()) => Ok(id),
            Err(e) => Err(e),
        }
    }

    /// Records a file under a fresh identifier, which is returned. The
    /// identifier held by `file` is ignored.
    pub fn insert_file(&mut self, file: &FileRecord) -> (r: Result<i64, StoreError>)
        ensures
            r == old(self)@.insert_file_result(file@),
            final(self)@ == if r is Ok {
                old(self)@.with_file(file@)
            } else {
                old(self)@
            },
    {
        let id = self.tables.next_file_id;
        let row = FileRecord {
            id,
            project_id: file.project_id,
            path: file.path.clone(),
            language: file.language.clone(),
            content_hash: file.content_hash.clone(),
            parsed_at: file.parsed_at,
        };
        match self.put_file(row) {
            Ok(()) => Ok(id),
            Err(e) => Err(e),
        }
    }

    /// Records a node under a fresh identifier, which is returned. The
    /// identifier held by `node` is ignored.
    pub fn insert_node(&mut self, node: &NodeRecord) -> (r: Result<i64, StoreError>)
        ensures
            r == old(self)@.insert_node_result(node@),
            final(self)@ == if r is Ok {
                old(self)@.with_node(node@)
            } else {
                old(self)@
            },
    {
        let id = self.tables.next_node_id;
        let row = NodeRecord {
            id,
            file_id: node.file_id,
            node_type: node.node_type.clone(),
            name: node.name.clone(),
            qualified_name: copy_text(&node.qualified_name),
            start_line: node.start_line,
            start_column: node.start_column,
            end_line: node.end_line,
            end_column: node.end_column,
            attributes: copy_text(&node.attributes),
        };
        match self.put_node(row) {
            Ok(()) => Ok(id),
            Err(e) => Err(e),
        }
    }

    /// Records an edge under a fresh identifier, which is returned. The
    /// identifier held by `edge` is ignored.
    pub fn insert_edge(&mut self, edge: &EdgeRecord) -> (r: Result<i64, StoreError>)
        ensures
            r == old(self)@.insert_edge_result(edge@),
            final(self)@ == if r is Ok {
                old(self)@.with_edge(edge@)
            } else {
                old(self)@
            },
    {
        let id = self.tables.next_edge_id;
        let row = EdgeRecord {
            id,
            source_id: edge.source_id,
            target_id: edge.target_id,
            edge_type: edge.edge_type.clone(),
            attributes: copy_text(&edge.attributes),
        };
        match self.put_edge(row) {
            Ok(()) => Ok(id),
            Err(e) => Err(e),
        }
    }

    /// Puts back a project row that was stored before, under its own
    /// identifier. Rows are put back in identifier order.
    pub fn restore_project(&mut self, project: &ProjectRecord) -> (r: Result<(), StoreError>)
        ensures
            r == old(self)@.restore_project_result(project@),
            final(self)@ == if r is Ok {
                old(self)@.with_project_row(project@)
            } else {
                old(self)@
            },
    {
        self.put_project(project.clone())
    }

    /// Puts back a file row that was stored before, under its own
    /// identifier. Rows are put back in identifier order.
    pub fn restore_file(&mut self, file: &FileRecord) -> (r: Result<(), StoreError>)
        ensures
            r == old(self)@.restore_file_result(file@),
            final(self)@ == if r is Ok {
                old(self)@.with_file_row(file@)
            } else {
                old(self)@
            },
    {
        self.put_file(file.clone())
    }

    /// Puts back a node row that was stored before, under its own
    /// identifier. Rows are put back in identifier order.
    pub fn restore_node(&mut self, node: &NodeRecord) -> (r: Result<(), StoreError>)
        ensures
            r == old(self)@.restore_node_result(node@),
            final(self)@ == if r is Ok {
                old(self)@.with_node_row(node@)
            } else {
                old(self)@
            },
    {
        self.put_node(node.clone())
    }

    /// Puts back an edge row that was stored before, under its own
    /// identifier. Rows are put back in identifier order.
    pub fn restore_edge(&mut self, edge: &EdgeRecord) -> (r: Result<(), StoreError>)
        ensures
            r == old(self)@.restore_edge_result(edge@),
            final(self)@ == if r is Ok {
                old(self)@.with_edge_row(edge@)
            } else {
                old(self)@
            },
    {
        self.put_edge(edge.clone())
    }

    /// Sets the update time of a project; a project that does not exist is
    /// no error.
    pub fn touch_project(&mut self, project_id: i64, now: i64) -> (r: Result<(), StoreError>)
        ensures
            r is Ok,
            final(self)@ == old(self)@.touched(project_id, now),
    {
        let ghost before = self@;
        let mut t = self.take_tables();
        let ghost taken = t;
        let mut i: usize = 0;
        while i < t.projects.len()
            invariant
                i <= t.projects.len(),
                t.projects.len() == taken.projects.len(),
                t.files == taken.files,
                t.nodes == taken.nodes,
                t.edges == taken.edges,
                t.next_project_id == taken.next_project_id,
                t.next_file_id == taken.next_file_id,
                t.next_node_id == taken.next_node_id,
                t.next_edge_id == taken.next_edge_id,
                forall|j: int|
                    0 <= j < i ==> (#[trigger] t.projects@[j])@ == touch_row(project_id, now)(
                        taken.projects@[j]@,
                    ),
                forall|j: int|
                    i <= j < t.projects.len() ==> (#[trigger] t.projects@[j]) == taken.projects@[j],
            decreases t.projects.len() - i,
        {
            if t.projects[i].id == project_id {
                let mut record = t.projects[i].clone();
                record.updated_at = now;
                t.projects.set(i, record);
            }
            i = i + 1;
        }
        proof {
            assert(t@.projects =~= before.touched(project_id, now).projects);
            lemma_touched_wf(before, project_id, now);
        }
        self.tables = t;
        Ok(())
    }

    /// Sets the update time of a project to the current time; a project
    /// that does not exist is no error.
    pub fn update_project_timestamp(&mut self, project_id: i64) -> (r: Result<(), StoreError>)
        ensures
            r is Ok,
            exists|now: i64| final(self)@ == old(self)@.touched(project_id, now),
    {
        let now = now_micros();
        self.touch_project(project_id, now)
    }

    /// Whether the node with this identifier exists and belongs to the file.
    fn node_is_within(&self, id: i64, file_id: i64) -> (b: bool)
        ensures
            b == self@.node_within(id, file_id),
    {
        let mut i: usize = 0;
        while i < self.tables.nodes.len()
            invariant
                i <= self.tables.nodes.len(),
                forall|j: int| 0 <= j < i ==> !node_is(id, file_id)(#[trigger] self@.nodes[j]),
            decreases self.tables.nodes.len() - i,
        {
            if self.tables.nodes[i].id == id && self.tables.nodes[i].file_id == file_id {
                assert(node_is(id, file_id)(self@.nodes[i as int]));
                return true;
            }
            i = i + 1;
        }
        false
    }

    /// Deletes a file, its nodes, and every edge that touches one of them.
    /// A file that does not exist is no error.
    pub fn delete_file_data(&mut self, file_id: i64) -> (r: Result<(), StoreError>)
        ensures
            r is Ok,
            final(self)@ == old(self)@.without_file(file_id),
    {
        let ghost before = self@;
        let ghost keep_edge = before.edge_clear_of(file_id);
        let mut edges: Vec<EdgeRecord> = Vec::new();
        let mut i: usize = 0;
        while i < self.tables.edges.len()
            invariant
                i <= self.tables.edges.len(),
                self@ == before,
                keep_edge == before.edge_clear_of(file_id),
                edges.deep_view() == before.edges.take(i as int).filter(keep_edge),
            decreases self.tables.edges.len() - i,
        {
            let touches = self.node_is_within(self.tables.edges[i].source_id, file_id)
                || self.node_is_within(self.tables.edges[i].target_id, file_id);
            proof {
                lemma_filter_step(before.edges, keep_edge, i as int);
            }
            if !touches {
                let ghost prior = edges.deep_view();
                edges.push(self.tables.edges[i].clone());
                assert(edges.deep_view() =~= prior.push(before.edges[i as int]));
            }
            i = i + 1;
        }
        assert(before.edges.take(i as int) =~= before.edges);
        let ghost keep_node = node_outside_file(file_id);
        let mut nodes: Vec<NodeRecord> = Vec::new();
        let mut i: usize = 0;
        while i < self.tables.nodes.len()
            invariant
                i <= self.tables.nodes.len(),
                self@ == before,
                keep_node == node_outside_file(file_id),
                nodes.deep_view() == before.nodes.take(i as int).filter(keep_node),
            decreases self.tables.nodes.len() - i,
        {
            proof {
                lemma_filter_step(before.nodes, keep_node, i as int);
            }
            if self.tables.nodes[i].file_id != file_id {
                let ghost prior = nodes.deep_view();
                nodes.push(self.tables.nodes[i].clone());
                assert(nodes.deep_view() =~= prior.push(before.nodes[i as int]));
            }
            i = i + 1;
        }
        assert(before.nodes.take(i as int) =~= before.nodes);
        let ghost keep_file = file_not_id(file_id);
        let mut files: Vec<FileRecord> = Vec::new();
        let mut i: usize = 0;
        while i < self.tables.files.len()
            invariant
                i <= self.tables.files.len(),
                self@ == before,
                keep_file == file_not_id(file_id),
                files.deep_view() == before.files.take(i as int).filter(keep_file),
            decreases self.tables.files.len() - i,
        {
            proof {
                lemma_filter_step(before.files, keep_file, i as int);
            }
            if self.tables.files[i].id != file_id {
                let ghost prior = files.deep_view();
                files.push(self.tables.files[i].clone());
                assert(files.deep_view() =~= prior.push(before.files[i as int]));
            }
            i = i + 1;
        }
        assert(before.files.take(i as int) =~= before.files);
        let t = self.take_tables();
        proof {
            lemma_without_file_wf(before, file_id);
        }
        self.tables = Tables {
            projects: t.projects,
            files,
            nodes,
            edges,
            next_project_id: t.next_project_id,
            next_file_id: t.next_file_id,
            next_node_id: t.next_node_id,
            next_edge_id: t.next_edge_id,
        };
        Ok(())
    }
}

} // verus!
