//! Choosing the project that a command speaks of.

use vstd::prelude::*;

use crate::storage::database::Database;
use crate::storage::error::StoreError;
use crate::storage::state::StoreView;
use crate::text::join;

verus! {

/// The character is a decimal digit.
pub open spec fn is_digit(c: char) -> bool {
    '0' <= c <= '9'
}

/// The value of a run of decimal digits.
pub open spec fn digits_value(digits: Seq<char>) -> int
    decreases digits.len(),
{
    if digits.len() == 0 {
        0
    } else {
        digits_value(digits.drop_last()) * 10 + (digits.last() as int - '0' as int)
    }
}

/// The number that a text stands for as a decimal `i64`: an optional sign,
/// `+` or `-`, then one or more decimal digits and nothing else, with a
/// value in range; none for any other text.
pub open spec fn decimal_i64(text: Seq<char>) -> Option<i64> {
    let signed = text.len() > 0 && (text[0] == '-' || text[0] == '+');
    let digits = if signed {
        text.skip(1)
    } else {
        text
    };
    let value = if signed && text[0] == '-' {
        -digits_value(digits)
    } else {
        digits_value(digits)
    };
    if digits.len() > 0 && (forall|i: int| 0 <= i < digits.len() ==> is_digit(#[trigger] digits[i]))
        && i64::MIN <= value <= i64::MAX {
        Some(value as i64)
    } else {
        None
    }
}

/// `str::parse::<i64>` of the standard library, its error dropped: the
/// number that the text stands for, or none if the text is not an optional
/// sign followed by decimal digits alone, or its value is out of range.
#[verifier::external_body]
fn parse_i64(text: &str) -> (r: Option<i64>)
    ensures
        r == decimal_i64(text@),
{
    text.parse::<i64>().ok()
}

/// Why no project could be chosen.
#[derive(Debug)]
pub enum ResolveError {
    /// No project has the given name.
    NotFound(String),
    /// The store holds no project.
    NoProjects,
    /// The store holds this many projects and none was named.
    Ambiguous(usize),
    /// The store refused an operation.
    Store(StoreError),
}

impl ResolveError {
    /// The error in words.
    pub fn message(&self) -> (text: String)
        ensures
            text@ == match self {
                ResolveError::NotFound(name) => "Project '"@ + name@ + "' not found"@,
                ResolveError::NoProjects =>
                    "No projects found. Use 'codegraph parse' to create one."@,
                ResolveError::Ambiguous(_) => "Please specify a project with --project <name|id>"@,
                ResolveError::Store(e) => "Store operation failed: "@ + e.words(),
            },
    {
        match self {
            ResolveError::NotFound(name) => {
                let head = join("Project '", name.as_str());
                join(head.as_str(), "' not found")
            },
            ResolveError::NoProjects =>
                "No projects found. Use 'codegraph parse' to create one.".to_owned(),
            ResolveError::Ambiguous(_) =>
                "Please specify a project with --project <name|id>".to_owned(),
            ResolveError::Store(e) => join("Store operation failed: ", e.message().as_str()),
        }
    }
}

/// The project that `project` means, where `number` is the number that it
/// stands for, if it is one: that number as an identifier, else the first
/// project of that name. Where none is given, the only project of the store.
pub open spec fn chosen_project(s: StoreView, project: Option<Seq<char>>, number: Option<i64>)
    -> Option<i64> {
    match project {
        Some(name) => match number {
            Some(id) => Some(id),
            None => match s.project_by_name(name) {
                Some(p) => Some(p.id),
                None => None,
            },
        },
        None => if s.projects.len() == 1 {
            Some(s.projects[0].id)
        } else {
            None
        },
    }
}

/// Chooses the project that `project` means, given the number that it
/// stands for.
pub fn resolve_with(db: &Database, project: Option<&str>, number: Option<i64>) -> (r: Result<
    i64,
    ResolveError,
>)
    ensures
        match r {
            Ok(id) => chosen_project(db@, project.deep_view(), number) == Some(id),
            Err(ResolveError::NotFound(name)) => project matches Some(p) && name@ == p@
                && number is None && db@.project_by_name(p@) is None,
            Err(ResolveError::NoProjects) => project is None && db@.projects.len() == 0,
            Err(ResolveError::Ambiguous(count)) => project is None && count == db@.projects.len()
                && count > 1,
            Err(ResolveError::Store(_)) => false,
        },
{
    match project {
        Some(p) => {
            match number {
                Some(id) => Ok(id),
                None => match db.get_project_by_name(p) {
                    Ok(Some(found)) => Ok(found.id),
                    Ok(None) => Err(ResolveError::NotFound(p.to_owned())),
                    Err(e) => Err(ResolveError::Store(e)),
                },
            }
        },
        None => {
            let rows = db.project_rows();
            if rows.len() == 0 {
                Err(ResolveError::NoProjects)
            } else if rows.len() > 1 {
                Err(ResolveError::Ambiguous(rows.len()))
            } else {
                assert(rows.deep_view()[0] == rows@[0]@);
                Ok(rows[0].id)
            }
        },
    }
}

/// Chooses the project that a command speaks of: by identifier if
/// `project` is a number, else by name; the only project if none is given.
pub fn resolve_project(db: &Database, project: Option<&str>) -> (r: Result<i64, ResolveError>)
    ensures
        match r {
            Ok(id) => chosen_project(
                db@,
                project.deep_view(),
                match project {
                    Some(p) => decimal_i64(p@),
                    None => None,
                },
            ) == Some(id),
            Err(ResolveError::NotFound(name)) => project matches Some(p) && name@ == p@
                && decimal_i64(p@) is None && db@.project_by_name(p@) is None,
            Err(ResolveError::NoProjects) => project is None && db@.projects.len() == 0,
            Err(ResolveError::Ambiguous(count)) => project is None && count == db@.projects.len()
                && count > 1,
            Err(ResolveError::Store(_)) => false,
        },
{
    let number = match project {
        Some(p) => parse_i64(p),
        None => None,
    };
    resolve_with(db, project, number)
}

} // verus!
