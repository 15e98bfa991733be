//! Branches as the database holds them, and as they are handed out.

use std::str::FromStr;
use vstd::prelude::*;

verus! {

/// What is said in place of a branch that cannot be given.
pub const BRANCH_FAILURE: &'static str = "Failed to get branch.";

/// Why a request could not be answered; the text is what the one who asked
/// is told.
#[derive(Clone, Debug, PartialEq, Eq)]
pub struct HttpError {
    pub message: String,
}

/// A branch as a row of the database.
#[derive(Clone, Debug, PartialEq, Eq)]
pub struct QueryBranch {
    pub id: i32,
    pub uuid: String,
    pub project_id: i32,
    pub name: String,
    pub slug: String,
}

/// A branch as a row that is to be written to the database. Its
/// identifier is held as the number that it is, and is written as text
/// where the row is written.
#[derive(Clone, Debug, PartialEq, Eq)]
pub struct InsertBranch {
    pub uuid: u128,
    pub project_id: i32,
    pub name: String,
    pub slug: String,
}

/// A branch as it is handed out. Its identifier and that of its project
/// are held as the numbers that they are.
#[derive(Clone, Debug, PartialEq, Eq)]
pub struct JsonBranch {
    pub uuid: u128,
    pub project: u128,
    pub name: String,
    pub slug: String,
}

/// A branch as it is asked for.
#[derive(Clone, Debug, PartialEq, Eq)]
pub struct JsonNewBranch {
    pub project: String,
    pub name: String,
    pub slug: Option<String>,
}

/// The identifier that a text writes, as a number; nothing where the text
/// writes none.
pub uninterp spec fn uuid_of(text: Seq<char>) -> Option<u128>;

/// `uuid::Uuid::from_str` reads an identifier from a text, or fails; the
/// identifier is handed on as its number, which `Uuid::as_u128` gives. What
/// is read depends on the text alone.
#[verifier::external_body]
fn parse_uuid(text: &str) -> (r: Option<u128>)
    ensures
        r == uuid_of(text@),
{
    match uuid::Uuid::from_str(text) {
        Ok(uuid) => Some(uuid.as_u128()),
        Err(_) => None,
    }
}

/// The failure to give a branch.
pub fn branch_failure() -> (error: HttpError)
    ensures
        error.message@ == BRANCH_FAILURE@,
{
    HttpError { message: BRANCH_FAILURE.to_owned() }
}

impl QueryBranch {
    /// The identifier that was read from a text, or the failure where none
    /// was read.
    pub fn read_uuid(read: Option<u128>) -> (r: Result<u128, HttpError>)
        ensures
            match (read, r) {
                (Some(uuid), Ok(given)) => given == uuid,
                (None, Err(error)) => error.message@ == BRANCH_FAILURE@,
                _ => false,
            },
    {
        match read {
            Some(uuid) => Ok(uuid),
            None => Err(branch_failure()),
        }
    }

    /// The identifier of a branch, `found` being the text that the database
    /// gave for it: the identifier that the text writes, or the failure
    /// where the database gave none or the text writes none.
    pub fn get_uuid(found: Option<&str>) -> (r: Result<u128, HttpError>)
        ensures
            match r {
                Ok(uuid) => found matches Some(text) && uuid_of(text@) == Some(uuid),
                Err(error) => error.message@ == BRANCH_FAILURE@ && (found matches Some(text)
                    ==> uuid_of(text@) is None),
            },
    {
        match found {
            Some(text) => QueryBranch::read_uuid(parse_uuid(text)),
            None => Err(branch_failure()),
        }
    }

    /// The branch as it is handed out, `read` being the identifier that was
    /// read from the text of its own and `project` that of its project: the
    /// failure where none was read.
    pub fn with_uuid(self, read: Option<u128>, project: u128) -> (r: Result<JsonBranch, HttpError>)
        ensures
            match (read, r) {
                (Some(uuid), Ok(branch)) => branch == (JsonBranch {
                    uuid,
                    project,
                    name: self.name,
                    slug: self.slug,
                }),
                (None, Err(error)) => error.message@ == BRANCH_FAILURE@,
                _ => false,
            },
    {
        match read {
            Some(uuid) => Ok(JsonBranch { uuid, project, name: self.name, slug: self.slug }),
            None => Err(branch_failure()),
        }
    }

    /// The branch as it is handed out, `project` being the identifier of
    /// its project: the failure where the text of its own identifier writes
    /// none.
    pub fn into_json(self, project: u128) -> (r: Result<JsonBranch, HttpError>)
        ensures
            match r {
                Ok(branch) => uuid_of(self.uuid@) == Some(branch.uuid) && branch.project == project
                    && branch.name == self.name && branch.slug == self.slug,
                Err(error) => uuid_of(self.uuid@) is None && error.message@ == BRANCH_FAILURE@,
            },
    {
        let read = parse_uuid(self.uuid.as_str());
        self.with_uuid(read, project)
    }
}

impl InsertBranch {
    /// The row for a branch that is asked for: under the fresh identifier
    /// `uuid` and with the slug that was settled on, in the project whose
    /// row `project` names. Where the project was not found, the failure
    /// with which it was not, and no row.
    pub fn from_json(
        branch: JsonNewBranch,
        uuid: u128,
        project: Result<i32, HttpError>,
        slug: String,
    ) -> (r: Result<InsertBranch, HttpError>)
        ensures
            match project {
                Ok(project_id) => r == Ok::<InsertBranch, HttpError>(
                    InsertBranch { uuid, project_id, name: branch.name, slug },
                ),
                Err(error) => r == Err::<InsertBranch, HttpError>(error),
            },
    {
        match project {
            Ok(project_id) => Ok(InsertBranch { uuid, project_id, name: branch.name, slug }),
            Err(error) => Err(error),
        }
    }
}

} // verus!
