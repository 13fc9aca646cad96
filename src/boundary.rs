//! The rules of the HTTP boundary: which status each outcome gets, what a
//! client is told of an error, and where the connection target comes from.

use vstd::prelude::*;
use crate::person::{is_time_ordered_id, prepare_person, person_from, NewPerson, Person, ValidationError};
use crate::table::{can_insert, id_taken, nick_taken, PeopleTable, RepositoryError};

verus! {

/// The query of a search request: `t` is the term.
pub struct SearchParams {
    pub t: String,
}

/// The four operations that the boundary exposes.
#[derive(Clone, Copy, Debug, PartialEq, Eq, Structural)]
pub enum Operation {
    CreatePerson,
    GetById,
    SearchByTerm,
    CountAll,
}

/// Every failure that a request can end in, by kind.
#[derive(Clone, Copy, Debug, PartialEq, Eq, Structural)]
pub enum ServiceError {
    /// The create input broke a field rule; the store was not reached.
    Validation(ValidationError),
    /// The nick is already stored.
    Conflict,
    /// No record has the identifier.
    NotFound,
    /// The store, or a connection to it, could not be had.
    StoreUnavailable,
    /// No connection to the store could be leased.
    ConnectionUnavailable,
}

impl ServiceError {
    /// The service-level kind of a repository failure; the kind is kept.
    pub fn from_repository(e: RepositoryError) -> (r: ServiceError)
        ensures
            r == match e {
                RepositoryError::NotFound => ServiceError::NotFound,
                RepositoryError::Conflict => ServiceError::Conflict,
                RepositoryError::StoreUnavailable => ServiceError::StoreUnavailable,
            },
    {
        match e {
            RepositoryError::NotFound => ServiceError::NotFound,
            RepositoryError::Conflict => ServiceError::Conflict,
            RepositoryError::StoreUnavailable => ServiceError::StoreUnavailable,
        }
    }
}

/// The status of a successful operation.
pub open spec fn success_status_of(op: Operation) -> u16 {
    match op {
        Operation::CreatePerson => 201,
        _ => 200,
    }
}

/// The status of a failure: 422 for a refused input or a taken nick, 404 for
/// an unknown identifier, 500 when the store or a connection to it cannot be
/// had.
pub open spec fn error_status_of(e: ServiceError) -> u16 {
    match e {
        ServiceError::Validation(_) => 422,
        ServiceError::Conflict => 422,
        ServiceError::NotFound => 404,
        ServiceError::StoreUnavailable => 500,
        ServiceError::ConnectionUnavailable => 500,
    }
}

/// The status that a successful operation answers with.
pub fn success_status(op: Operation) -> (r: u16)
    ensures
        r == success_status_of(op),
{
    match op {
        Operation::CreatePerson => 201,
        _ => 200,
    }
}

/// The status that a failure answers with.
pub fn error_status(e: ServiceError) -> (r: u16)
    ensures
        r == error_status_of(e),
{
    match e {
        ServiceError::Validation(_) => 422,
        ServiceError::Conflict => 422,
        ServiceError::NotFound => 404,
        ServiceError::StoreUnavailable => 500,
        ServiceError::ConnectionUnavailable => 500,
    }
}

/// The generic message that a client is shown for a failure; no store text
/// ever reaches it.
pub open spec fn error_message_of(e: ServiceError) -> Seq<char> {
    match e {
        ServiceError::Validation(_) => "Validation failed"@,
        ServiceError::Conflict => "Unprocessable Entity"@,
        ServiceError::NotFound => "Not Found"@,
        ServiceError::StoreUnavailable => "Internal Server Error"@,
        ServiceError::ConnectionUnavailable => "DB connection failed"@,
    }
}

/// The message that a client is shown for a failure.
pub fn error_message(e: ServiceError) -> (r: String)
    ensures
        r@ == error_message_of(e),
{
    match e {
        ServiceError::Validation(_) => String::from_str("Validation failed"),
        ServiceError::Conflict => String::from_str("Unprocessable Entity"),
        ServiceError::NotFound => String::from_str("Not Found"),
        ServiceError::StoreUnavailable => String::from_str("Internal Server Error"),
        ServiceError::ConnectionUnavailable => String::from_str("DB connection failed"),
    }
}

/// The connection target: the first setting that is present, the dedicated
/// one before the general one. `None` means the service cannot start.
pub fn database_url(dedicated: Option<String>, general: Option<String>) -> (r: Option<String>)
    ensures
        r == match dedicated {
            Some(u) => Some(u),
            None => general,
        },
{
    match dedicated {
        Some(u) => Some(u),
        None => general,
    }
}

/// Creates a person from a client's input: the input is validated first, and
/// the table is not touched when it fails; otherwise it is given a fresh
/// identifier and stored, unless its nick is taken.
pub fn create_person(table: &mut PeopleTable, new: NewPerson) -> (r: Result<Person, ServiceError>)
    requires
        old(table).wf(),
        new.birthday.wf(),
    ensures
        final(table).wf(),
        !new.valid() ==> final(table)@ == old(table)@ && (r matches Err(ServiceError::Validation(e)) && new.rejects_with(e)),
        r matches Ok(p) ==> new.valid() && p@ == person_from(p.id, new) && is_time_ordered_id(p.id)
            && can_insert(old(table)@, p@) && final(table)@ == old(table)@.push(p@),
        r matches Err(ServiceError::Conflict) ==> new.valid() && final(table)@ == old(table)@
            && (nick_taken(old(table)@, new.nick@) || exists|id: u128|
                is_time_ordered_id(id) && #[trigger] id_taken(old(table)@, id)),
        new.valid() ==> (r is Ok || r == Err::<Person, ServiceError>(ServiceError::Conflict)),
{
    let ghost new0 = new;
    match prepare_person(new) {
        Err(e) => Err(ServiceError::Validation(e)),
        Ok(p) => {
            let ghost id = p.id;
            match table.create_people(p) {
                Ok(q) => Ok(q),
                Err(e) => {
                    assert(!can_insert(old(table)@, person_from(id, new0)));
                    assert(is_time_ordered_id(id));
                    Err(ServiceError::from_repository(e))
                },
            }
        },
    }
}

} // verus!
