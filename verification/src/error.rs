//! The errors of running a query, and what is decided on them: which
//! errors mean what, when a query is tried again, and when the cache of
//! prepared statements is dropped.

use vstd::prelude::*;

use crate::text::str_eq;

verus! {

/// What an error of the database driver says: the SQLSTATE code and the
/// reporting routine where the server sent the error, whether the
/// connection was closed, and the text of the error.
#[derive(Debug, PartialEq, Eq)]
pub struct PostgresError {
    pub code: Option<String>,
    pub routine: Option<String>,
    pub closed: bool,
    pub message: String,
}

/// What went wrong.
#[derive(Debug, PartialEq, Eq)]
pub enum ErrorKind {
    /// The environment holds no `DATABASE_URL`.
    MissingDatabaseUrlEnv,
    /// A query that must give a row gave none.
    RowNotFound,
    /// The driver failed.
    Postgres(PostgresError),
    /// The connection pool could not be built.
    Build,
    /// The pool gave no connection.
    Pool,
}

/// An error communicating with the Postgres server.
#[derive(Debug, PartialEq, Eq)]
pub struct Error {
    pub kind: ErrorKind,
}

/// The view of an optional string.
pub open spec fn text_of(s: Option<String>) -> Option<Seq<char>> {
    match s {
        Some(v) => Some(v@),
        None => None,
    }
}

/// The SQLSTATE code of an error, where the server sent one.
pub open spec fn code_of(kind: ErrorKind) -> Option<Seq<char>> {
    match kind {
        ErrorKind::Postgres(e) => text_of(e.code),
        _ => None,
    }
}

/// The message of an error.
pub open spec fn message_of(kind: ErrorKind) -> Seq<char> {
    match kind {
        ErrorKind::MissingDatabaseUrlEnv => "env DATABASE_URL not set"@,
        ErrorKind::RowNotFound => "No rows returned, but at least one expected"@,
        ErrorKind::Postgres(e) => e.message@,
        ErrorKind::Build => "failed to build postgres connection pool"@,
        ErrorKind::Pool => "failed to acquire postgres connection from pool"@,
    }
}

fn has_code(kind: &ErrorKind, code: &str) -> (r: bool)
    ensures
        r == (code_of(*kind) == Some(code@)),
{
    match kind {
        ErrorKind::Postgres(e) => match &e.code {
            Some(c) => str_eq(c.as_str(), code),
            None => false,
        },
        _ => false,
    }
}

impl Error {
    /// Whether this is a row not found error.
    pub fn is_row_not_found(&self) -> (r: bool)
        ensures
            r == (self.kind is RowNotFound),
    {
        match self.kind {
            ErrorKind::RowNotFound => true,
            _ => false,
        }
    }

    /// Whether this is a duplicate key error: the violation of a unique
    /// constraint, SQLSTATE 23505.
    pub fn is_duplicate_key(&self) -> (r: bool)
        ensures
            r == (code_of(self.kind) == Some("23505"@)),
    {
        has_code(&self.kind, "23505")
    }

    /// Whether this is a foreign key error: the violation of a foreign key
    /// constraint, SQLSTATE 23503.
    pub fn is_foreign_key(&self) -> (r: bool)
        ensures
            r == (code_of(self.kind) == Some("23503"@)),
    {
        has_code(&self.kind, "23503")
    }

    /// The message of this error.
    pub fn message(&self) -> (r: String)
        ensures
            r@ == message_of(self.kind),
    {
        match &self.kind {
            ErrorKind::MissingDatabaseUrlEnv => "env DATABASE_URL not set".to_owned(),
            ErrorKind::RowNotFound => "No rows returned, but at least one expected".to_owned(),
            ErrorKind::Postgres(e) => e.message.clone(),
            ErrorKind::Build => "failed to build postgres connection pool".to_owned(),
            ErrorKind::Pool => "failed to acquire postgres connection from pool".to_owned(),
        }
    }
}

/// The number of times that a query is tried again on a closed
/// connection.
pub const RETRIES: u32 = 5;

/// What follows an attempt to run a query.
#[derive(Debug, Clone, Copy, PartialEq, Eq, Structural)]
pub enum Step {
    /// The query gave its result, which is handed on.
    Finish,
    /// The query is run again on another connection, as the attempt of
    /// this number.
    Retry(u32),
    /// The error is handed on.
    Fail,
}

/// Whether an error says that the connection was closed.
pub open spec fn is_closed(kind: ErrorKind) -> bool {
    kind matches ErrorKind::Postgres(e) && e.closed
}

/// What follows the attempt of the given number, counted from one, with
/// the given error or with none: on a closed connection the query is
/// tried again, up to five times.
pub open spec fn step_after(attempt: u32, failure: Option<ErrorKind>) -> Step {
    match failure {
        None => Step::Finish,
        Some(kind) => if is_closed(kind) && attempt <= RETRIES {
            Step::Retry((attempt + 1) as u32)
        } else {
            Step::Fail
        },
    }
}

/// Decides what follows an attempt to run a query.
pub fn after_attempt(attempt: u32, failure: Option<&ErrorKind>) -> (r: Step)
    ensures
        r == step_after(
            attempt,
            match failure {
                Some(kind) => Some(*kind),
                None => None,
            },
        ),
{
    match failure {
        None => Step::Finish,
        Some(ErrorKind::Postgres(e)) => {
            if e.closed && attempt <= RETRIES {
                Step::Retry(attempt + 1)
            } else {
                Step::Fail
            }
        },
        Some(_) => Step::Fail,
    }
}

/// Every query fails or finishes after six attempts at most.
pub proof fn lemma_attempts_are_bounded(attempt: u32, failure: Option<ErrorKind>)
    ensures
        step_after(attempt, failure) matches Step::Retry(next) ==> next == attempt + 1 && next
            <= RETRIES + 1,
        attempt > RETRIES ==> !(step_after(attempt, failure) is Retry),
{
}

/// Whether an error says that a cached statement is out of date: the
/// server reports it from the routine `RevalidateCachedQuery`.
pub open spec fn is_stale(e: PostgresError) -> bool {
    text_of(e.routine) == Some("RevalidateCachedQuery"@)
}

/// Whether the cache of prepared statements is to be dropped and the
/// query prepared and run once more.
pub fn needs_revalidation(e: &PostgresError) -> (r: bool)
    ensures
        r == is_stale(*e),
{
    match &e.routine {
        Some(routine) => str_eq(routine.as_str(), "RevalidateCachedQuery"),
        None => false,
    }
}

} // verus!
