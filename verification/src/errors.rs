//! Errors of the user contracts, with their machine codes and messages.
use vstd::prelude::*;

verus! {

/// What can go wrong with a user record.
#[derive(Debug)]
pub enum UserError {
    NotFound { id: String },
    DatabaseFailure { reason: String },
    EmailAlreadyExists { email: String },
}

/// The machine code of each kind of error.
pub open spec fn user_error_code(e: UserError) -> Seq<char> {
    match e {
        UserError::NotFound { .. } => "USER_NOT_FOUND"@,
        UserError::DatabaseFailure { .. } => "DATABASE_FAILURE"@,
        UserError::EmailAlreadyExists { .. } => "EMAIL_ALREADY_EXISTS"@,
    }
}

/// The human-readable message of each error.
pub open spec fn user_error_message(e: UserError) -> Seq<char> {
    match e {
        UserError::NotFound { id } => "User record not found for ID: "@ + id@,
        UserError::DatabaseFailure { reason } => "Database constraint violation: "@ + reason@,
        UserError::EmailAlreadyExists { email } => "The email address '"@ + email@
            + "' is already registered"@,
    }
}

impl UserError {
    /// The machine code that a front end can match on.
    pub fn code(&self) -> (r: &'static str)
        ensures
            r@ == user_error_code(*self),
    {
        match self {
            UserError::NotFound { .. } => "USER_NOT_FOUND",
            UserError::DatabaseFailure { .. } => "DATABASE_FAILURE",
            UserError::EmailAlreadyExists { .. } => "EMAIL_ALREADY_EXISTS",
        }
    }

    /// The message that the error displays.
    pub fn message(&self) -> (r: String)
        ensures
            r@ == user_error_message(*self),
    {
        let mut r = String::new();
        match self {
            UserError::NotFound { id } => {
                r.append("User record not found for ID: ");
                r.append(id.as_str());
            },
            UserError::DatabaseFailure { reason } => {
                r.append("Database constraint violation: ");
                r.append(reason.as_str());
            },
            UserError::EmailAlreadyExists { email } => {
                r.append("The email address '");
                r.append(email.as_str());
                r.append("' is already registered");
            },
        }
        r
    }
}

} // verus!
